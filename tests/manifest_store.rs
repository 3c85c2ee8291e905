use thumbrs::manifest::{
    file_sha1, find_entry, is_earlier, needs_regeneration, next_manifest, resolve_entry, FileInfo,
    ImageFile, Timestamp,
};
use thumbrs::metadata::{Metadata, Orientation};

fn ts(secs: i64) -> Timestamp {
    Timestamp { secs, nanos: 0 }
}

fn info(name: &str, secs: i64, sha: &str) -> FileInfo {
    FileInfo {
        filename: name.to_string(),
        sha1sum: sha.to_string(),
        modified_time: ts(secs),
        metadata: Metadata::from((4000, 3000), None),
        thumbnail_sizes: vec![(100, 75), (800, 600)],
    }
}

fn image(name: &str, secs: i64) -> ImageFile {
    ImageFile { relpath: name.to_string(), mtime: ts(secs) }
}

fn names(m: &[FileInfo]) -> Vec<String> {
    m.iter().map(|e| e.filename.clone()).collect()
}

fn same(a: &FileInfo, b: &FileInfo) -> bool {
    a.filename == b.filename
        && a.sha1sum == b.sha1sum
        && a.modified_time == b.modified_time
        && a.thumbnail_sizes == b.thumbnail_sizes
        && a.metadata.size == b.metadata.size
        && a.metadata.orientation == b.metadata.orientation
        && a.metadata.tags == b.metadata.tags
}

#[test]
fn sha1_of_known_text() {
    assert_eq!(file_sha1(&b"Hello World!".to_vec()), "2ef7bde608ce5404e97d5f042f95f89f1c232871");
    assert_eq!(file_sha1(&Vec::new()), "da39a3ee5e6b4b0d3255bfef95601890afd80709");
}

#[test]
fn timestamps_order_by_seconds_then_nanos() {
    assert!(is_earlier(ts(1), ts(2)));
    assert!(!is_earlier(ts(2), ts(2)));
    assert!(is_earlier(Timestamp { secs: 2, nanos: 5 }, Timestamp { secs: 2, nanos: 6 }));
    assert!(!is_earlier(Timestamp { secs: 3, nanos: 0 }, Timestamp { secs: 2, nanos: 999 }));
}

#[test]
fn lookup_finds_first_entry_by_path() {
    let m = vec![info("A/x.jpg", 1, "1"), info("A/y.jpg", 2, "2"), info("A/y.jpg", 3, "3")];
    assert_eq!(find_entry(&m, &"A/y.jpg".to_string()), Some(1));
    assert_eq!(find_entry(&m, &"A/z.jpg".to_string()), None);
}

#[test]
fn new_image_is_stale() {
    let m = vec![info("A/x.jpg", 10, "1")];
    assert!(needs_regeneration(&m, &image("A/new.jpg", 5)));
}

#[test]
fn touched_later_is_stale() {
    let m = vec![info("A/x.jpg", 10, "1")];
    assert!(needs_regeneration(&m, &image("A/x.jpg", 11)));
    assert!(needs_regeneration(&m, &ImageFile { relpath: "A/x.jpg".to_string(), mtime: Timestamp { secs: 10, nanos: 1 } }));
}

#[test]
fn touched_not_later_is_fresh() {
    let m = vec![info("A/x.jpg", 10, "1")];
    assert!(!needs_regeneration(&m, &image("A/x.jpg", 10)));
    assert!(!needs_regeneration(&m, &image("A/x.jpg", 9)));
}

#[test]
fn stale_entry_is_replaced_fresh_entry_is_carried() {
    let prev = vec![info("A/x.jpg", 10, "old-x"), info("A/y.jpg", 10, "old-y")];
    let imgs = vec![image("A/x.jpg", 20), image("A/y.jpg", 10)];
    let fresh = vec![Some(info("A/x.jpg", 20, "new-x")), Some(info("A/y.jpg", 10, "ignored"))];
    let m = next_manifest(&prev, &imgs, &fresh);
    assert_eq!(names(&m), vec!["A/x.jpg", "A/y.jpg"]);
    assert_eq!(m[0].sha1sum, "new-x");
    assert_eq!(m[0].modified_time, ts(20));
    assert!(same(&m[1], &prev[1]));
}

#[test]
fn failed_regeneration_keeps_prior_or_nothing() {
    let prev = vec![info("A/x.jpg", 10, "old-x")];
    let imgs = vec![image("A/x.jpg", 20), image("A/new.jpg", 20)];
    let m = next_manifest(&prev, &imgs, &vec![None, None]);
    assert_eq!(names(&m), vec!["A/x.jpg"]);
    assert!(same(&m[0], &prev[0]));
}

#[test]
fn entries_of_vanished_files_are_retained() {
    let prev = vec![info("A/gone.jpg", 5, "g"), info("A/x.jpg", 10, "x")];
    let imgs = vec![image("A/x.jpg", 10)];
    let m = next_manifest(&prev, &imgs, &vec![None]);
    assert_eq!(names(&m), vec!["A/x.jpg", "A/gone.jpg"]);
    assert!(same(&m[1], &prev[0]));
}

#[test]
fn second_run_without_changes_reproduces_manifest() {
    let imgs = vec![image("A/a.jpg", 7), image("A/b.jpg", 8)];
    let first = next_manifest(
        &Vec::new(),
        &imgs,
        &vec![Some(info("A/a.jpg", 7, "a")), Some(info("A/b.jpg", 8, "b"))],
    );
    for img in &imgs {
        assert!(!needs_regeneration(&first, img));
    }
    let second = next_manifest(&first, &imgs, &vec![None, None]);
    assert_eq!(second.len(), first.len());
    for (a, b) in first.iter().zip(second.iter()) {
        assert!(same(a, b));
    }
}

#[test]
fn resolve_prefers_fresh_only_when_stale() {
    let prev = vec![info("A/x.jpg", 10, "old")];
    let fresh = Some(info("A/x.jpg", 10, "new"));
    let kept = resolve_entry(&prev, &image("A/x.jpg", 10), &fresh).unwrap();
    assert_eq!(kept.sha1sum, "old");
    let redone = resolve_entry(&prev, &image("A/x.jpg", 11), &fresh).unwrap();
    assert_eq!(redone.sha1sum, "new");
    assert!(resolve_entry(&Vec::new(), &image("A/x.jpg", 1), &None).is_none());
}

#[test]
fn duplicate_copies_every_field() {
    let mut e = info("A/x.jpg", 10, "abc");
    e.metadata.tags = vec!["cat".to_string(), "dog".to_string()];
    e.metadata.orientation = Orientation::Rotate90;
    e.metadata.lens_model = Some("lens".to_string());
    let d = e.duplicate();
    assert!(same(&d, &e));
    assert_eq!(d.metadata.lens_model, Some("lens".to_string()));
}
