use thumbrs::manifest::Timestamp;
use thumbrs::thumbnail::{thumbnail_dimensions, thumbnail_file_name};
use thumbrs::walk::{walk_filetree, Entry, Options, PendingDir, Walk};

fn comps(s: &[&str]) -> Vec<String> {
    s.iter().map(|c| c.to_string()).collect()
}

fn options() -> Options {
    Options {
        generate_thumbnails: true,
        compare_by_hash: false,
        thumbnail_sizes: vec![100, 800],
        thumbnail_qualities: vec![75, 88],
        hidden_dirs: vec!["raw".to_string(), "0-sterne".to_string()],
    }
}

fn file(name: &str, secs: i64) -> Entry {
    Entry { name: name.to_string(), is_dir: false, mtime: Timestamp { secs, nanos: 0 } }
}

fn dir(name: &str) -> Entry {
    Entry { name: name.to_string(), is_dir: true, mtime: Timestamp { secs: 0, nanos: 0 } }
}

fn start() -> (Walk, PendingDir) {
    let mut w = walk_filetree(&comps(&["/", "photos"]), &comps(&["/", "out"]), &options());
    let root = w.next_dir().unwrap();
    (w, root)
}

#[test]
fn walk_starts_at_root() {
    let (mut w, root) = start();
    assert!(root.is_root);
    assert_eq!(root.name, "photos");
    assert_eq!(root.input, comps(&["/", "photos"]));
    assert_eq!(root.output, comps(&["/", "out"]));
    assert!(root.heading().is_none());
    assert!(root.inaccessible_notice().is_none());
    assert!(root.ancestor_at_end().is_empty());
    assert!(w.next_dir().is_none());
}

#[test]
fn entries_are_sorted_and_partitioned() {
    let (mut w, root) = start();
    let entries = vec![
        file("b.jpg", 2),
        dir("Z"),
        file("notes.txt", 1),
        file("a.JPG", 3),
        dir("C"),
        file("_photos.json", 1),
    ];
    let plan = w.visit(&root, &entries).unwrap();
    assert_eq!(plan.sub_dirs, comps(&["C", "Z"]));
    assert_eq!(plan.image_names, comps(&["a.JPG", "b.jpg"]));
    assert_eq!(plan.images[0].relpath, "a.JPG");
    assert_eq!(plan.images[0].mtime, Timestamp { secs: 3, nanos: 0 });
    assert_eq!(plan.images[1].relpath, "b.jpg");
    assert_eq!(plan.manifest_name, "_photos.json");
    let c = w.next_dir().unwrap();
    assert_eq!(c.name, "C");
    assert_eq!(c.input, comps(&["/", "photos", "C"]));
    assert_eq!(c.output, comps(&["/", "out", "C"]));
    assert!(c.has_subcontent);
    assert_eq!(c.heading().unwrap(), "      ├── C");
    let z = w.next_dir().unwrap();
    assert_eq!(z.name, "Z");
    assert!(!z.has_subcontent);
    assert_eq!(z.heading().unwrap(), "      └── Z");
    assert_eq!(z.inaccessible_notice().unwrap(), "      └── Z [inaccessible]");
    assert!(w.next_dir().is_none());
}

#[test]
fn hidden_directory_is_never_entered() {
    let (mut w, root) = start();
    let entries = vec![dir("raw"), dir("raw-2019"), dir("myraw"), file("x.jpg", 1)];
    let plan = w.visit(&root, &entries).unwrap();
    assert_eq!(plan.sub_dirs, comps(&["myraw", "raw-2019"]));
    let mut seen = Vec::new();
    while let Some(d) = w.next_dir() {
        seen.push(d.name.clone());
    }
    assert_eq!(seen, comps(&["myraw", "raw-2019"]));
}

#[test]
fn directory_of_only_hidden_dirs_is_skipped() {
    let (mut w, root) = start();
    let plan = w.visit(&root, &vec![dir("raw"), dir("0-sterne")]);
    assert!(plan.is_none());
    assert!(w.next_dir().is_none());
}

#[test]
fn directory_without_images_or_subdirs_is_skipped() {
    let (mut w, root) = start();
    let plan = w.visit(&root, &vec![file("notes.txt", 1), file("_photos.json", 1), file("x.png", 1)]);
    assert!(plan.is_none());
    assert!(w.next_dir().is_none());
    let (mut w2, root2) = start();
    assert!(w2.visit(&root2, &Vec::new()).is_none());
}

#[test]
fn nested_directories_track_ancestors() {
    let (mut w, root) = start();
    w.visit(&root, &vec![dir("A"), dir("B")]).unwrap();
    let a = w.next_dir().unwrap();
    assert_eq!(a.ancestor_at_end(), vec![true]);
    w.visit(&a, &vec![dir("inner"), file("p.jpg", 1)]).unwrap();
    let inner = w.next_dir().unwrap();
    assert_eq!(inner.name, "inner");
    assert_eq!(inner.parent_ancestors, vec![true]);
    assert_eq!(inner.ancestor_at_end(), vec![true, false]);
    assert_eq!(inner.heading().unwrap(), "      │   └── inner");
    let b = w.next_dir().unwrap();
    assert_eq!(b.name, "B");
    assert_eq!(b.ancestor_at_end(), vec![false]);
}

#[test]
fn collection_with_two_levels() {
    // root holds A; A holds photo1.jpg (4000x3000) and B; B holds photo2.JPG (3000x4000)
    let mut w = walk_filetree(&comps(&["/", "col"]), &comps(&["/", "out"]), &options());
    let root = w.next_dir().unwrap();
    let root_plan = w.visit(&root, &vec![dir("A")]).unwrap();
    assert!(root_plan.images.is_empty());
    let a = w.next_dir().unwrap();
    assert_eq!(a.output, comps(&["/", "out", "A"]));
    let a_plan = w.visit(&a, &vec![file("photo1.jpg", 5), dir("B")]).unwrap();
    assert_eq!(a_plan.images[0].relpath, "A/photo1.jpg");
    assert_eq!(a_plan.manifest_name, "_A.json");
    let jobs = w.options.thumbnail_jobs();
    assert_eq!(jobs, vec![(100, 75), (800, 88)]);
    let names1: Vec<String> = jobs
        .iter()
        .map(|&(size, _)| {
            let (tw, th) = thumbnail_dimensions(4000, 3000, size);
            thumbnail_file_name("photo1.jpg", tw, th)
        })
        .collect();
    assert_eq!(names1, comps(&["photo1.jpg_100x75.jpg", "photo1.jpg_800x600.jpg"]));
    let b = w.next_dir().unwrap();
    assert_eq!(b.output, comps(&["/", "out", "A", "B"]));
    let b_plan = w.visit(&b, &vec![file("photo2.JPG", 6)]).unwrap();
    assert_eq!(b_plan.images[0].relpath, "A/B/photo2.JPG");
    assert_eq!(b_plan.manifest_name, "_B.json");
    let names2: Vec<String> = jobs
        .iter()
        .map(|&(size, _)| {
            let (tw, th) = thumbnail_dimensions(3000, 4000, size);
            thumbnail_file_name("photo2.JPG", tw, th)
        })
        .collect();
    assert_eq!(names2, comps(&["photo2.JPG_75x100.jpg", "photo2.JPG_600x800.jpg"]));
    assert!(w.next_dir().is_none());
}

#[test]
fn metadata_only_run_has_no_jobs() {
    let mut o = options();
    o.generate_thumbnails = false;
    assert!(o.thumbnail_jobs().is_empty());
}
