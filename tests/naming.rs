use thumbrs::paths::{is_image, iter_after, join_components, manifest_file_name, strip_prefix};
use thumbrs::text::{manifest_notice, push_decimal, tree_line, tree_prefix};

fn comps(s: &[&str]) -> Vec<String> {
    s.iter().map(|c| c.to_string()).collect()
}

#[test]
fn prefix_is_stripped_by_components() {
    let path = comps(&["/", "photos", "A", "photo1.jpg"]);
    let base = comps(&["/", "photos"]);
    assert_eq!(strip_prefix(&path, &base), Some(comps(&["A", "photo1.jpg"])));
    assert_eq!(strip_prefix(&path, &path), Some(Vec::new()));
}

#[test]
fn non_prefix_gives_none() {
    let path = comps(&["/", "photos", "A"]);
    assert_eq!(strip_prefix(&path, &comps(&["/", "pho"])), None);
    assert_eq!(iter_after(&comps(&["a"]), &comps(&["a", "b"])), None);
    assert_eq!(iter_after(&comps(&["a", "b"]), &Vec::new()), Some(comps(&["a", "b"])));
}

#[test]
fn relative_paths_join_with_slashes() {
    assert_eq!(join_components(&comps(&["A", "B", "photo2.JPG"])), "A/B/photo2.JPG");
    assert_eq!(join_components(&comps(&["photo.jpg"])), "photo.jpg");
    assert_eq!(join_components(&Vec::new()), "");
}

#[test]
fn image_extension_is_case_sensitive() {
    assert!(is_image("photo1.jpg"));
    assert!(is_image("photo2.JPG"));
    assert!(is_image("..jpg"));
    assert!(!is_image("photo.Jpg"));
    assert!(!is_image("photo.jpeg"));
    assert!(!is_image(".jpg"));
    assert!(!is_image("jpg"));
    assert!(!is_image("_A.json"));
    assert!(!is_image("notes.txt"));
}

#[test]
fn manifest_is_named_after_directory() {
    assert_eq!(manifest_file_name("A"), "_A.json");
    assert_eq!(manifest_file_name("B"), "_B.json");
}

#[test]
fn decimals_have_no_leading_zeros() {
    let mut s = String::from("n=");
    push_decimal(&mut s, 0);
    assert_eq!(s, "n=0");
    let mut t = String::new();
    push_decimal(&mut t, 18446744073709551615);
    assert_eq!(t, "18446744073709551615");
}

#[test]
fn tree_prefix_draws_bars_for_open_ancestors() {
    assert_eq!(tree_prefix(&vec![true, false]), "│       ");
    assert_eq!(tree_prefix(&Vec::new()), "");
}

#[test]
fn tree_line_with_progress() {
    assert_eq!(tree_line(Some((1, 8)), &vec![true], true, "a.jpg"), "01/08 │   ├── a.jpg");
    assert_eq!(tree_line(Some((12, 108)), &Vec::new(), false, "b.jpg"), "12/108 └── b.jpg");
}

#[test]
fn tree_line_without_progress() {
    assert_eq!(tree_line(None, &vec![false], false, "B"), "          └── B");
}

#[test]
fn manifest_notice_is_indented() {
    assert_eq!(manifest_notice(&vec![true], "_A.json"), "      │   {meta: _A.json}");
}
