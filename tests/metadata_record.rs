use thumbrs::metadata::{
    color_label_from_code, orientation_from_str, orientation_to_str, parse_i32,
    pick_label_from_code, DigikamColorLabel, DigikamPickLabel, ExifTags, Metadata, Orientation,
    Rational, CAMERA_MODEL_TAG, COLOR_LABEL_TAG, FNUMBER_TAG, LENS_MODEL_TAG, PICK_LABEL_TAG,
    RATING_TAG, TAGS_LIST_TAG,
};

const ALL: [Orientation; 9] = [
    Orientation::Unspecified,
    Orientation::Normal,
    Orientation::HorizontalFlip,
    Orientation::Rotate180,
    Orientation::VerticalFlip,
    Orientation::Rotate90HorizontalFlip,
    Orientation::Rotate90,
    Orientation::Rotate90VerticalFlip,
    Orientation::Rotate270,
];

fn full_tags() -> ExifTags {
    ExifTags {
        exif_tags: vec![FNUMBER_TAG.to_string(), LENS_MODEL_TAG.to_string(), CAMERA_MODEL_TAG.to_string()],
        xmp_tags: vec![
            RATING_TAG.to_string(),
            TAGS_LIST_TAG.to_string(),
            PICK_LABEL_TAG.to_string(),
            COLOR_LABEL_TAG.to_string(),
        ],
        orientation: Orientation::Rotate90,
        exposure_time: Some(Rational { numer: 1, denom: 250 }),
        iso_speed: Some(400),
        fnumber: Some(Rational { numer: 28, denom: 10 }),
        lens_model: Some("50mm".to_string()),
        camera_model: Some("Cam".to_string()),
        rating: Some("4".to_string()),
        tags_list: Some(vec!["cat".to_string()]),
        pick_label: Some("3".to_string()),
        color_label: Some("5".to_string()),
    }
}

#[test]
fn orientation_text_round_trips() {
    for o in ALL.iter() {
        assert_eq!(orientation_from_str(orientation_to_str(*o)), Some(*o));
    }
    assert_eq!(orientation_to_str(Orientation::Rotate90HorizontalFlip), "Rotate90HorizontalFlip");
    assert_eq!(orientation_from_str("Rotate190HorizontalFlip"), None);
    assert_eq!(orientation_from_str("normal"), None);
}

#[test]
fn integers_parse_like_std() {
    assert_eq!(parse_i32("5"), Some(5));
    assert_eq!(parse_i32("-3"), Some(-3));
    assert_eq!(parse_i32("+7"), Some(7));
    assert_eq!(parse_i32("007"), Some(7));
    assert_eq!(parse_i32("2147483647"), Some(2147483647));
    assert_eq!(parse_i32("-2147483648"), Some(-2147483648));
    assert_eq!(parse_i32("2147483648"), None);
    assert_eq!(parse_i32("99999999999999"), None);
    assert_eq!(parse_i32(""), None);
    assert_eq!(parse_i32("-"), None);
    assert_eq!(parse_i32("12a"), None);
    assert_eq!(parse_i32(" 1"), None);
    for s in ["0", "-0", "+15", "x", "1.5"].iter() {
        assert_eq!(parse_i32(s), s.parse::<i32>().ok());
    }
}

#[test]
fn pick_labels_decode() {
    assert_eq!(pick_label_from_code(0), Some(DigikamPickLabel::Unset));
    assert_eq!(pick_label_from_code(1), Some(DigikamPickLabel::Rejected));
    assert_eq!(pick_label_from_code(2), Some(DigikamPickLabel::Pending));
    assert_eq!(pick_label_from_code(3), Some(DigikamPickLabel::Accepted));
    assert_eq!(pick_label_from_code(4), None);
    assert_eq!(pick_label_from_code(-1), None);
}

#[test]
fn color_labels_decode() {
    assert_eq!(color_label_from_code(0), Some(DigikamColorLabel::Unset));
    assert_eq!(color_label_from_code(1), Some(DigikamColorLabel::Red));
    assert_eq!(color_label_from_code(6), Some(DigikamColorLabel::Magenta));
    assert_eq!(color_label_from_code(9), Some(DigikamColorLabel::White));
    assert_eq!(color_label_from_code(10), None);
}

#[test]
fn record_from_full_tags() {
    let m = Metadata::from((4000, 3000), Some(full_tags()));
    assert_eq!(m.size, (4000, 3000));
    assert_eq!(m.orientation, Orientation::Rotate90);
    assert_eq!(m.exposure_time, Some(Rational { numer: 1, denom: 250 }));
    assert_eq!(m.iso_speed, Some(400));
    assert_eq!(m.fnumber, Some(Rational { numer: 28, denom: 10 }));
    assert_eq!(m.lens_model, Some("50mm".to_string()));
    assert_eq!(m.camera_model, Some("Cam".to_string()));
    assert_eq!(m.rating, Some(4));
    assert_eq!(m.tags, vec!["cat".to_string()]);
    assert_eq!(m.digikam_pick_label, Some(DigikamPickLabel::Accepted));
    assert_eq!(m.digikam_color_label, Some(DigikamColorLabel::Blue));
}

#[test]
fn unadvertised_tags_are_absent() {
    let mut t = full_tags();
    t.exif_tags = Vec::new();
    t.xmp_tags = vec![RATING_TAG.to_string()];
    let m = Metadata::from((10, 20), Some(t));
    assert_eq!(m.fnumber, None);
    assert_eq!(m.lens_model, None);
    assert_eq!(m.camera_model, None);
    assert_eq!(m.rating, Some(4));
    assert!(m.tags.is_empty());
    assert_eq!(m.digikam_pick_label, None);
    assert_eq!(m.digikam_color_label, None);
    assert_eq!(m.iso_speed, Some(400));
}

#[test]
fn unreadable_values_degrade_alone() {
    let mut t = full_tags();
    t.rating = Some("four".to_string());
    t.pick_label = Some("7".to_string());
    t.color_label = None;
    let m = Metadata::from((1, 1), Some(t));
    assert_eq!(m.rating, None);
    assert_eq!(m.digikam_pick_label, None);
    assert_eq!(m.digikam_color_label, None);
    assert_eq!(m.camera_model, Some("Cam".to_string()));
}

#[test]
fn no_metadata_block_gives_bare_record() {
    let m = Metadata::from((640, 480), None);
    assert_eq!(m.size, (640, 480));
    assert_eq!(m.orientation, Orientation::Unspecified);
    assert_eq!(m.rating, None);
    assert!(m.tags.is_empty());
}
