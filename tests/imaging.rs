use thumbrs::metadata::Orientation;
use thumbrs::picture::{apply_orientation, Picture};
use thumbrs::thumbnail::{collect_sizes, make_thumbnail, thumbnail_dimensions, thumbnail_file_name};

fn gradient(width: u32, height: u32) -> Picture {
    let mut pixels = Vec::new();
    for y in 0..height {
        for x in 0..width {
            pixels.push(x as u8);
            pixels.push(y as u8);
            pixels.push(7);
        }
    }
    Picture { width, height, pixels }
}

fn px(p: &Picture, x: u32, y: u32) -> (u8, u8, u8) {
    let at = 3 * (y * p.width + x) as usize;
    (p.pixels[at], p.pixels[at + 1], p.pixels[at + 2])
}

#[test]
fn landscape_source_keeps_aspect() {
    assert_eq!(thumbnail_dimensions(4000, 3000, 800), (800, 600));
}

#[test]
fn portrait_source_keeps_aspect() {
    assert_eq!(thumbnail_dimensions(3000, 4000, 800), (600, 800));
}

#[test]
fn square_source_gives_square() {
    assert_eq!(thumbnail_dimensions(1000, 1000, 500), (500, 500));
}

#[test]
fn short_edge_is_rounded_to_nearest() {
    assert_eq!(thumbnail_dimensions(3000, 4000, 100), (75, 100));
    assert_eq!(thumbnail_dimensions(4000, 3000, 100), (100, 75));
    // 1000 * 2 / 3 = 666.67
    assert_eq!(thumbnail_dimensions(3000, 2000, 1000), (1000, 667));
    // 100 * 1 / 8 = 12.5, halves go up
    assert_eq!(thumbnail_dimensions(800, 100, 100), (100, 13));
}

#[test]
fn upscaling_is_allowed() {
    assert_eq!(thumbnail_dimensions(40, 30, 800), (800, 600));
}

#[test]
fn thumbnail_names_carry_the_size() {
    assert_eq!(thumbnail_file_name("photo1.jpg", 100, 75), "photo1.jpg_100x75.jpg");
    assert_eq!(thumbnail_file_name("photo1.jpg", 800, 600), "photo1.jpg_800x600.jpg");
    assert_eq!(thumbnail_file_name("photo2.JPG", 0, 1067), "photo2.JPG_0x1067.jpg");
}

#[test]
fn rendering_resizes_and_names() {
    let img = gradient(8, 6);
    let t = make_thumbnail(&img, 4, "a.jpg");
    assert_eq!((t.width, t.height), (4, 3));
    assert_eq!(t.file_name, "a.jpg_4x3.jpg");
    assert_eq!((t.picture.width, t.picture.height), (4, 3));
    assert_eq!(t.picture.pixels.len(), 4 * 3 * 3);
}

#[test]
fn rendering_at_source_size_copies() {
    let img = gradient(5, 5);
    let t = make_thumbnail(&img, 5, "sq.jpg");
    assert_eq!((t.width, t.height), (5, 5));
    assert_eq!(t.picture.pixels, img.pixels);
}

#[test]
fn quarter_turn_makes_landscape_portrait() {
    let img = gradient(4, 2);
    let up = apply_orientation(img, Orientation::Rotate90);
    assert_eq!((up.width, up.height), (2, 4));
    // the stored pixel (x, y) lands at (height - 1 - y, x)
    let src = gradient(4, 2);
    for y in 0..2 {
        for x in 0..4 {
            assert_eq!(px(&up, 2 - 1 - y, x), px(&src, x, y));
        }
    }
    let t = make_thumbnail(&up, 100, "p.jpg");
    assert!(t.height > t.width);
    assert_eq!((t.width, t.height), (50, 100));
}

#[test]
fn three_quarter_turn_makes_landscape_portrait() {
    let up = apply_orientation(gradient(4, 2), Orientation::Rotate270);
    assert_eq!((up.width, up.height), (2, 4));
    let src = gradient(4, 2);
    assert_eq!(px(&up, 0, 3), px(&src, 0, 0));
}

#[test]
fn transposing_orientations_swap_axes() {
    let src = gradient(4, 2);
    let t = apply_orientation(gradient(4, 2), Orientation::Rotate90HorizontalFlip);
    assert_eq!((t.width, t.height), (2, 4));
    for y in 0..4 {
        for x in 0..2 {
            assert_eq!(px(&t, x, y), px(&src, y, x));
        }
    }
    let v = apply_orientation(gradient(4, 2), Orientation::Rotate90VerticalFlip);
    assert_eq!((v.width, v.height), (2, 4));
    assert_eq!(px(&v, 0, 0), px(&src, 3, 1));
}

#[test]
fn flips_and_half_turn_keep_size() {
    let src = gradient(4, 2);
    let h = apply_orientation(gradient(4, 2), Orientation::HorizontalFlip);
    assert_eq!((h.width, h.height), (4, 2));
    assert_eq!(px(&h, 0, 0), px(&src, 3, 0));
    let v = apply_orientation(gradient(4, 2), Orientation::VerticalFlip);
    assert_eq!(px(&v, 0, 0), px(&src, 0, 1));
    let r = apply_orientation(gradient(4, 2), Orientation::Rotate180);
    assert_eq!(px(&r, 0, 0), px(&src, 3, 1));
}

#[test]
fn upright_orientations_leave_image_alone() {
    let n = apply_orientation(gradient(4, 2), Orientation::Normal);
    assert_eq!(n.pixels, gradient(4, 2).pixels);
    let u = apply_orientation(gradient(4, 2), Orientation::Unspecified);
    assert_eq!((u.width, u.height), (4, 2));
}

#[test]
fn sizes_come_back_in_configured_order() {
    let reports = vec![(1usize, 800u32, 600u32), (0, 100, 75)];
    assert_eq!(collect_sizes(2, &reports), Some(vec![(100, 75), (800, 600)]));
}

#[test]
fn missing_rendering_fails_the_image() {
    let reports = vec![(1usize, 800u32, 600u32)];
    assert_eq!(collect_sizes(2, &reports), None);
    assert_eq!(collect_sizes(0, &Vec::new()), Some(Vec::new()));
}
