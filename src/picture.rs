//! Decoded images as plain RGB buffers, the pixel operations of the `image`
//! crate on them, and orientation normalisation.
use vstd::prelude::*;
use crate::metadata::Orientation;

verus! {

/// An 8-bit RGB image, row by row from the top, three bytes per pixel.
pub struct Picture {
    pub width: u32,
    pub height: u32,
    pub pixels: Vec<u8>,
}

impl Picture {
    /// The buffer holds exactly one RGB triple per pixel.
    pub open spec fn wf(&self) -> bool {
        self.pixels@.len() == 3 * (self.width as int) * (self.height as int)
    }

    /// The three bytes of the pixel in column `x` and row `y`.
    pub open spec fn px(&self, x: int, y: int) -> Seq<u8> {
        let at = 3 * (y * self.width + x);
        self.pixels@.subrange(at, at + 3)
    }

    /// Every pixel of `self` is the pixel of `src` that `from` names for its place.
    pub open spec fn maps_from(&self, src: &Picture, from: spec_fn(int, int) -> (int, int)) -> bool {
        forall|x: int, y: int|
            0 <= x < self.width && 0 <= y < self.height ==> #[trigger] self.px(x, y) == src.px(
                from(x, y).0,
                from(x, y).1,
            )
    }
}

/// The pixels of `image::imageops::resize` with the Catmull-Rom filter, applied
/// to a `w` by `h` RGB buffer to give an `nw` by `nh` one.
pub uninterp spec fn resized_pixels(pixels: Seq<u8>, w: u32, h: u32, nw: u32, nh: u32) -> Seq<u8>;

/// Relies on `image::imageops::rotate90`: the result is `height` wide and
/// `width` high, and the source pixel (x, y) lands at (height - 1 - y, x).
#[verifier::external_body]
fn rotate90(p: &Picture) -> (r: Picture)
    requires
        p.wf(),
    ensures
        r.width == p.height,
        r.height == p.width,
        r.wf(),
        r.maps_from(p, |x: int, y: int| (y, p.height - 1 - x)),
{
    let buf = image::ImageBuffer::<image::Rgb<u8>, &[u8]>::from_raw(p.width, p.height, p.pixels.as_slice()).unwrap();
    let out = image::imageops::rotate90(&buf);
    Picture { width: out.width(), height: out.height(), pixels: out.into_raw() }
}

/// Relies on `image::imageops::rotate180`: same size, and the source pixel
/// (x, y) lands at (width - 1 - x, height - 1 - y).
#[verifier::external_body]
fn rotate180(p: &Picture) -> (r: Picture)
    requires
        p.wf(),
    ensures
        r.width == p.width,
        r.height == p.height,
        r.wf(),
        r.maps_from(p, |x: int, y: int| (p.width - 1 - x, p.height - 1 - y)),
{
    let buf = image::ImageBuffer::<image::Rgb<u8>, &[u8]>::from_raw(p.width, p.height, p.pixels.as_slice()).unwrap();
    let out = image::imageops::rotate180(&buf);
    Picture { width: out.width(), height: out.height(), pixels: out.into_raw() }
}

/// Relies on `image::imageops::rotate270`: the result is `height` wide and
/// `width` high, and the source pixel (x, y) lands at (y, width - 1 - x).
#[verifier::external_body]
fn rotate270(p: &Picture) -> (r: Picture)
    requires
        p.wf(),
    ensures
        r.width == p.height,
        r.height == p.width,
        r.wf(),
        r.maps_from(p, |x: int, y: int| (p.width - 1 - y, x)),
{
    let buf = image::ImageBuffer::<image::Rgb<u8>, &[u8]>::from_raw(p.width, p.height, p.pixels.as_slice()).unwrap();
    let out = image::imageops::rotate270(&buf);
    Picture { width: out.width(), height: out.height(), pixels: out.into_raw() }
}

/// Relies on `image::imageops::flip_horizontal`: same size, and the source
/// pixel (x, y) lands at (width - 1 - x, y).
#[verifier::external_body]
fn flip_horizontal(p: &Picture) -> (r: Picture)
    requires
        p.wf(),
    ensures
        r.width == p.width,
        r.height == p.height,
        r.wf(),
        r.maps_from(p, |x: int, y: int| (p.width - 1 - x, y)),
{
    let buf = image::ImageBuffer::<image::Rgb<u8>, &[u8]>::from_raw(p.width, p.height, p.pixels.as_slice()).unwrap();
    let out = image::imageops::flip_horizontal(&buf);
    Picture { width: out.width(), height: out.height(), pixels: out.into_raw() }
}

/// Relies on `image::imageops::flip_vertical`: same size, and the source
/// pixel (x, y) lands at (x, height - 1 - y).
#[verifier::external_body]
fn flip_vertical(p: &Picture) -> (r: Picture)
    requires
        p.wf(),
    ensures
        r.width == p.width,
        r.height == p.height,
        r.wf(),
        r.maps_from(p, |x: int, y: int| (x, p.height - 1 - y)),
{
    let buf = image::ImageBuffer::<image::Rgb<u8>, &[u8]>::from_raw(p.width, p.height, p.pixels.as_slice()).unwrap();
    let out = image::imageops::flip_vertical(&buf);
    Picture { width: out.width(), height: out.height(), pixels: out.into_raw() }
}

/// Relies on `image::imageops::resize` with `FilterType::CatmullRom`: the
/// result has the requested size; where that is the source's size, it is a copy.
/// The source must be non-empty (the filter reads at least one source pixel per
/// output pixel), and the working buffers must fit in memory.
#[verifier::external_body]
pub(crate) fn resize(p: &Picture, nw: u32, nh: u32) -> (r: Picture)
    requires
        p.wf(),
        p.width > 0,
        p.height > 0,
        4 * (p.width as int) * (nh as int) <= usize::MAX,
        3 * (nw as int) * (nh as int) <= usize::MAX,
    ensures
        r.width == nw,
        r.height == nh,
        r.wf(),
        r.pixels@ == resized_pixels(p.pixels@, p.width, p.height, nw, nh),
        nw == p.width && nh == p.height ==> r.pixels@ == p.pixels@,
{
    let buf = image::ImageBuffer::<image::Rgb<u8>, &[u8]>::from_raw(p.width, p.height, p.pixels.as_slice()).unwrap();
    let out = image::imageops::resize(&buf, nw, nh, image::imageops::FilterType::CatmullRom);
    Picture { width: out.width(), height: out.height(), pixels: out.into_raw() }
}

/// Orientations whose correction turns the image a quarter turn, so that width
/// and height trade places.
pub open spec fn swaps_axes(o: Orientation) -> bool {
    match o {
        Orientation::Rotate90HorizontalFlip | Orientation::Rotate90
        | Orientation::Rotate90VerticalFlip | Orientation::Rotate270 => true,
        _ => false,
    }
}

/// The size of the upright image made from a `w` by `h` image stored with orientation `o`.
pub open spec fn upright_dims(o: Orientation, w: u32, h: u32) -> (u32, u32) {
    if swaps_axes(o) {
        (h, w)
    } else {
        (w, h)
    }
}

/// For an image of `w` by `h` stored with orientation `o`, the place in the
/// stored image of the upright image's pixel (x, y).
pub open spec fn upright_source(o: Orientation, w: int, h: int, x: int, y: int) -> (int, int) {
    match o {
        Orientation::HorizontalFlip => (w - 1 - x, y),
        Orientation::Rotate180 => (w - 1 - x, h - 1 - y),
        Orientation::VerticalFlip => (x, h - 1 - y),
        Orientation::Rotate90HorizontalFlip => (y, x),
        Orientation::Rotate90 => (y, h - 1 - x),
        Orientation::Rotate90VerticalFlip => (w - 1 - y, h - 1 - x),
        Orientation::Rotate270 => (w - 1 - y, x),
        _ => (x, y),
    }
}

/// Turns and flips a decoded image as its stored orientation says, giving the
/// upright image that all thumbnails of it are made from.
pub fn apply_orientation(img: Picture, o: Orientation) -> (r: Picture)
    requires
        img.wf(),
    ensures
        r.wf(),
        (r.width, r.height) == upright_dims(o, img.width, img.height),
        r.maps_from(&img, |x: int, y: int| upright_source(o, img.width as int, img.height as int, x, y)),
{
    let ghost w = img.width as int;
    let ghost h = img.height as int;
    match o {
        Orientation::Unspecified | Orientation::Normal => {
            img
        },
        Orientation::HorizontalFlip => flip_horizontal(&img),
        Orientation::Rotate180 => rotate180(&img),
        Orientation::VerticalFlip => flip_vertical(&img),
        Orientation::Rotate90HorizontalFlip => {
            let t = rotate90(&img);
            let r = flip_horizontal(&t);
            assert forall|x: int, y: int| 0 <= x < r.width && 0 <= y < r.height implies #[trigger] r.px(x, y)
                == img.px(y, x) by {
                assert(r.px(x, y) == t.px(h - 1 - x, y));
                assert(t.px(h - 1 - x, y) == img.px(y, h - 1 - (h - 1 - x)));
            }
            r
        },
        Orientation::Rotate90 => rotate90(&img),
        Orientation::Rotate90VerticalFlip => {
            let t = rotate90(&img);
            let r = flip_vertical(&t);
            assert forall|x: int, y: int| 0 <= x < r.width && 0 <= y < r.height implies #[trigger] r.px(x, y)
                == img.px(w - 1 - y, h - 1 - x) by {
                assert(r.px(x, y) == t.px(x, w - 1 - y));
                assert(t.px(x, w - 1 - y) == img.px(w - 1 - y, h - 1 - x));
            }
            r
        },
        Orientation::Rotate270 => rotate270(&img),
    }
}

} // verus!
