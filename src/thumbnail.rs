//! Thumbnail sizing, naming and rendering, and the collection of the sizes
//! that the renderings of one image report.
use vstd::prelude::*;
use crate::metadata::Orientation;
use crate::picture::{Picture, resize, resized_pixels, swaps_axes, upright_dims};
use crate::text::{decimal, push_decimal};

verus! {

/// `size * short / long`, rounded to the nearest integer, halves up.
pub open spec fn scaled_edge(size: int, short: int, long: int) -> int {
    (2 * size * short + long) / (2 * long)
}

/// The size of the thumbnail of a `width` by `height` image whose long edge is
/// to be `size`: the long edge becomes `size` and the other edge keeps the
/// aspect ratio, rounded; a square image gives a `size` by `size` square.
pub open spec fn thumbnail_size(width: u32, height: u32, size: u32) -> (int, int) {
    if width > height {
        (size as int, scaled_edge(size as int, height as int, width as int))
    } else if width < height {
        (scaled_edge(size as int, width as int, height as int), size as int)
    } else {
        (size as int, size as int)
    }
}

/// The file name of a thumbnail: the source's file name, then `_WxH.jpg`.
pub open spec fn thumbnail_name(source_name: Seq<char>, w: u32, h: u32) -> Seq<char> {
    source_name + seq!['_'] + decimal(w as nat) + seq!['x'] + decimal(h as nat) + ".jpg"@
}

/// A rendered thumbnail: its size, the file name it goes under, and its pixels.
pub struct Thumbnail {
    pub width: u32,
    pub height: u32,
    pub file_name: String,
    pub picture: Picture,
}

proof fn lemma_scaled_edge_bounded(size: int, short: int, long: int)
    requires
        0 <= size,
        0 <= short < long,
    ensures
        0 <= scaled_edge(size, short, long) <= size,
{
    assert(0 <= 2 * size * short + long) by (nonlinear_arith)
        requires
            0 <= size,
            0 <= short,
            0 < long,
    ;
    assert(2 * size * short + long <= 2 * long * size + 2 * long - 1) by (nonlinear_arith)
        requires
            0 <= size,
            0 <= short < long,
    ;
    assert((2 * size * short + long) / (2 * long) <= size) by (nonlinear_arith)
        requires
            0 <= size,
            0 < long,
            2 * size * short + long <= 2 * long * size + 2 * long - 1,
    ;
    assert(0 <= (2 * size * short + long) / (2 * long)) by (nonlinear_arith)
        requires
            0 <= 2 * size * short + long,
            0 < long,
    ;
}

fn scale_edge(size: u32, short: u32, long: u32) -> (r: u32)
    requires
        short < long,
    ensures
        r as int == scaled_edge(size as int, short as int, long as int),
        r <= size,
{
    proof {
        lemma_scaled_edge_bounded(size as int, short as int, long as int);
    }
    assert((size as int) * (short as int) <= 0xffff_ffff_ffff_ffff) by (nonlinear_arith)
        requires
            size <= 0xffff_ffff,
            short <= 0xffff_ffff,
    ;
    let a: u128 = (size as u128) * (short as u128);
    let num: u128 = 2 * a + (long as u128);
    let q: u128 = num / (2 * (long as u128));
    assert(2 * ((size as int) * (short as int)) == 2 * (size as int) * (short as int))
        by (nonlinear_arith);
    assert(q as int == scaled_edge(size as int, short as int, long as int));
    q as u32
}

/// The size of the thumbnail of a `width` by `height` image with long edge `size`.
pub fn thumbnail_dimensions(width: u32, height: u32, size: u32) -> (r: (u32, u32))
    ensures
        (r.0 as int, r.1 as int) == thumbnail_size(width, height, size),
        r.0 <= size,
        r.1 <= size,
{
    if width > height {
        (size, scale_edge(size, height, width))
    } else if width < height {
        (scale_edge(size, width, height), size)
    } else {
        (size, size)
    }
}

/// The file name under which the `w` by `h` thumbnail of `source_name` is written.
pub fn thumbnail_file_name(source_name: &str, w: u32, h: u32) -> (r: String)
    ensures
        r@ == thumbnail_name(source_name@, w, h),
{
    let mut s = String::new();
    s.append(source_name);
    s.append("_");
    push_decimal(&mut s, w as u64);
    s.append("x");
    push_decimal(&mut s, h as u64);
    s.append(".jpg");
    proof {
        reveal_strlit("_");
        reveal_strlit("x");
    }
    assert(s@ =~= thumbnail_name(source_name@, w, h));
    s
}

/// Renders the thumbnail of the upright image `img` whose long edge is `size`,
/// to be stored beside the source file `source_name`.
pub fn make_thumbnail(img: &Picture, size: u32, source_name: &str) -> (r: Thumbnail)
    requires
        img.wf(),
        img.width > 0,
        img.height > 0,
        4 * (img.width as int) * (size as int) <= usize::MAX,
        3 * (size as int) * (size as int) <= usize::MAX,
    ensures
        (r.width as int, r.height as int) == thumbnail_size(img.width, img.height, size),
        r.file_name@ == thumbnail_name(source_name@, r.width, r.height),
        r.picture.wf(),
        r.picture.width == r.width,
        r.picture.height == r.height,
        r.picture.pixels@ == resized_pixels(img.pixels@, img.width, img.height, r.width, r.height),
{
    let (w, h) = thumbnail_dimensions(img.width, img.height, size);
    assert(4 * (img.width as int) * (h as int) <= usize::MAX) by (nonlinear_arith)
        requires
            4 * (img.width as int) * (size as int) <= usize::MAX,
            h <= size,
    ;
    assert(3 * (w as int) * (h as int) <= usize::MAX) by (nonlinear_arith)
        requires
            3 * (size as int) * (size as int) <= usize::MAX,
            h <= size,
            w <= size,
    ;
    let picture = resize(img, w, h);
    let file_name = thumbnail_file_name(source_name, w, h);
    Thumbnail { width: w, height: h, file_name, picture }
}

/// The first report for rendering `i` among `results`, each report being the
/// index of a rendering and the size it produced.
pub open spec fn first_report(results: Seq<(usize, u32, u32)>, i: int) -> Option<(u32, u32)>
    decreases results.len(),
{
    if results.len() == 0 {
        None
    } else if results[0].0 == i {
        Some((results[0].1, results[0].2))
    } else {
        first_report(results.drop_first(), i)
    }
}

/// The sizes of renderings `0..n`, in rendering order, from reports that may
/// come in any order. `None` where some rendering did not report, which marks
/// the image's regeneration as failed as a whole.
pub fn collect_sizes(n: usize, results: &Vec<(usize, u32, u32)>) -> (r: Option<Vec<(u32, u32)>>)
    ensures
        r is Some <==> forall|i: int| 0 <= i < n ==> #[trigger] first_report(results@, i) is Some,
        r matches Some(v) ==> v@.len() == n && forall|i: int|
            0 <= i < n ==> Some(#[trigger] v@[i]) == first_report(results@, i),
{
    let mut v: Vec<(u32, u32)> = Vec::new();
    let mut i: usize = 0;
    while i < n
        invariant
            i <= n,
            v@.len() == i,
            forall|k: int| 0 <= k < i ==> Some(#[trigger] v@[k]) == first_report(results@, k),
        decreases n - i,
    {
        let mut j: usize = 0;
        let mut found: Option<(u32, u32)> = None;
        assert(results@.skip(0) =~= results@);
        while j < results.len()
            invariant
                j <= results.len(),
                first_report(results@, i as int) == (match found {
                    Some(d) => Some(d),
                    None => first_report(results@.skip(j as int), i as int),
                }),
            decreases results.len() - j,
        {
            if found.is_none() {
                assert(results@.skip(j as int).drop_first() =~= results@.skip(j + 1));
                if results[j].0 == i {
                    found = Some((results[j].1, results[j].2));
                }
            }
            j = j + 1;
        }
        assert(results@.skip(j as int).len() == 0);
        match found {
            Some(d) => {
                v.push(d);
            },
            None => {
                return None;
            },
        }
        i = i + 1;
    }
    assert forall|k: int| 0 <= k < n implies #[trigger] first_report(results@, k) is Some by {
        assert(Some(v@[k]) == first_report(results@, k));
    }
    Some(v)
}

/// Orientation correctness. An image stored landscape with an orientation
/// that turns it a quarter turn is portrait once upright, and every thumbnail
/// made of it is at least as high as it is wide.
pub proof fn lemma_quarter_turn_gives_portrait(o: Orientation, w: u32, h: u32, size: u32)
    requires
        w > h,
        swaps_axes(o),
    ensures
        upright_dims(o, w, h).0 < upright_dims(o, w, h).1,
        thumbnail_size(upright_dims(o, w, h).0, upright_dims(o, w, h).1, size).0 <= thumbnail_size(
            upright_dims(o, w, h).0,
            upright_dims(o, w, h).1,
            size,
        ).1,
{
    lemma_scaled_edge_bounded(size as int, h as int, w as int);
}

} // verus!
