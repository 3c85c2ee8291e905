//! The metadata record of an image and the rules that build it from the tags
//! that the image's EXIF and XMP blocks advertise.
use vstd::prelude::*;
use crate::text::{contains_string, strings_view};

verus! {

/// The nine EXIF orientation values.
#[derive(Clone, Copy, Debug, PartialEq, Eq, Structural)]
pub enum Orientation {
    Unspecified,
    Normal,
    HorizontalFlip,
    Rotate180,
    VerticalFlip,
    Rotate90HorizontalFlip,
    Rotate90,
    Rotate90VerticalFlip,
    Rotate270,
}

/// An exact fraction, kept as numerator and denominator.
#[derive(Clone, Copy, Debug, PartialEq, Eq, Structural)]
pub struct Rational {
    pub numer: i32,
    pub denom: i32,
}

/// The digiKam pick label.
#[derive(Clone, Copy, Debug, PartialEq, Eq, Structural)]
pub enum DigikamPickLabel {
    Unset,
    Rejected,
    Pending,
    Accepted,
}

/// The digiKam color label.
#[derive(Clone, Copy, Debug, PartialEq, Eq, Structural)]
pub enum DigikamColorLabel {
    Unset,
    Red,
    Orange,
    Yellow,
    Green,
    Blue,
    Magenta,
    Gray,
    Black,
    White,
}

/// Tag that holds the aperture.
pub const FNUMBER_TAG: &'static str = "Exif.Photo.FNumber";

/// Tag that holds the lens model.
pub const LENS_MODEL_TAG: &'static str = "Exif.Photo.LensModel";

/// Tag that holds the camera model.
pub const CAMERA_MODEL_TAG: &'static str = "Exif.Image.Model";

/// Tag that holds the star rating.
pub const RATING_TAG: &'static str = "Xmp.xmp.Rating";

/// Tag that holds the free-text tags.
pub const TAGS_LIST_TAG: &'static str = "Xmp.digiKam.TagsList";

/// Tag that holds the pick label code.
pub const PICK_LABEL_TAG: &'static str = "Xmp.digiKam.PickLabel";

/// Tag that holds the color label code.
pub const COLOR_LABEL_TAG: &'static str = "Xmp.digiKam.ColorLabel";

/// The stable text of each orientation, as manifests hold it.
pub open spec fn orientation_name(o: Orientation) -> Seq<char> {
    match o {
        Orientation::Unspecified => "Unspecified"@,
        Orientation::Normal => "Normal"@,
        Orientation::HorizontalFlip => "HorizontalFlip"@,
        Orientation::Rotate180 => "Rotate180"@,
        Orientation::VerticalFlip => "VerticalFlip"@,
        Orientation::Rotate90HorizontalFlip => "Rotate90HorizontalFlip"@,
        Orientation::Rotate90 => "Rotate90"@,
        Orientation::Rotate90VerticalFlip => "Rotate90VerticalFlip"@,
        Orientation::Rotate270 => "Rotate270"@,
    }
}

/// The orientation whose text is `s`, if any.
pub open spec fn orientation_named(s: Seq<char>) -> Option<Orientation> {
    if s == "Unspecified"@ {
        Some(Orientation::Unspecified)
    } else if s == "Normal"@ {
        Some(Orientation::Normal)
    } else if s == "HorizontalFlip"@ {
        Some(Orientation::HorizontalFlip)
    } else if s == "Rotate180"@ {
        Some(Orientation::Rotate180)
    } else if s == "VerticalFlip"@ {
        Some(Orientation::VerticalFlip)
    } else if s == "Rotate90HorizontalFlip"@ {
        Some(Orientation::Rotate90HorizontalFlip)
    } else if s == "Rotate90"@ {
        Some(Orientation::Rotate90)
    } else if s == "Rotate90VerticalFlip"@ {
        Some(Orientation::Rotate90VerticalFlip)
    } else if s == "Rotate270"@ {
        Some(Orientation::Rotate270)
    } else {
        None
    }
}

/// The text under which an orientation is stored.
pub fn orientation_to_str(o: Orientation) -> (r: &'static str)
    ensures
        r@ == orientation_name(o),
{
    match o {
        Orientation::Unspecified => "Unspecified",
        Orientation::Normal => "Normal",
        Orientation::HorizontalFlip => "HorizontalFlip",
        Orientation::Rotate180 => "Rotate180",
        Orientation::VerticalFlip => "VerticalFlip",
        Orientation::Rotate90HorizontalFlip => "Rotate90HorizontalFlip",
        Orientation::Rotate90 => "Rotate90",
        Orientation::Rotate90VerticalFlip => "Rotate90VerticalFlip",
        Orientation::Rotate270 => "Rotate270",
    }
}

fn str_eq(a: &str, b: &str) -> (r: bool)
    ensures
        r == (a@ == b@),
{
    a.to_owned() == b.to_owned()
}

/// Reads an orientation back from its stored text; `None` for any other text.
pub fn orientation_from_str(s: &str) -> (r: Option<Orientation>)
    ensures
        r == orientation_named(s@),
{
    if str_eq(s, "Unspecified") {
        Some(Orientation::Unspecified)
    } else if str_eq(s, "Normal") {
        Some(Orientation::Normal)
    } else if str_eq(s, "HorizontalFlip") {
        Some(Orientation::HorizontalFlip)
    } else if str_eq(s, "Rotate180") {
        Some(Orientation::Rotate180)
    } else if str_eq(s, "VerticalFlip") {
        Some(Orientation::VerticalFlip)
    } else if str_eq(s, "Rotate90HorizontalFlip") {
        Some(Orientation::Rotate90HorizontalFlip)
    } else if str_eq(s, "Rotate90") {
        Some(Orientation::Rotate90)
    } else if str_eq(s, "Rotate90VerticalFlip") {
        Some(Orientation::Rotate90VerticalFlip)
    } else if str_eq(s, "Rotate270") {
        Some(Orientation::Rotate270)
    } else {
        None
    }
}

/// Every orientation reads back from its stored text as itself.
pub proof fn lemma_orientation_text_round_trip(o: Orientation)
    ensures
        orientation_named(orientation_name(o)) == Some(o),
{
    reveal_strlit("Unspecified");
    reveal_strlit("Normal");
    reveal_strlit("HorizontalFlip");
    reveal_strlit("Rotate180");
    reveal_strlit("VerticalFlip");
    reveal_strlit("Rotate90HorizontalFlip");
    reveal_strlit("Rotate90");
    reveal_strlit("Rotate90VerticalFlip");
    reveal_strlit("Rotate270");
    let s = orientation_name(o);
    assert(s.len() >= 6);
    if o != Orientation::Unspecified {
        assert(s != "Unspecified"@ ) by {
            assert(s[0] != 'U');
        }
    }
    if o != Orientation::Normal && o != Orientation::Unspecified {
        assert(s != "Normal"@) by {
            assert(s[0] != 'N');
        }
    }
    if o != Orientation::HorizontalFlip && o != Orientation::Unspecified && o
        != Orientation::Normal {
        assert(s != "HorizontalFlip"@) by {
            assert(s[0] != 'H');
        }
    }
    if o != Orientation::VerticalFlip {
        assert(s != "VerticalFlip"@) by {
            if s.len() == "VerticalFlip"@.len() {
                assert(s[0] != 'V');
            }
        }
    }
    if o != Orientation::Rotate180 {
        assert(s != "Rotate180"@) by {
            if s.len() == 9 {
                assert(s[6] != '1');
            }
        }
    }
    if o != Orientation::Rotate90HorizontalFlip {
        assert(s != "Rotate90HorizontalFlip"@) by {
            if s.len() == 22 {
                assert(s[8] != 'H');
            }
        }
    }
    if o != Orientation::Rotate90 {
        assert(s != "Rotate90"@) by {
            assert(s.len() != 8);
        }
    }
    if o != Orientation::Rotate90VerticalFlip {
        assert(s != "Rotate90VerticalFlip"@) by {
            assert(s.len() != 20);
        }
    }
}

/// Numeric value of a run of ASCII digits, most significant first.
pub open spec fn digits_value(s: Seq<char>) -> int
    decreases s.len(),
{
    if s.len() == 0 {
        0
    } else {
        10 * digits_value(s.drop_last()) + (s.last() as int - '0' as int)
    }
}

pub open spec fn is_digit(c: char) -> bool {
    '0' <= c && c <= '9'
}

pub open spec fn all_digits(s: Seq<char>) -> bool {
    forall|i: int| 0 <= i < s.len() ==> is_digit(#[trigger] s[i])
}

/// The decimal integer that `s` writes: an optional `+` or `-`, then one or
/// more ASCII digits, with a value that fits an `i32`. `None` for anything else.
pub open spec fn parsed_i32(s: Seq<char>) -> Option<i32> {
    let neg = s.len() > 0 && s[0] == '-';
    let signed = s.len() > 0 && (s[0] == '-' || s[0] == '+');
    let body = if signed {
        s.drop_first()
    } else {
        s
    };
    let v = if neg {
        -digits_value(body)
    } else {
        digits_value(body)
    };
    if body.len() > 0 && all_digits(body) && i32::MIN <= v <= i32::MAX {
        Some(v as i32)
    } else {
        None
    }
}

proof fn lemma_digits_value_grows(s: Seq<char>, n: int)
    requires
        0 <= n <= s.len(),
        all_digits(s),
    ensures
        0 <= digits_value(s.subrange(0, n)) <= digits_value(s),
    decreases s.len() - n,
{
    if n < s.len() {
        lemma_digits_value_grows(s, n + 1);
        let t = s.subrange(0, n + 1);
        assert(t.drop_last() =~= s.subrange(0, n));
        assert(is_digit(s[n]));
    } else {
        assert(s.subrange(0, n) =~= s);
        lemma_digits_value_nonneg(s);
    }
}

proof fn lemma_digits_value_nonneg(s: Seq<char>)
    requires
        all_digits(s),
    ensures
        digits_value(s) >= 0,
    decreases s.len(),
{
    if s.len() > 0 {
        assert(is_digit(s[s.len() - 1]));
        lemma_digits_value_nonneg(s.drop_last());
    }
}

/// Reads a decimal `i32` as `str::parse` does: an optional sign, then digits.
pub fn parse_i32(s: &str) -> (r: Option<i32>)
    ensures
        r == parsed_i32(s@),
{
    let n = s.unicode_len();
    if n == 0 {
        return None;
    }
    let first = s.get_char(0);
    let neg = first == '-';
    let start: usize = if first == '-' || first == '+' {
        1
    } else {
        0
    };
    if start == n {
        return None;
    }
    let ghost body = s@.subrange(start as int, n as int);
    assert(body =~= if start == 1 {
        s@.drop_first()
    } else {
        s@
    });
    let limit: i64 = if neg {
        2147483648
    } else {
        2147483647
    };
    let mut v: i64 = 0;
    let mut i: usize = start;
    while i < n
        invariant
            n == s@.len(),
            start <= i <= n,
            body == s@.subrange(start as int, n as int),
            s@.len() > 0,
            neg == (s@[0] == '-'),
            (start == 1) == (s@[0] == '-' || s@[0] == '+'),
            start == 0 || start == 1,
            body == (if start == 1 {
                s@.drop_first()
            } else {
                s@
            }),
            all_digits(s@.subrange(start as int, i as int)),
            v == digits_value(s@.subrange(start as int, i as int)),
            0 <= v <= limit,
            limit == (if neg {
                2147483648i64
            } else {
                2147483647i64
            }),
        decreases n - i,
    {
        let c = s.get_char(i);
        let ghost pre = s@.subrange(start as int, i as int);
        let ghost next = s@.subrange(start as int, i + 1);
        assert(next.drop_last() =~= pre);
        if !('0' <= c && c <= '9') {
            assert(!is_digit(body[i - start]));
            return None;
        }
        let d = (c as u32 - '0' as u32) as i64;
        assert(all_digits(next));
        if v > (limit - d) / 10 {
            proof {
                assert(digits_value(next) == 10 * v + d);
                assert(10 * v + d > limit) by (nonlinear_arith)
                    requires
                        v > (limit - d) / 10,
                        0 <= d <= 9,
                        limit > 0,
                ;
                let k = i - start + 1;
                if all_digits(body) {
                    assert(body.subrange(0, k) =~= next);
                    lemma_digits_value_grows(body, k);
                }
            }
            return None;
        }
        assert(10 * v + d <= limit) by (nonlinear_arith)
            requires
                v <= (limit - d) / 10,
                0 <= d <= 9,
                limit > 0,
                v >= 0,
        ;
        v = 10 * v + d;
        i = i + 1;
    }
    assert(s@.subrange(start as int, i as int) =~= body);
    if neg {
        Some((-v) as i32)
    } else {
        Some(v as i32)
    }
}

/// The pick label that a code denotes.
pub open spec fn pick_label_of(code: i32) -> Option<DigikamPickLabel> {
    if code == 0 {
        Some(DigikamPickLabel::Unset)
    } else if code == 1 {
        Some(DigikamPickLabel::Rejected)
    } else if code == 2 {
        Some(DigikamPickLabel::Pending)
    } else if code == 3 {
        Some(DigikamPickLabel::Accepted)
    } else {
        None
    }
}

/// The color label that a code denotes.
pub open spec fn color_label_of(code: i32) -> Option<DigikamColorLabel> {
    if code == 0 {
        Some(DigikamColorLabel::Unset)
    } else if code == 1 {
        Some(DigikamColorLabel::Red)
    } else if code == 2 {
        Some(DigikamColorLabel::Orange)
    } else if code == 3 {
        Some(DigikamColorLabel::Yellow)
    } else if code == 4 {
        Some(DigikamColorLabel::Green)
    } else if code == 5 {
        Some(DigikamColorLabel::Blue)
    } else if code == 6 {
        Some(DigikamColorLabel::Magenta)
    } else if code == 7 {
        Some(DigikamColorLabel::Gray)
    } else if code == 8 {
        Some(DigikamColorLabel::Black)
    } else if code == 9 {
        Some(DigikamColorLabel::White)
    } else {
        None
    }
}

/// Decodes a pick label code; codes outside the known range give `None`.
pub fn pick_label_from_code(code: i32) -> (r: Option<DigikamPickLabel>)
    ensures
        r == pick_label_of(code),
{
    match code {
        0 => Some(DigikamPickLabel::Unset),
        1 => Some(DigikamPickLabel::Rejected),
        2 => Some(DigikamPickLabel::Pending),
        3 => Some(DigikamPickLabel::Accepted),
        _ => None,
    }
}

/// Decodes a color label code; codes outside the known range give `None`.
pub fn color_label_from_code(code: i32) -> (r: Option<DigikamColorLabel>)
    ensures
        r == color_label_of(code),
{
    match code {
        0 => Some(DigikamColorLabel::Unset),
        1 => Some(DigikamColorLabel::Red),
        2 => Some(DigikamColorLabel::Orange),
        3 => Some(DigikamColorLabel::Yellow),
        4 => Some(DigikamColorLabel::Green),
        5 => Some(DigikamColorLabel::Blue),
        6 => Some(DigikamColorLabel::Magenta),
        7 => Some(DigikamColorLabel::Gray),
        8 => Some(DigikamColorLabel::Black),
        9 => Some(DigikamColorLabel::White),
        _ => None,
    }
}

/// What an image's EXIF and XMP blocks yield, as read from the file: the tag
/// names that each block advertises, and the value that reading each tag of
/// interest gave (`None` where the read failed).
pub struct ExifTags {
    pub exif_tags: Vec<String>,
    pub xmp_tags: Vec<String>,
    pub orientation: Orientation,
    pub exposure_time: Option<Rational>,
    pub iso_speed: Option<i32>,
    pub fnumber: Option<Rational>,
    pub lens_model: Option<String>,
    pub camera_model: Option<String>,
    pub rating: Option<String>,
    pub tags_list: Option<Vec<String>>,
    pub pick_label: Option<String>,
    pub color_label: Option<String>,
}

/// The metadata record kept for each image. Every field but the size may be absent.
pub struct Metadata {
    pub size: (u32, u32),
    pub orientation: Orientation,
    pub exposure_time: Option<Rational>,
    pub iso_speed: Option<i32>,
    pub fnumber: Option<Rational>,
    pub lens_model: Option<String>,
    pub camera_model: Option<String>,
    pub rating: Option<i32>,
    pub tags: Vec<String>,
    pub digikam_pick_label: Option<DigikamPickLabel>,
    pub digikam_color_label: Option<DigikamColorLabel>,
}

pub struct MetadataView {
    pub size: (u32, u32),
    pub orientation: Orientation,
    pub exposure_time: Option<Rational>,
    pub iso_speed: Option<i32>,
    pub fnumber: Option<Rational>,
    pub lens_model: Option<Seq<char>>,
    pub camera_model: Option<Seq<char>>,
    pub rating: Option<i32>,
    pub tags: Seq<Seq<char>>,
    pub digikam_pick_label: Option<DigikamPickLabel>,
    pub digikam_color_label: Option<DigikamColorLabel>,
}

pub open spec fn opt_string_view(s: Option<String>) -> Option<Seq<char>> {
    match s {
        Some(t) => Some(t@),
        None => None,
    }
}

impl View for Metadata {
    type V = MetadataView;

    open spec fn view(&self) -> MetadataView {
        MetadataView {
            size: self.size,
            orientation: self.orientation,
            exposure_time: self.exposure_time,
            iso_speed: self.iso_speed,
            fnumber: self.fnumber,
            lens_model: opt_string_view(self.lens_model),
            camera_model: opt_string_view(self.camera_model),
            rating: self.rating,
            tags: strings_view(self.tags@),
            digikam_pick_label: self.digikam_pick_label,
            digikam_color_label: self.digikam_color_label,
        }
    }
}

/// `name` is among the advertised tag names.
pub open spec fn advertised(tags: Seq<String>, name: Seq<char>) -> bool {
    strings_view(tags).contains(name)
}

/// A tag's value, kept only where the block advertises the tag.
pub open spec fn guarded<T>(tags: Seq<String>, name: Seq<char>, value: Option<T>) -> Option<T> {
    if advertised(tags, name) {
        value
    } else {
        None
    }
}

/// A label code read from text, then decoded by `decode`.
pub open spec fn parsed_code<T>(text: Option<String>, decode: spec_fn(i32) -> Option<T>) -> Option<
    T,
> {
    match text {
        Some(t) => match parsed_i32(t@) {
            Some(code) => decode(code),
            None => None,
        },
        None => None,
    }
}

/// The record built from an image's pixel size and its metadata blocks, if any
/// could be read. Each field is taken independently: a field whose tag the
/// block does not advertise, or whose value did not read or parse, is absent.
pub open spec fn metadata_of(size: (u32, u32), exif: Option<ExifTags>) -> MetadataView {
    match exif {
        None => MetadataView {
            size: size,
            orientation: Orientation::Unspecified,
            exposure_time: None,
            iso_speed: None,
            fnumber: None,
            lens_model: None,
            camera_model: None,
            rating: None,
            tags: Seq::empty(),
            digikam_pick_label: None,
            digikam_color_label: None,
        },
        Some(e) => MetadataView {
            size: size,
            orientation: e.orientation,
            exposure_time: e.exposure_time,
            iso_speed: e.iso_speed,
            fnumber: guarded(e.exif_tags@, FNUMBER_TAG@, e.fnumber),
            lens_model: guarded(e.exif_tags@, LENS_MODEL_TAG@, opt_string_view(e.lens_model)),
            camera_model: guarded(e.exif_tags@, CAMERA_MODEL_TAG@, opt_string_view(e.camera_model)),
            rating: parsed_code(
                guarded(e.xmp_tags@, RATING_TAG@, e.rating),
                |c: i32| Some(c),
            ),
            tags: match guarded(e.xmp_tags@, TAGS_LIST_TAG@, e.tags_list) {
                Some(t) => strings_view(t@),
                None => Seq::empty(),
            },
            digikam_pick_label: parsed_code(
                guarded(e.xmp_tags@, PICK_LABEL_TAG@, e.pick_label),
                |c: i32| pick_label_of(c),
            ),
            digikam_color_label: parsed_code(
                guarded(e.xmp_tags@, COLOR_LABEL_TAG@, e.color_label),
                |c: i32| color_label_of(c),
            ),
        },
    }
}

/// Whether `name` is among the advertised tag names.
pub fn has_tag(tags: &Vec<String>, name: &str) -> (r: bool)
    ensures
        r == advertised(tags@, name@),
{
    contains_string(tags, name)
}

fn guard_string(tags: &Vec<String>, name: &str, value: Option<String>) -> (r: Option<String>)
    ensures
        opt_string_view(r) == guarded(tags@, name@, opt_string_view(value)),
        r is Some ==> r == value,
{
    if has_tag(tags, name) {
        value
    } else {
        None
    }
}

fn parse_code(text: Option<String>) -> (r: Option<i32>)
    ensures
        r == parsed_code(text, |c: i32| Some(c)),
{
    match text {
        Some(t) => parse_i32(t.as_str()),
        None => None,
    }
}

impl Metadata {
    /// Builds the record of an image from its pixel size and what its metadata
    /// blocks yielded (`None` where the blocks could not be read at all).
    pub fn from(size: (u32, u32), exif: Option<ExifTags>) -> (r: Metadata)
        ensures
            r@ == metadata_of(size, exif),
    {
        match exif {
            None => {
                let r = Metadata {
                    size: size,
                    orientation: Orientation::Unspecified,
                    exposure_time: None,
                    iso_speed: None,
                    fnumber: None,
                    lens_model: None,
                    camera_model: None,
                    rating: None,
                    tags: Vec::new(),
                    digikam_pick_label: None,
                    digikam_color_label: None,
                };
                assert(r@.tags =~= Seq::<Seq<char>>::empty());
                r
            },
            Some(e) => {
                let ghost g = e;
                let fnumber = if has_tag(&e.exif_tags, FNUMBER_TAG) {
                    e.fnumber
                } else {
                    None
                };
                let lens_model = guard_string(&e.exif_tags, LENS_MODEL_TAG, e.lens_model);
                let camera_model = guard_string(&e.exif_tags, CAMERA_MODEL_TAG, e.camera_model);
                let rating = parse_code(guard_string(&e.xmp_tags, RATING_TAG, e.rating));
                let tags = if has_tag(&e.xmp_tags, TAGS_LIST_TAG) {
                    match e.tags_list {
                        Some(t) => t,
                        None => Vec::new(),
                    }
                } else {
                    Vec::new()
                };
                let pick = match parse_code(guard_string(&e.xmp_tags, PICK_LABEL_TAG, e.pick_label)) {
                    Some(c) => pick_label_from_code(c),
                    None => None,
                };
                let color = match parse_code(guard_string(&e.xmp_tags, COLOR_LABEL_TAG, e.color_label)) {
                    Some(c) => color_label_from_code(c),
                    None => None,
                };
                let r = Metadata {
                    size: size,
                    orientation: e.orientation,
                    exposure_time: e.exposure_time,
                    iso_speed: e.iso_speed,
                    fnumber: fnumber,
                    lens_model: lens_model,
                    camera_model: camera_model,
                    rating: rating,
                    tags: tags,
                    digikam_pick_label: pick,
                    digikam_color_label: color,
                };
                assert(r@.tags =~= metadata_of(size, Some(g)).tags);
                r
            },
        }
    }
}

} // verus!
