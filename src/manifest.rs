//! The per-directory manifest: its entries, the staleness rule, and how a run
//! merges regenerated entries with those carried over from the last run.
use vstd::prelude::*;
use crate::metadata::{Metadata, MetadataView, opt_string_view};
use crate::text::{copy_strings, strings_view};

verus! {

/// A modification time: whole seconds since the Unix epoch, and nanoseconds
/// within that second.
#[derive(Clone, Copy, Debug, PartialEq, Eq, Structural)]
pub struct Timestamp {
    pub secs: i64,
    pub nanos: u32,
}

/// `a` is strictly before `b`.
pub open spec fn earlier(a: Timestamp, b: Timestamp) -> bool {
    a.secs < b.secs || (a.secs == b.secs && a.nanos < b.nanos)
}

/// Whether `a` is strictly before `b`.
pub fn is_earlier(a: Timestamp, b: Timestamp) -> (r: bool)
    ensures
        r == earlier(a, b),
{
    a.secs < b.secs || (a.secs == b.secs && a.nanos < b.nanos)
}

/// What the manifest records of one image.
pub struct FileInfo {
    /// The image's path relative to the collection root.
    pub filename: String,
    /// Hex SHA-1 of the image's bytes when it was last processed.
    pub sha1sum: String,
    pub modified_time: Timestamp,
    pub metadata: Metadata,
    /// The size of each thumbnail, in the order of the configured sizes.
    pub thumbnail_sizes: Vec<(u32, u32)>,
}

pub struct FileInfoView {
    pub filename: Seq<char>,
    pub sha1sum: Seq<char>,
    pub modified_time: Timestamp,
    pub metadata: MetadataView,
    pub thumbnail_sizes: Seq<(u32, u32)>,
}

impl View for FileInfo {
    type V = FileInfoView;

    open spec fn view(&self) -> FileInfoView {
        FileInfoView {
            filename: self.filename@,
            sha1sum: self.sha1sum@,
            modified_time: self.modified_time,
            metadata: self.metadata@,
            thumbnail_sizes: self.thumbnail_sizes@,
        }
    }
}

/// The entries of a manifest, each by its view.
pub open spec fn infos_view(m: Seq<FileInfo>) -> Seq<FileInfoView> {
    m.map_values(|e: FileInfo| e@)
}

pub open spec fn opt_info_view(e: Option<FileInfo>) -> Option<FileInfoView> {
    match e {
        Some(i) => Some(i@),
        None => None,
    }
}

fn copy_sizes(v: &Vec<(u32, u32)>) -> (r: Vec<(u32, u32)>)
    ensures
        r@ == v@,
{
    let mut r: Vec<(u32, u32)> = Vec::new();
    let mut i: usize = 0;
    while i < v.len()
        invariant
            i <= v.len(),
            r@ == v@.subrange(0, i as int),
        decreases v.len() - i,
    {
        r.push(v[i]);
        assert(r@ =~= v@.subrange(0, i + 1));
        i = i + 1;
    }
    assert(v@.subrange(0, i as int) =~= v@);
    r
}

fn copy_opt_string(s: &Option<String>) -> (r: Option<String>)
    ensures
        opt_string_view(r) == opt_string_view(*s),
{
    match s {
        Some(t) => Some(t.clone()),
        None => None,
    }
}

impl Metadata {
    /// A copy of the record.
    pub fn duplicate(&self) -> (r: Metadata)
        ensures
            r@ == self@,
    {
        Metadata {
            size: self.size,
            orientation: self.orientation,
            exposure_time: self.exposure_time,
            iso_speed: self.iso_speed,
            fnumber: self.fnumber,
            lens_model: copy_opt_string(&self.lens_model),
            camera_model: copy_opt_string(&self.camera_model),
            rating: self.rating,
            tags: copy_strings(&self.tags),
            digikam_pick_label: self.digikam_pick_label,
            digikam_color_label: self.digikam_color_label,
        }
    }
}

impl FileInfo {
    /// A copy of the entry.
    pub fn duplicate(&self) -> (r: FileInfo)
        ensures
            r@ == self@,
    {
        FileInfo {
            filename: self.filename.clone(),
            sha1sum: self.sha1sum.clone(),
            modified_time: self.modified_time,
            metadata: self.metadata.duplicate(),
            thumbnail_sizes: copy_sizes(&self.thumbnail_sizes),
        }
    }
}

/// The hex SHA-1 digest of a byte string, as the `sha1` crate writes it.
pub uninterp spec fn sha1_hex(bytes: Seq<u8>) -> Seq<char>;

/// Relies on `sha1::Sha1` (`update`, then `digest`, written out by its
/// `Display`): the digest of the bytes, as five words of eight lowercase hex digits.
#[verifier::external_body]
fn sha1_hexdigest(bytes: &Vec<u8>) -> (r: String)
    ensures
        r@ == sha1_hex(bytes@),
        r@.len() == 40,
{
    let mut m = sha1::Sha1::new();
    m.update(bytes.as_slice());
    m.digest().to_string()
}

/// The content fingerprint recorded for an image: the hex SHA-1 of its bytes.
pub fn file_sha1(contents: &Vec<u8>) -> (r: String)
    ensures
        r@ == sha1_hex(contents@),
        r@.len() == 40,
{
    sha1_hexdigest(contents)
}

/// An image file found in a directory: its path relative to the collection
/// root, and its current modification time.
pub struct ImageFile {
    pub relpath: String,
    pub mtime: Timestamp,
}

/// The first entry recorded under `name`.
pub open spec fn lookup(m: Seq<FileInfoView>, name: Seq<char>) -> Option<FileInfoView>
    decreases m.len(),
{
    if m.len() == 0 {
        None
    } else if m[0].filename == name {
        Some(m[0])
    } else {
        lookup(m.drop_first(), name)
    }
}

/// An image must be regenerated when nothing is recorded for it, or when the
/// recorded modification time is strictly before the current one.
pub open spec fn is_stale(prior: Option<FileInfoView>, mtime: Timestamp) -> bool {
    match prior {
        None => true,
        Some(e) => earlier(e.modified_time, mtime),
    }
}

/// The entry the new manifest holds for an image: the regenerated one where
/// the image was stale and its regeneration succeeded, else the prior one,
/// if any.
pub open spec fn resolve(
    prev: Seq<FileInfoView>,
    img: ImageFile,
    fresh: Option<FileInfoView>,
) -> Option<FileInfoView> {
    let prior = lookup(prev, img.relpath@);
    if is_stale(prior, img.mtime) && fresh is Some {
        fresh
    } else {
        prior
    }
}

/// The entries for the images found, in their order; an image with neither a
/// regenerated nor a prior entry has none.
pub open spec fn current_entries(
    prev: Seq<FileInfoView>,
    images: Seq<ImageFile>,
    fresh: Seq<Option<FileInfoView>>,
) -> Seq<FileInfoView>
    decreases images.len(),
{
    if images.len() == 0 {
        Seq::empty()
    } else {
        let k = images.len() - 1;
        let rest = current_entries(prev, images.drop_last(), fresh.take(k));
        match resolve(prev, images[k], fresh[k]) {
            Some(e) => rest.push(e),
            None => rest,
        }
    }
}

/// The relative paths of the images found.
pub open spec fn image_names(images: Seq<ImageFile>) -> Seq<Seq<char>> {
    images.map_values(|i: ImageFile| i.relpath@)
}

/// The prior entries for files that were not found this time, in their order:
/// the manifest never drops an entry because its source has gone.
pub open spec fn retained(prev: Seq<FileInfoView>, names: Seq<Seq<char>>) -> Seq<FileInfoView>
    decreases prev.len(),
{
    if prev.len() == 0 {
        Seq::empty()
    } else {
        let rest = retained(prev.drop_last(), names);
        if names.contains(prev.last().filename) {
            rest
        } else {
            rest.push(prev.last())
        }
    }
}

/// The manifest that a run writes for a directory, from the one it read, the
/// images found, and the regenerated entry (if regeneration succeeded) of each
/// image that was stale.
pub open spec fn manifest_after(
    prev: Seq<FileInfoView>,
    images: Seq<ImageFile>,
    fresh: Seq<Option<FileInfoView>>,
) -> Seq<FileInfoView> {
    current_entries(prev, images, fresh) + retained(prev, image_names(images))
}

/// The index of the first entry recorded under `name`, if any.
pub fn find_entry(m: &Vec<FileInfo>, name: &String) -> (r: Option<usize>)
    ensures
        r is None <==> lookup(infos_view(m@), name@) is None,
        r matches Some(k) ==> k < m@.len() && lookup(infos_view(m@), name@) == Some(m@[k as int]@),
{
    let ghost mv = infos_view(m@);
    let mut i: usize = 0;
    assert(mv.skip(0) =~= mv);
    while i < m.len()
        invariant
            i <= m.len(),
            mv == infos_view(m@),
            lookup(mv, name@) == lookup(mv.skip(i as int), name@),
        decreases m.len() - i,
    {
        assert(mv.skip(i as int).drop_first() =~= mv.skip(i + 1));
        if m[i].filename == *name {
            return Some(i);
        }
        i = i + 1;
    }
    None
}

/// Whether the image must be regenerated against the manifest `prev`.
pub fn needs_regeneration(prev: &Vec<FileInfo>, img: &ImageFile) -> (r: bool)
    ensures
        r == is_stale(lookup(infos_view(prev@), img.relpath@), img.mtime),
{
    match find_entry(prev, &img.relpath) {
        None => true,
        Some(k) => is_earlier(prev[k].modified_time, img.mtime),
    }
}

fn copy_opt_info(e: &Option<FileInfo>) -> (r: Option<FileInfo>)
    ensures
        opt_info_view(r) == opt_info_view(*e),
{
    match e {
        Some(i) => Some(i.duplicate()),
        None => None,
    }
}

/// The entry the new manifest holds for `img`.
pub fn resolve_entry(prev: &Vec<FileInfo>, img: &ImageFile, fresh: &Option<FileInfo>) -> (r: Option<
    FileInfo,
>)
    ensures
        opt_info_view(r) == resolve(infos_view(prev@), *img, opt_info_view(*fresh)),
{
    let found = find_entry(prev, &img.relpath);
    let stale = match found {
        None => true,
        Some(k) => is_earlier(prev[k].modified_time, img.mtime),
    };
    if stale && fresh.is_some() {
        copy_opt_info(fresh)
    } else {
        match found {
            None => None,
            Some(k) => Some(prev[k].duplicate()),
        }
    }
}

fn names_contain(images: &Vec<ImageFile>, name: &String) -> (r: bool)
    ensures
        r == image_names(images@).contains(name@),
{
    let mut i: usize = 0;
    while i < images.len()
        invariant
            i <= images.len(),
            forall|j: int| 0 <= j < i ==> images@[j].relpath@ != name@,
        decreases images.len() - i,
    {
        if images[i].relpath == *name {
            assert(image_names(images@)[i as int] == name@);
            return true;
        }
        i = i + 1;
    }
    assert(!image_names(images@).contains(name@)) by {
        if image_names(images@).contains(name@) {
            let k = choose|k: int|
                0 <= k < image_names(images@).len() && image_names(images@)[k] == name@;
            assert(images@[k].relpath@ == name@);
        }
    }
    false
}

/// Merges a directory's manifest: for each image found, in order, its
/// regenerated entry where it was stale and `fresh` holds one, else its prior
/// entry if any; then every prior entry whose image was not found.
pub fn next_manifest(
    prev: &Vec<FileInfo>,
    images: &Vec<ImageFile>,
    fresh: &Vec<Option<FileInfo>>,
) -> (r: Vec<FileInfo>)
    requires
        fresh.len() == images.len(),
    ensures
        infos_view(r@) == manifest_after(
            infos_view(prev@),
            images@,
            fresh@.map_values(|e: Option<FileInfo>| opt_info_view(e)),
        ),
{
    let ghost pv = infos_view(prev@);
    let ghost fv = fresh@.map_values(|e: Option<FileInfo>| opt_info_view(e));
    let mut r: Vec<FileInfo> = Vec::new();
    let mut i: usize = 0;
    while i < images.len()
        invariant
            i <= images.len(),
            fresh.len() == images.len(),
            pv == infos_view(prev@),
            fv == fresh@.map_values(|e: Option<FileInfo>| opt_info_view(e)),
            infos_view(r@) == current_entries(pv, images@.take(i as int), fv.take(i as int)),
        decreases images.len() - i,
    {
        let e = resolve_entry(prev, &images[i], &fresh[i]);
        proof {
            let imgs = images@.take(i + 1);
            assert(imgs.drop_last() =~= images@.take(i as int));
            assert(fv.take(i + 1).take(i as int) =~= fv.take(i as int));
            assert(fv.take(i + 1)[i as int] == opt_info_view(fresh@[i as int]));
        }
        match e {
            Some(x) => {
                let ghost before = r@;
                r.push(x);
                assert(infos_view(r@) =~= infos_view(before).push(x@));
            },
            None => {},
        }
        i = i + 1;
    }
    assert(images@.take(i as int) =~= images@);
    assert(fv.take(i as int) =~= fv);
    let ghost cur = infos_view(r@);
    let ghost names = image_names(images@);
    let mut k: usize = 0;
    while k < prev.len()
        invariant
            k <= prev.len(),
            pv == infos_view(prev@),
            names == image_names(images@),
            infos_view(r@) == cur + retained(pv.take(k as int), names),
        decreases prev.len() - k,
    {
        proof {
            assert(pv.take(k + 1).drop_last() =~= pv.take(k as int));
        }
        if !names_contain(images, &prev[k].filename) {
            let ghost before = r@;
            r.push(prev[k].duplicate());
            assert(infos_view(r@) =~= infos_view(before).push(prev@[k as int]@));
            assert(infos_view(r@) =~= cur + retained(pv.take(k + 1), names));
        } else {
            assert(retained(pv.take(k + 1), names) == retained(pv.take(k as int), names));
        }
        k = k + 1;
    }
    assert(pv.take(k as int) =~= pv);
    r
}

/// The images have pairwise different paths, as the files of one directory do.
pub open spec fn distinct_paths(images: Seq<ImageFile>) -> bool {
    forall|i: int, j: int|
        0 <= i < j < images.len() ==> #[trigger] images[i].relpath@ != #[trigger] images[j].relpath@
}

/// Every regenerated entry is recorded under the path of its image.
pub open spec fn fresh_named(images: Seq<ImageFile>, fresh: Seq<Option<FileInfoView>>) -> bool {
    forall|i: int|
        0 <= i < images.len() && #[trigger] fresh[i] is Some ==> fresh[i]->0.filename
            == images[i].relpath@
}

/// Every image that was stale was regenerated, and its entry records the
/// modification time it was found with.
pub open spec fn all_regenerated(
    prev: Seq<FileInfoView>,
    images: Seq<ImageFile>,
    fresh: Seq<Option<FileInfoView>>,
) -> bool {
    forall|i: int|
        0 <= i < images.len() && is_stale(lookup(prev, images[i].relpath@), images[i].mtime)
            ==> #[trigger] fresh[i] is Some && fresh[i]->0.modified_time == images[i].mtime
}

proof fn lemma_lookup_name(m: Seq<FileInfoView>, name: Seq<char>)
    ensures
        lookup(m, name) matches Some(e) ==> e.filename == name,
    decreases m.len(),
{
    if m.len() > 0 && m[0].filename != name {
        lemma_lookup_name(m.drop_first(), name);
    }
}

proof fn lemma_lookup_absent(m: Seq<FileInfoView>, name: Seq<char>)
    requires
        forall|j: int| 0 <= j < m.len() ==> (#[trigger] m[j]).filename != name,
    ensures
        lookup(m, name) is None,
    decreases m.len(),
{
    if m.len() > 0 {
        assert(m[0].filename != name);
        assert forall|j: int| 0 <= j < m.drop_first().len() implies (
        #[trigger] m.drop_first()[j]).filename != name by {
            assert(m.drop_first()[j] == m[j + 1]);
        }
        lemma_lookup_absent(m.drop_first(), name);
    }
}

proof fn lemma_lookup_append(a: Seq<FileInfoView>, b: Seq<FileInfoView>, name: Seq<char>)
    ensures
        lookup(a + b, name) == (if lookup(a, name) is Some {
            lookup(a, name)
        } else {
            lookup(b, name)
        }),
    decreases a.len(),
{
    if a.len() == 0 {
        assert(a + b =~= b);
    } else {
        assert((a + b).drop_first() =~= a.drop_first() + b);
        lemma_lookup_append(a.drop_first(), b, name);
    }
}

/// Every entry of `current_entries` over the first `images.len()` images
/// names one of them.
proof fn lemma_current_names(
    prev: Seq<FileInfoView>,
    images: Seq<ImageFile>,
    fresh: Seq<Option<FileInfoView>>,
)
    requires
        fresh.len() == images.len(),
        fresh_named(images, fresh),
    ensures
        forall|j: int|
            0 <= j < current_entries(prev, images, fresh).len() ==> exists|i: int|
                0 <= i < images.len() && (#[trigger] current_entries(prev, images, fresh)[j]).filename
                    == images[i].relpath@,
    decreases images.len(),
{
    if images.len() > 0 {
        let k = images.len() - 1;
        let pre = images.drop_last();
        let fpre = fresh.take(k);
        assert forall|i: int| 0 <= i < pre.len() && #[trigger] fpre[i] is Some implies fpre[i]->0.filename
            == pre[i].relpath@ by {
            assert(fresh[i] == fpre[i]);
        }
        lemma_current_names(prev, pre, fpre);
        let rest = current_entries(prev, pre, fpre);
        let cur = current_entries(prev, images, fresh);
        lemma_lookup_name(prev, images[k].relpath@);
        assert forall|j: int| 0 <= j < cur.len() implies exists|i: int|
            0 <= i < images.len() && (#[trigger] cur[j]).filename == images[i].relpath@ by {
            if j < rest.len() {
                assert(cur[j] == rest[j]);
                let i0 = choose|i: int| 0 <= i < pre.len() && rest[j].filename == pre[i].relpath@;
                assert(pre[i0] == images[i0]);
            } else {
                assert(cur[j].filename == images[k].relpath@);
            }
        }
    }
}

/// Looking up an image's path in the entries for the images found gives the
/// entry resolved for that image.
proof fn lemma_lookup_current(
    prev: Seq<FileInfoView>,
    images: Seq<ImageFile>,
    fresh: Seq<Option<FileInfoView>>,
    i: int,
)
    requires
        fresh.len() == images.len(),
        0 <= i < images.len(),
        distinct_paths(images),
        fresh_named(images, fresh),
    ensures
        lookup(current_entries(prev, images, fresh), images[i].relpath@) == resolve(
            prev,
            images[i],
            fresh[i],
        ),
    decreases images.len(),
{
    let k = images.len() - 1;
    let pre = images.drop_last();
    let fpre = fresh.take(k);
    let rest = current_entries(prev, pre, fpre);
    let name = images[i].relpath@;
    assert forall|a: int, b: int| 0 <= a < b < pre.len() implies #[trigger] pre[a].relpath@
        != #[trigger] pre[b].relpath@ by {
        assert(pre[a] == images[a] && pre[b] == images[b]);
    }
    assert forall|a: int| 0 <= a < pre.len() && #[trigger] fpre[a] is Some implies fpre[a]->0.filename
        == pre[a].relpath@ by {
        assert(fresh[a] == fpre[a]);
    }
    lemma_lookup_name(prev, images[k].relpath@);
    let last = resolve(prev, images[k], fresh[k]);
    assert(last matches Some(x) ==> x.filename == images[k].relpath@);
    if i < k {
        lemma_lookup_current(prev, pre, fpre, i);
        assert(pre[i] == images[i] && fpre[i] == fresh[i]);
        assert(images[i].relpath@ != images[k].relpath@);
        match last {
            Some(x) => {
                lemma_lookup_append(rest, seq![x], name);
                assert(rest.push(x) =~= rest + seq![x]);
                assert(seq![x].drop_first() =~= Seq::<FileInfoView>::empty());
                assert(x.filename != name);
                assert(lookup(seq![x], name) == lookup(Seq::<FileInfoView>::empty(), name));
                assert(current_entries(prev, images, fresh) == rest.push(x));
            },
            None => {
                assert(current_entries(prev, images, fresh) == rest);
            },
        }
    } else {
        lemma_current_names(prev, pre, fpre);
        assert forall|j: int| 0 <= j < rest.len() implies (#[trigger] rest[j]).filename != name by {
            let a = choose|a: int| 0 <= a < pre.len() && rest[j].filename == pre[a].relpath@;
            assert(pre[a] == images[a]);
        }
        lemma_lookup_absent(rest, name);
        match last {
            Some(x) => {
                lemma_lookup_append(rest, seq![x], name);
                assert(rest.push(x) =~= rest + seq![x]);
            },
            None => {},
        }
    }
}

/// Where every image resolves to an entry, the entries for the images found
/// are those, one per image, in order.
proof fn lemma_current_all_resolved(
    prev: Seq<FileInfoView>,
    images: Seq<ImageFile>,
    fresh: Seq<Option<FileInfoView>>,
)
    requires
        fresh.len() == images.len(),
        forall|i: int| 0 <= i < images.len() ==> #[trigger] resolve(prev, images[i], fresh[i]) is Some,
    ensures
        current_entries(prev, images, fresh) == Seq::new(
            images.len(),
            |i: int| resolve(prev, images[i], fresh[i])->0,
        ),
    decreases images.len(),
{
    let want = Seq::new(images.len(), |i: int| resolve(prev, images[i], fresh[i])->0);
    if images.len() == 0 {
        assert(want =~= Seq::<FileInfoView>::empty());
    } else {
        let k = images.len() - 1;
        let pre = images.drop_last();
        let fpre = fresh.take(k);
        assert forall|i: int| 0 <= i < pre.len() implies #[trigger] resolve(prev, pre[i], fpre[i]) is Some by {
            assert(pre[i] == images[i] && fpre[i] == fresh[i]);
            assert(resolve(prev, images[i], fresh[i]) is Some);
        }
        lemma_current_all_resolved(prev, pre, fpre);
        assert(resolve(prev, images[k], fresh[k]) is Some);
        assert(current_entries(prev, images, fresh) =~= want);
    }
}

proof fn lemma_retained_absent(prev: Seq<FileInfoView>, names: Seq<Seq<char>>)
    ensures
        forall|j: int|
            0 <= j < retained(prev, names).len() ==> !names.contains(
                (#[trigger] retained(prev, names)[j]).filename,
            ),
    decreases prev.len(),
{
    if prev.len() > 0 {
        lemma_retained_absent(prev.drop_last(), names);
    }
}

/// Entries whose path is among `names` are never retained; the others always are.
proof fn lemma_retained_split(a: Seq<FileInfoView>, b: Seq<FileInfoView>, names: Seq<Seq<char>>)
    requires
        forall|j: int| 0 <= j < a.len() ==> names.contains((#[trigger] a[j]).filename),
        forall|j: int| 0 <= j < b.len() ==> !names.contains((#[trigger] b[j]).filename),
    ensures
        retained(a + b, names) == b,
    decreases a.len() + b.len(),
{
    if b.len() == 0 {
        assert(a + b =~= a);
        if a.len() > 0 {
            assert(a.drop_last() + b =~= a.drop_last());
            assert(a.last() == a[a.len() - 1]);
            lemma_retained_split(a.drop_last(), b, names);
        }
    } else {
        assert((a + b).drop_last() =~= a + b.drop_last());
        assert((a + b).last() == b.last());
        assert(b.last() == b[b.len() - 1]);
        lemma_retained_split(a, b.drop_last(), names);
        assert(b.drop_last().push(b.last()) =~= b);
    }
}

/// Idempotence. After a run in which every stale image was regenerated, a
/// second run over the same files (no file touched since) finds no image
/// stale, so rewrites no thumbnail, and writes the very same manifest,
/// whatever regeneration results it is handed.
pub proof fn lemma_second_run_changes_nothing(
    prev: Seq<FileInfoView>,
    images: Seq<ImageFile>,
    fresh: Seq<Option<FileInfoView>>,
    again: Seq<Option<FileInfoView>>,
)
    requires
        fresh.len() == images.len(),
        again.len() == images.len(),
        distinct_paths(images),
        fresh_named(images, fresh),
        all_regenerated(prev, images, fresh),
    ensures
        forall|i: int|
            0 <= i < images.len() ==> !is_stale(
                lookup(manifest_after(prev, images, fresh), #[trigger] images[i].relpath@),
                images[i].mtime,
            ),
        manifest_after(manifest_after(prev, images, fresh), images, again) == manifest_after(
            prev,
            images,
            fresh,
        ),
{
    let names = image_names(images);
    let cur = current_entries(prev, images, fresh);
    let ret = retained(prev, names);
    let m = manifest_after(prev, images, fresh);
    assert forall|i: int| 0 <= i < images.len() implies #[trigger] resolve(prev, images[i], fresh[i]) is Some
        && resolve(prev, images[i], fresh[i])->0.filename == images[i].relpath@
        && !is_stale(resolve(prev, images[i], fresh[i]), images[i].mtime) by {
        lemma_lookup_name(prev, images[i].relpath@);
        assert(fresh[i] is Some ==> fresh[i]->0.filename == images[i].relpath@);
    }
    lemma_current_all_resolved(prev, images, fresh);
    assert forall|i: int| 0 <= i < images.len() implies lookup(m, #[trigger] images[i].relpath@)
        == resolve(prev, images[i], fresh[i]) by {
        lemma_lookup_current(prev, images, fresh, i);
        lemma_lookup_append(cur, ret, images[i].relpath@);
    }
    assert forall|i: int| 0 <= i < images.len() implies #[trigger] resolve(m, images[i], again[i])
        == resolve(prev, images[i], fresh[i]) by {
        assert(lookup(m, images[i].relpath@) == resolve(prev, images[i], fresh[i]));
    }
    lemma_current_all_resolved(m, images, again);
    assert(current_entries(m, images, again) =~= cur);
    assert forall|j: int| 0 <= j < cur.len() implies names.contains((#[trigger] cur[j]).filename) by {
        assert(names[j] == images[j].relpath@);
    }
    lemma_retained_absent(prev, names);
    lemma_retained_split(cur, ret, names);
}

/// Staleness invalidation. For an image whose entry in the manifest records
/// time `T`: found with a modification time after `T`, it is stale, and the
/// new manifest holds its regenerated entry where regeneration succeeded;
/// found with a time at or before `T`, it is fresh, and the new manifest holds
/// the recorded entry unchanged.
pub proof fn lemma_touch_decides(
    prev: Seq<FileInfoView>,
    images: Seq<ImageFile>,
    fresh: Seq<Option<FileInfoView>>,
    i: int,
    recorded: FileInfoView,
)
    requires
        fresh.len() == images.len(),
        0 <= i < images.len(),
        distinct_paths(images),
        fresh_named(images, fresh),
        lookup(prev, images[i].relpath@) == Some(recorded),
    ensures
        earlier(recorded.modified_time, images[i].mtime) ==> is_stale(
            lookup(prev, images[i].relpath@),
            images[i].mtime,
        ) && (fresh[i] is Some ==> lookup(manifest_after(prev, images, fresh), images[i].relpath@)
            == fresh[i]),
        !earlier(recorded.modified_time, images[i].mtime) ==> !is_stale(
            lookup(prev, images[i].relpath@),
            images[i].mtime,
        ) && lookup(manifest_after(prev, images, fresh), images[i].relpath@) == Some(recorded),
{
    let names = image_names(images);
    lemma_lookup_current(prev, images, fresh, i);
    lemma_lookup_append(
        current_entries(prev, images, fresh),
        retained(prev, names),
        images[i].relpath@,
    );
}

/// No two entries are recorded under one path.
pub open spec fn unique_keys(m: Seq<FileInfoView>) -> bool {
    forall|i: int, j: int| 0 <= i < j < m.len() ==> #[trigger] m[i].filename != #[trigger] m[j].filename
}

proof fn lemma_current_unique(
    prev: Seq<FileInfoView>,
    images: Seq<ImageFile>,
    fresh: Seq<Option<FileInfoView>>,
)
    requires
        fresh.len() == images.len(),
        distinct_paths(images),
        fresh_named(images, fresh),
    ensures
        unique_keys(current_entries(prev, images, fresh)),
    decreases images.len(),
{
    if images.len() > 0 {
        let k = images.len() - 1;
        let pre = images.drop_last();
        let fpre = fresh.take(k);
        assert forall|a: int, b: int| 0 <= a < b < pre.len() implies #[trigger] pre[a].relpath@
            != #[trigger] pre[b].relpath@ by {
            assert(pre[a] == images[a] && pre[b] == images[b]);
        }
        assert forall|a: int| 0 <= a < pre.len() && #[trigger] fpre[a] is Some implies fpre[a]->0.filename
            == pre[a].relpath@ by {
            assert(fresh[a] == fpre[a]);
        }
        lemma_current_unique(prev, pre, fpre);
        lemma_current_names(prev, pre, fpre);
        lemma_lookup_name(prev, images[k].relpath@);
        let rest = current_entries(prev, pre, fpre);
        let cur = current_entries(prev, images, fresh);
        assert forall|a: int, b: int| 0 <= a < b < cur.len() implies #[trigger] cur[a].filename
            != #[trigger] cur[b].filename by {
            if b >= rest.len() {
                assert(cur[a] == rest[a]);
                assert(cur[b].filename == images[k].relpath@);
                let i = choose|i: int| 0 <= i < pre.len() && rest[a].filename == pre[i].relpath@;
                assert(pre[i] == images[i]);
            } else {
                assert(cur[a] == rest[a] && cur[b] == rest[b]);
            }
        }
    }
}

proof fn lemma_retained_from(prev: Seq<FileInfoView>, names: Seq<Seq<char>>)
    ensures
        forall|j: int|
            0 <= j < retained(prev, names).len() ==> exists|i: int|
                0 <= i < prev.len() && #[trigger] retained(prev, names)[j] == prev[i],
    decreases prev.len(),
{
    if prev.len() > 0 {
        let pre = prev.drop_last();
        lemma_retained_from(pre, names);
        let r = retained(prev, names);
        let rest = retained(pre, names);
        assert forall|j: int| 0 <= j < r.len() implies exists|i: int|
            0 <= i < prev.len() && #[trigger] r[j] == prev[i] by {
            if j < rest.len() {
                assert(r[j] == rest[j]);
                let i = choose|i: int| 0 <= i < pre.len() && rest[j] == pre[i];
                assert(pre[i] == prev[i]);
            } else {
                assert(r[j] == prev[prev.len() - 1]);
            }
        }
    }
}

proof fn lemma_retained_unique(prev: Seq<FileInfoView>, names: Seq<Seq<char>>)
    requires
        unique_keys(prev),
    ensures
        unique_keys(retained(prev, names)),
    decreases prev.len(),
{
    if prev.len() > 0 {
        let pre = prev.drop_last();
        assert forall|a: int, b: int| 0 <= a < b < pre.len() implies #[trigger] pre[a].filename
            != #[trigger] pre[b].filename by {
            assert(pre[a] == prev[a] && pre[b] == prev[b]);
        }
        lemma_retained_unique(pre, names);
        lemma_retained_from(pre, names);
        let r = retained(prev, names);
        let rest = retained(pre, names);
        let last = prev[prev.len() - 1];
        assert forall|a: int, b: int| 0 <= a < b < r.len() implies #[trigger] r[a].filename
            != #[trigger] r[b].filename by {
            if b >= rest.len() {
                assert(r[a] == rest[a]);
                assert(r[b] == last);
                let i = choose|i: int| 0 <= i < pre.len() && rest[a] == pre[i];
                assert(pre[i] == prev[i]);
            } else {
                assert(r[a] == rest[a] && r[b] == rest[b]);
            }
        }
    }
}

/// A merge keeps the manifest's paths unique: where the manifest read records
/// each path at most once, so does the one written.
pub proof fn lemma_merge_keeps_keys_unique(
    prev: Seq<FileInfoView>,
    images: Seq<ImageFile>,
    fresh: Seq<Option<FileInfoView>>,
)
    requires
        fresh.len() == images.len(),
        distinct_paths(images),
        fresh_named(images, fresh),
        unique_keys(prev),
    ensures
        unique_keys(manifest_after(prev, images, fresh)),
{
    let names = image_names(images);
    let cur = current_entries(prev, images, fresh);
    let ret = retained(prev, names);
    lemma_current_unique(prev, images, fresh);
    lemma_current_names(prev, images, fresh);
    lemma_retained_unique(prev, names);
    lemma_retained_absent(prev, names);
    let m = cur + ret;
    assert forall|a: int, b: int| 0 <= a < b < m.len() implies #[trigger] m[a].filename
        != #[trigger] m[b].filename by {
        if b < cur.len() {
            assert(m[a] == cur[a] && m[b] == cur[b]);
        } else if a >= cur.len() {
            assert(m[a] == ret[a - cur.len()] && m[b] == ret[b - cur.len()]);
        } else {
            assert(m[a] == cur[a] && m[b] == ret[b - cur.len()]);
            let i = choose|i: int| 0 <= i < images.len() && cur[a].filename == images[i].relpath@;
            assert(names[i] == images[i].relpath@);
            assert(!names.contains(ret[b - cur.len()].filename));
        }
    }
}

} // verus!
