//! The traversal of the collection: which entries of a directory are descended
//! into and which are images, in what order, and the depth-first stack of
//! directories still to visit. The caller lists directories and does the file
//! work; this module decides.
use vstd::prelude::*;
use crate::manifest::{ImageFile, Timestamp};
use crate::order::{
    chars_of, distinct_keys, keys_in_order, listed, sort_indices,
    strictly_sorted, lex_lt,
};
use crate::paths::{
    components_view, has_image_extension, is_component_prefix, is_image, join_components, joined,
    manifest_file_name, manifest_name_spec, strip_prefix,
};
use crate::text::{contains_string, copy_strings, strings_view, tree_line, tree_line_spec};

verus! {

/// What a run is configured to do.
pub struct Options {
    /// When false, only metadata is gathered and no thumbnail is made.
    pub generate_thumbnails: bool,
    /// Reserved: staleness is decided by modification time alone.
    pub compare_by_hash: bool,
    /// The long edge of each thumbnail, in order.
    pub thumbnail_sizes: Vec<u32>,
    /// The JPEG quality of each thumbnail, paired with `thumbnail_sizes`.
    pub thumbnail_qualities: Vec<u8>,
    /// Directory names that are never descended into.
    pub hidden_dirs: Vec<String>,
}

impl Options {
    /// Sizes and qualities pair up one to one.
    pub open spec fn wf(&self) -> bool {
        self.thumbnail_sizes@.len() == self.thumbnail_qualities@.len()
    }

    /// `self` and `o` configure the same run.
    pub open spec fn same_as(&self, o: &Options) -> bool {
        &&& self.generate_thumbnails == o.generate_thumbnails
        &&& self.compare_by_hash == o.compare_by_hash
        &&& self.thumbnail_sizes@ == o.thumbnail_sizes@
        &&& self.thumbnail_qualities@ == o.thumbnail_qualities@
        &&& strings_view(self.hidden_dirs@) == strings_view(o.hidden_dirs@)
    }

    /// The renderings to make of each stale image: a (long edge, quality) pair
    /// per configured size, in order; none when thumbnails are switched off.
    pub fn thumbnail_jobs(&self) -> (r: Vec<(u32, u8)>)
        requires
            self.wf(),
        ensures
            r@.len() == (if self.generate_thumbnails {
                self.thumbnail_sizes@.len()
            } else {
                0
            }),
            forall|i: int|
                0 <= i < r@.len() ==> #[trigger] r@[i] == (
                    self.thumbnail_sizes@[i],
                    self.thumbnail_qualities@[i],
                ),
    {
        let mut r: Vec<(u32, u8)> = Vec::new();
        if !self.generate_thumbnails {
            return r;
        }
        let mut i: usize = 0;
        while i < self.thumbnail_sizes.len()
            invariant
                self.wf(),
                i <= self.thumbnail_sizes.len(),
                r@.len() == i,
                forall|k: int|
                    0 <= k < i ==> #[trigger] r@[k] == (
                        self.thumbnail_sizes@[k],
                        self.thumbnail_qualities@[k],
                    ),
            decreases self.thumbnail_sizes.len() - i,
        {
            r.push((self.thumbnail_sizes[i], self.thumbnail_qualities[i]));
            i = i + 1;
        }
        r
    }

    /// A copy of the configuration.
    pub fn duplicate(&self) -> (r: Options)
        ensures
            r.same_as(self),
    {
        let mut sizes: Vec<u32> = Vec::new();
        let mut i: usize = 0;
        while i < self.thumbnail_sizes.len()
            invariant
                i <= self.thumbnail_sizes.len(),
                sizes@ == self.thumbnail_sizes@.subrange(0, i as int),
            decreases self.thumbnail_sizes.len() - i,
        {
            sizes.push(self.thumbnail_sizes[i]);
            assert(sizes@ =~= self.thumbnail_sizes@.subrange(0, i + 1));
            i = i + 1;
        }
        assert(sizes@ =~= self.thumbnail_sizes@);
        let mut qualities: Vec<u8> = Vec::new();
        let mut j: usize = 0;
        while j < self.thumbnail_qualities.len()
            invariant
                j <= self.thumbnail_qualities.len(),
                qualities@ == self.thumbnail_qualities@.subrange(0, j as int),
            decreases self.thumbnail_qualities.len() - j,
        {
            qualities.push(self.thumbnail_qualities[j]);
            assert(qualities@ =~= self.thumbnail_qualities@.subrange(0, j + 1));
            j = j + 1;
        }
        assert(qualities@ =~= self.thumbnail_qualities@);
        Options {
            generate_thumbnails: self.generate_thumbnails,
            compare_by_hash: self.compare_by_hash,
            thumbnail_sizes: sizes,
            thumbnail_qualities: qualities,
            hidden_dirs: copy_strings(&self.hidden_dirs),
        }
    }
}

/// One entry of a directory listing.
pub struct Entry {
    pub name: String,
    pub is_dir: bool,
    pub mtime: Timestamp,
}

/// A directory entry that is descended into: a directory whose name is not hidden.
pub open spec fn descends(e: Entry, hidden: Seq<String>) -> bool {
    e.is_dir && !strings_view(hidden).contains(e.name@)
}

/// A directory entry that is a source image: a file with an image extension.
pub open spec fn is_candidate(e: Entry) -> bool {
    !e.is_dir && has_image_extension(e.name@)
}

pub open spec fn entry_names(entries: Seq<Entry>) -> Seq<Seq<char>> {
    entries.map_values(|e: Entry| e.name@)
}

/// Some entry named `n` is descended into.
pub open spec fn has_subdir_named(entries: Seq<Entry>, hidden: Seq<String>, n: Seq<char>) -> bool {
    exists|k: int| 0 <= k < entries.len() && entries[k].name@ == n && descends(entries[k], hidden)
}

/// Some entry named `n` is a source image.
pub open spec fn has_image_named(entries: Seq<Entry>, n: Seq<char>) -> bool {
    exists|k: int| 0 <= k < entries.len() && entries[k].name@ == n && is_candidate(entries[k])
}

/// Some entry named `n` is a source image modified at `t`.
pub open spec fn image_modified_at(entries: Seq<Entry>, n: Seq<char>, t: Timestamp) -> bool {
    exists|k: int|
        0 <= k < entries.len() && entries[k].name@ == n && is_candidate(entries[k])
            && entries[k].mtime == t
}

/// A directory that nothing in it makes worth visiting: no subdirectory to
/// descend into and no image.
pub open spec fn is_empty_dir(entries: Seq<Entry>, hidden: Seq<String>) -> bool {
    forall|k: int|
        0 <= k < entries.len() ==> !descends(#[trigger] entries[k], hidden) && !is_candidate(
            entries[k],
        )
}

/// A directory waiting to be visited.
pub struct PendingDir {
    /// Path components of the source directory.
    pub input: Vec<String>,
    /// Path components of the directory that mirrors it in the output.
    pub output: Vec<String>,
    /// The directory's own name.
    pub name: String,
    /// The tree-drawing flags of its parent's entries.
    pub parent_ancestors: Vec<bool>,
    /// Whether more siblings follow it in its parent.
    pub has_subcontent: bool,
    /// Whether it is the root of the collection.
    pub is_root: bool,
}

pub struct PendingDirView {
    pub input: Seq<Seq<char>>,
    pub output: Seq<Seq<char>>,
    pub name: Seq<char>,
    pub parent_ancestors: Seq<bool>,
    pub has_subcontent: bool,
    pub is_root: bool,
}

impl View for PendingDir {
    type V = PendingDirView;

    open spec fn view(&self) -> PendingDirView {
        PendingDirView {
            input: components_view(self.input@),
            output: components_view(self.output@),
            name: self.name@,
            parent_ancestors: self.parent_ancestors@,
            has_subcontent: self.has_subcontent,
            is_root: self.is_root,
        }
    }
}

/// The tree-drawing flags for the entries of `d`: its parent's, and then
/// whether `d` has siblings after it. The root has none.
pub open spec fn ancestors_of(d: PendingDirView) -> Seq<bool> {
    if d.is_root {
        d.parent_ancestors
    } else {
        d.parent_ancestors.push(d.has_subcontent)
    }
}

/// The subdirectory `name` of `d`, the `i`-th of `count`.
pub open spec fn child_dir(d: PendingDirView, name: Seq<char>, i: int, count: int) -> PendingDirView {
    PendingDirView {
        input: d.input.push(name),
        output: d.output.push(name),
        name: name,
        parent_ancestors: ancestors_of(d),
        has_subcontent: i < count - 1,
        is_root: false,
    }
}

/// The subdirectories of `d`, last first, as they go on the stack so that the
/// first is visited next.
pub open spec fn children_stacked(d: PendingDirView, names: Seq<Seq<char>>) -> Seq<PendingDirView> {
    Seq::new(
        names.len(),
        |j: int| child_dir(d, names[names.len() - 1 - j], names.len() - 1 - j, names.len() as int),
    )
}

pub open spec fn pending_view(s: Seq<PendingDir>) -> Seq<PendingDirView> {
    s.map_values(|d: PendingDir| d@)
}

/// The last component of a path, or nothing for an empty path.
pub open spec fn last_component(c: Seq<Seq<char>>) -> Seq<char> {
    if c.len() == 0 {
        Seq::empty()
    } else {
        c.last()
    }
}

impl PendingDir {
    /// The tree-drawing flags for the entries of this directory.
    pub fn ancestor_at_end(&self) -> (r: Vec<bool>)
        ensures
            r@ == ancestors_of(self@),
    {
        let mut r: Vec<bool> = Vec::new();
        let mut i: usize = 0;
        while i < self.parent_ancestors.len()
            invariant
                i <= self.parent_ancestors.len(),
                r@ == self.parent_ancestors@.subrange(0, i as int),
            decreases self.parent_ancestors.len() - i,
        {
            r.push(self.parent_ancestors[i]);
            assert(r@ =~= self.parent_ancestors@.subrange(0, i + 1));
            i = i + 1;
        }
        assert(r@ =~= self.parent_ancestors@);
        if !self.is_root {
            r.push(self.has_subcontent);
        }
        r
    }

    /// The tree line announcing this directory as it is entered; none for the root.
    pub fn heading(&self) -> (r: Option<String>)
        ensures
            r is None <==> self.is_root,
            r matches Some(s) ==> s@ == tree_line_spec(
                None,
                self.parent_ancestors@,
                self.has_subcontent,
                self.name@,
            ),
    {
        if self.is_root {
            None
        } else {
            Some(tree_line(None, &self.parent_ancestors, self.has_subcontent, self.name.as_str()))
        }
    }

    /// The tree line reporting that this directory could not be read; none for
    /// the root, which is passed over silently.
    pub fn inaccessible_notice(&self) -> (r: Option<String>)
        ensures
            r is None <==> self.is_root,
            r matches Some(s) ==> s@ == tree_line_spec(
                None,
                self.parent_ancestors@,
                false,
                self.name@ + " [inaccessible]"@,
            ),
    {
        if self.is_root {
            None
        } else {
            let mut label = self.name.clone();
            label.append(" [inaccessible]");
            Some(tree_line(None, &self.parent_ancestors, false, label.as_str()))
        }
    }
}

/// What to do in a directory that is worth visiting.
pub struct DirPlan {
    /// The subdirectories to descend into, in sort order.
    pub sub_dirs: Vec<String>,
    /// The names of the source images, in sort order.
    pub image_names: Vec<String>,
    /// The source images, in the same order, by path relative to the collection root.
    pub images: Vec<ImageFile>,
    /// The file name of the directory's manifest.
    pub manifest_name: String,
}

/// The state of a walk over a collection: its root, its configuration, and
/// the directories still to visit, the next one last.
pub struct Walk {
    pub root: Vec<String>,
    pub options: Options,
    pub pending: Vec<PendingDir>,
}

impl Walk {
    /// Every directory waiting lies under the root.
    pub open spec fn wf(&self) -> bool {
        forall|i: int|
            0 <= i < self.pending@.len() ==> is_component_prefix(
                components_view(self.root@),
                #[trigger] self.pending@[i]@.input,
            )
    }

    /// The next directory to visit, taken off the stack.
    pub fn next_dir(&mut self) -> (r: Option<PendingDir>)
        requires
            old(self).wf(),
        ensures
            final(self).wf(),
            final(self).root == old(self).root,
            final(self).options == old(self).options,
            old(self).pending@.len() == 0 ==> r is None && final(self).pending@ == old(self).pending@,
            old(self).pending@.len() > 0 ==> r == Some(old(self).pending@.last())
                && final(self).pending@ == old(self).pending@.drop_last(),
            r matches Some(d) ==> is_component_prefix(components_view(final(self).root@), d@.input),
    {
        let r = self.pending.pop();
        assert forall|i: int| 0 <= i < self.pending@.len() implies is_component_prefix(
            components_view(self.root@),
            #[trigger] self.pending@[i]@.input,
        ) by {
            assert(self.pending@[i] == old(self).pending@[i]);
        }
        r
    }

    /// Decides what to do in the directory `dir`, listed as `entries`: `None`
    /// when it holds neither a subdirectory to descend into nor an image, in
    /// which case nothing is to be done there at all. Otherwise the plan, with
    /// the subdirectories put on the stack so that they are visited next, in order.
    pub fn visit(&mut self, dir: &PendingDir, entries: &Vec<Entry>) -> (r: Option<DirPlan>)
        requires
            old(self).wf(),
            is_component_prefix(components_view(old(self).root@), dir@.input),
            distinct_keys(entry_names(entries@)),
        ensures
            final(self).wf(),
            final(self).root == old(self).root,
            final(self).options == old(self).options,
            r is None <==> is_empty_dir(entries@, old(self).options.hidden_dirs@),
            r is None ==> final(self).pending@ == old(self).pending@,
            r matches Some(p) ==> {
                let hidden = old(self).options.hidden_dirs@;
                let subs = strings_view(p.sub_dirs@);
                let names = strings_view(p.image_names@);
                &&& strictly_sorted(subs)
                &&& forall|n: Seq<char>| #[trigger] subs.contains(n) <==> has_subdir_named(entries@, hidden, n)
                &&& strictly_sorted(names)
                &&& forall|n: Seq<char>| #[trigger] names.contains(n) <==> has_image_named(entries@, n)
                &&& p.images@.len() == names.len()
                &&& forall|i: int| 0 <= i < names.len() ==> #[trigger] p.images@[i].relpath@ == joined(
                    dir@.input.push(names[i]).skip(old(self).root@.len() as int),
                )
                &&& forall|i: int| 0 <= i < names.len() ==> image_modified_at(entries@, names[i], #[trigger] p.images@[i].mtime)
                &&& p.manifest_name@ == manifest_name_spec(dir.name@)
                &&& pending_view(final(self).pending@) == pending_view(old(self).pending@) + children_stacked(dir@, subs)
            },
    {
        let order = sorted_entries(entries);
        let sub_dirs = select_subdirs(entries, &order, &self.options.hidden_dirs);
        let (image_names, images) = select_images(entries, &order, &self.root, dir);
        if sub_dirs.len() == 0 && image_names.len() == 0 {
            proof {
                assert forall|k: int| 0 <= k < entries@.len() implies !descends(
                    #[trigger] entries@[k],
                    self.options.hidden_dirs@,
                ) && !is_candidate(entries@[k]) by {
                    if descends(entries@[k], self.options.hidden_dirs@) {
                        assert(strings_view(sub_dirs@).contains(entries@[k].name@));
                    }
                    if is_candidate(entries@[k]) {
                        assert(strings_view(image_names@).contains(entries@[k].name@));
                    }
                }
            }
            return None;
        }
        proof {
            if is_empty_dir(entries@, self.options.hidden_dirs@) {
                if sub_dirs.len() > 0 {
                    assert(strings_view(sub_dirs@)[0] == sub_dirs@[0]@);
                    assert(strings_view(sub_dirs@).contains(sub_dirs@[0]@));
                    let k = choose|k: int|
                        0 <= k < entries@.len() && entries@[k].name@ == sub_dirs@[0]@ && descends(
                            entries@[k],
                            self.options.hidden_dirs@,
                        );
                    assert(!descends(entries@[k], self.options.hidden_dirs@));
                } else {
                    assert(strings_view(image_names@)[0] == image_names@[0]@);
                    assert(strings_view(image_names@).contains(image_names@[0]@));
                    let k = choose|k: int|
                        0 <= k < entries@.len() && entries@[k].name@ == image_names@[0]@
                            && is_candidate(entries@[k]);
                    assert(!is_candidate(entries@[k]));
                }
            }
        }
        self.push_children(dir, &sub_dirs);
        let manifest_name = manifest_file_name(dir.name.as_str());
        Some(DirPlan { sub_dirs, image_names, images, manifest_name })
    }

    fn push_children(&mut self, dir: &PendingDir, sub_dirs: &Vec<String>)
        requires
            old(self).wf(),
            is_component_prefix(components_view(old(self).root@), dir@.input),
        ensures
            final(self).wf(),
            final(self).root == old(self).root,
            final(self).options == old(self).options,
            pending_view(final(self).pending@) == pending_view(old(self).pending@)
                + children_stacked(dir@, strings_view(sub_dirs@)),
    {
        let ghost names = strings_view(sub_dirs@);
        let ghost base = pending_view(old(self).pending@);
        let count = sub_dirs.len();
        let ancestors = dir.ancestor_at_end();
        let mut j: usize = 0;
        while j < count
            invariant
                j <= count,
                count == sub_dirs@.len(),
                names == strings_view(sub_dirs@),
                ancestors@ == ancestors_of(dir@),
                self.wf(),
                self.root == old(self).root,
                self.options == old(self).options,
                is_component_prefix(components_view(self.root@), dir@.input),
                base == pending_view(old(self).pending@),
                pending_view(self.pending@) == base + children_stacked(dir@, names).take(j as int),
            decreases count - j,
        {
            let i = count - 1 - j;
            let mut input = copy_strings(&dir.input);
            input.push(sub_dirs[i].clone());
            let mut output = copy_strings(&dir.output);
            output.push(sub_dirs[i].clone());
            let mut parent: Vec<bool> = Vec::new();
            let mut a: usize = 0;
            while a < ancestors.len()
                invariant
                    a <= ancestors.len(),
                    parent@ == ancestors@.subrange(0, a as int),
                decreases ancestors.len() - a,
            {
                parent.push(ancestors[a]);
                assert(parent@ =~= ancestors@.subrange(0, a + 1));
                a = a + 1;
            }
            assert(parent@ =~= ancestors@);
            let child = PendingDir {
                input,
                output,
                name: sub_dirs[i].clone(),
                parent_ancestors: parent,
                has_subcontent: i + 1 < count,
                is_root: false,
            };
            proof {
                assert(child@.input =~= dir@.input.push(names[i as int]));
                assert(child@.output =~= dir@.output.push(names[i as int]));
                assert(child@ == child_dir(dir@, names[i as int], i as int, count as int));
                let root = components_view(self.root@);
                assert(child@.input.subrange(0, root.len() as int) =~= dir@.input.subrange(
                    0,
                    root.len() as int,
                ));
            }
            let ghost before = self.pending@;
            self.pending.push(child);
            proof {
                assert(pending_view(self.pending@) =~= pending_view(before).push(child@));
                assert(children_stacked(dir@, names).take(j + 1) =~= children_stacked(
                    dir@,
                    names,
                ).take(j as int).push(child@));
                assert forall|k: int| 0 <= k < self.pending@.len() implies is_component_prefix(
                    components_view(self.root@),
                    #[trigger] self.pending@[k]@.input,
                ) by {
                    if k < before.len() {
                        assert(self.pending@[k] == before[k]);
                    }
                }
            }
            j = j + 1;
        }
        assert(children_stacked(dir@, names).take(j as int) =~= children_stacked(dir@, names));
    }
}

/// The indices of the entries, ordered by name.
fn sorted_entries(entries: &Vec<Entry>) -> (r: (Vec<Vec<char>>, Vec<usize>))
    requires
        distinct_keys(entry_names(entries@)),
    ensures
        r.0@.len() == entries@.len(),
        forall|k: int| 0 <= k < entries@.len() ==> #[trigger] r.0@[k]@ == entries@[k].name@,
        r.1@.len() == entries@.len(),
        forall|j: int| 0 <= j < r.1@.len() ==> #[trigger] r.1@[j] < entries@.len(),
        forall|k: int| 0 <= k < entries@.len() ==> #[trigger] listed(r.1@, k),
        strictly_sorted(keys_in_order(r.0@, r.1@)),
{
    let mut keys: Vec<Vec<char>> = Vec::new();
    let mut i: usize = 0;
    while i < entries.len()
        invariant
            i <= entries.len(),
            keys@.len() == i,
            forall|k: int| 0 <= k < i ==> #[trigger] keys@[k]@ == entries@[k].name@,
        decreases entries.len() - i,
    {
        keys.push(chars_of(entries[i].name.as_str()));
        i = i + 1;
    }
    assert(keys@.map_values(|k: Vec<char>| k@) =~= entry_names(entries@));
    let order = sort_indices(&keys);
    (keys, order)
}

/// The names of the entries to descend into, in sort order.
fn select_subdirs(entries: &Vec<Entry>, sorted: &(Vec<Vec<char>>, Vec<usize>), hidden: &Vec<String>) -> (r: Vec<String>)
    requires
        sorted.0@.len() == entries@.len(),
        forall|k: int| 0 <= k < entries@.len() ==> #[trigger] sorted.0@[k]@ == entries@[k].name@,
        forall|j: int| 0 <= j < sorted.1@.len() ==> #[trigger] sorted.1@[j] < entries@.len(),
        forall|k: int| 0 <= k < entries@.len() ==> #[trigger] listed(sorted.1@, k),
        strictly_sorted(keys_in_order(sorted.0@, sorted.1@)),
    ensures
        strictly_sorted(strings_view(r@)),
        forall|n: Seq<char>| #[trigger] strings_view(r@).contains(n) <==> has_subdir_named(entries@, hidden@, n),
{
    let keys = &sorted.0;
    let order = &sorted.1;
    let ghost ks = keys_in_order(keys@, order@);
    let mut r: Vec<String> = Vec::new();
    let mut j: usize = 0;
    while j < order.len()
        invariant
            j <= order@.len(),
            ks == keys_in_order(keys@, order@),
            keys@.len() == entries@.len(),
            forall|k: int| 0 <= k < entries@.len() ==> #[trigger] keys@[k]@ == entries@[k].name@,
            forall|jj: int| 0 <= jj < order@.len() ==> #[trigger] order@[jj] < entries@.len(),
            strictly_sorted(ks),
            strictly_sorted(strings_view(r@)),
            forall|a: int, jj: int| 0 <= a < r@.len() && j <= jj < order@.len() ==> lex_lt(
                #[trigger] r@[a]@,
                #[trigger] ks[jj],
            ),
            forall|a: int| 0 <= a < r@.len() ==> has_subdir_named(entries@, hidden@, #[trigger] r@[a]@),
            forall|jj: int|
                0 <= jj < j && descends(entries@[#[trigger] order@[jj] as int], hidden@) ==> strings_view(
                    r@,
                ).contains(entries@[order@[jj] as int].name@),
        decreases order@.len() - j,
    {
        let idx = order[j];
        let e = &entries[idx];
        if e.is_dir && !contains_string(hidden, e.name.as_str()) {
            let ghost before = r@;
            let c = e.name.clone();
            r.push(c);
            proof {
                assert(ks[j as int] == e.name@);
                assert(strings_view(r@) =~= strings_view(before).push(c@));
                assert forall|a: int, b: int| 0 <= a < b < r@.len() implies lex_lt(
                    #[trigger] strings_view(r@)[a],
                    #[trigger] strings_view(r@)[b],
                ) by {
                    if b == before.len() {
                        assert(lex_lt(before[a]@, ks[j as int]));
                    } else {
                        assert(strings_view(before)[a] == strings_view(r@)[a]);
                        assert(strings_view(before)[b] == strings_view(r@)[b]);
                    }
                }
                assert forall|a: int, jj: int| 0 <= a < r@.len() && j + 1 <= jj < order@.len() implies lex_lt(
                    #[trigger] r@[a]@,
                    #[trigger] ks[jj],
                ) by {
                    if a == before.len() {
                        assert(lex_lt(ks[j as int], ks[jj]));
                    } else {
                        assert(r@[a] == before[a]);
                    }
                }
                assert(has_subdir_named(entries@, hidden@, r@[before.len() as int]@));
                assert forall|a: int| 0 <= a < r@.len() implies has_subdir_named(entries@, hidden@, #[trigger] r@[a]@) by {
                    if a < before.len() {
                        assert(r@[a] == before[a]);
                    }
                }
                assert forall|jj: int|
                    0 <= jj < j + 1 && descends(entries@[#[trigger] order@[jj] as int], hidden@) implies strings_view(
                        r@,
                    ).contains(entries@[order@[jj] as int].name@) by {
                    if jj < j {
                        let a = choose|a: int| 0 <= a < strings_view(before).len() && strings_view(before)[a] == entries@[order@[jj] as int].name@;
                        assert(strings_view(r@)[a] == strings_view(before)[a]);
                    } else {
                        assert(strings_view(r@)[before.len() as int] == c@);
                    }
                }
            }
        }
        j = j + 1;
    }
    proof {
        assert forall|n: Seq<char>| #[trigger] strings_view(r@).contains(n) <==> has_subdir_named(entries@, hidden@, n) by {
            if strings_view(r@).contains(n) {
                let a = choose|a: int| 0 <= a < strings_view(r@).len() && strings_view(r@)[a] == n;
                assert(has_subdir_named(entries@, hidden@, r@[a]@));
            }
            if has_subdir_named(entries@, hidden@, n) {
                let k = choose|k: int| 0 <= k < entries@.len() && entries@[k].name@ == n && descends(entries@[k], hidden@);
                assert(listed(order@, k));
                let jj = choose|jj: int| 0 <= jj < order@.len() && order@[jj] == k;
                assert(descends(entries@[order@[jj] as int], hidden@));
            }
        }
    }
    r
}

/// The names of the source images, in sort order, and each image by its path
/// relative to the collection root with its modification time.
fn select_images(
    entries: &Vec<Entry>,
    sorted: &(Vec<Vec<char>>, Vec<usize>),
    root: &Vec<String>,
    dir: &PendingDir,
) -> (r: (Vec<String>, Vec<ImageFile>))
    requires
        sorted.0@.len() == entries@.len(),
        forall|k: int| 0 <= k < entries@.len() ==> #[trigger] sorted.0@[k]@ == entries@[k].name@,
        forall|j: int| 0 <= j < sorted.1@.len() ==> #[trigger] sorted.1@[j] < entries@.len(),
        forall|k: int| 0 <= k < entries@.len() ==> #[trigger] listed(sorted.1@, k),
        strictly_sorted(keys_in_order(sorted.0@, sorted.1@)),
        is_component_prefix(components_view(root@), dir@.input),
    ensures
        strictly_sorted(strings_view(r.0@)),
        forall|n: Seq<char>| #[trigger] strings_view(r.0@).contains(n) <==> has_image_named(entries@, n),
        r.1@.len() == r.0@.len(),
        forall|i: int| 0 <= i < r.0@.len() ==> #[trigger] r.1@[i].relpath@ == joined(
            dir@.input.push(r.0@[i]@).skip(root@.len() as int),
        ),
        forall|i: int| 0 <= i < r.0@.len() ==> image_modified_at(entries@, r.0@[i]@, #[trigger] r.1@[i].mtime),
{
    let keys = &sorted.0;
    let order = &sorted.1;
    let ghost ks = keys_in_order(keys@, order@);
    let mut names: Vec<String> = Vec::new();
    let mut images: Vec<ImageFile> = Vec::new();
    let mut j: usize = 0;
    while j < order.len()
        invariant
            j <= order@.len(),
            ks == keys_in_order(keys@, order@),
            keys@.len() == entries@.len(),
            forall|k: int| 0 <= k < entries@.len() ==> #[trigger] keys@[k]@ == entries@[k].name@,
            forall|jj: int| 0 <= jj < order@.len() ==> #[trigger] order@[jj] < entries@.len(),
            is_component_prefix(components_view(root@), dir@.input),
            strictly_sorted(ks),
            strictly_sorted(strings_view(names@)),
            images@.len() == names@.len(),
            forall|a: int, jj: int| 0 <= a < names@.len() && j <= jj < order@.len() ==> lex_lt(
                #[trigger] names@[a]@,
                #[trigger] ks[jj],
            ),
            forall|a: int| 0 <= a < names@.len() ==> has_image_named(entries@, #[trigger] names@[a]@),
            forall|a: int| 0 <= a < names@.len() ==> #[trigger] images@[a].relpath@ == joined(
                dir@.input.push(names@[a]@).skip(root@.len() as int),
            ),
            forall|a: int| 0 <= a < names@.len() ==> image_modified_at(entries@, names@[a]@, #[trigger] images@[a].mtime),
            forall|jj: int|
                0 <= jj < j && is_candidate(entries@[#[trigger] order@[jj] as int]) ==> strings_view(
                    names@,
                ).contains(entries@[order@[jj] as int].name@),
        decreases order@.len() - j,
    {
        let idx = order[j];
        let e = &entries[idx];
        if !e.is_dir && is_image(e.name.as_str()) {
            let mut path = copy_strings(&dir.input);
            let ghost before_path = path@;
            path.push(e.name.clone());
            proof {
                assert(components_view(path@) =~= components_view(before_path).push(e.name@));
                let rt = components_view(root@);
                assert(components_view(path@).subrange(0, rt.len() as int) =~= dir@.input.subrange(
                    0,
                    rt.len() as int,
                ));
            }
            let rest = strip_prefix(&path, root);
            let relpath = match rest {
                Some(c) => join_components(&c),
                None => String::new(),
            };
            let ghost before = names@;
            let ghost before_images = images@;
            let c = e.name.clone();
            names.push(c);
            images.push(ImageFile { relpath, mtime: e.mtime });
            proof {
                assert(ks[j as int] == e.name@);
                assert(strings_view(names@) =~= strings_view(before).push(c@));
                assert forall|a: int, b: int| 0 <= a < b < names@.len() implies lex_lt(
                    #[trigger] strings_view(names@)[a],
                    #[trigger] strings_view(names@)[b],
                ) by {
                    if b == before.len() {
                        assert(lex_lt(before[a]@, ks[j as int]));
                    } else {
                        assert(strings_view(before)[a] == strings_view(names@)[a]);
                        assert(strings_view(before)[b] == strings_view(names@)[b]);
                    }
                }
                assert forall|a: int, jj: int| 0 <= a < names@.len() && j + 1 <= jj < order@.len() implies lex_lt(
                    #[trigger] names@[a]@,
                    #[trigger] ks[jj],
                ) by {
                    if a == before.len() {
                        assert(lex_lt(ks[j as int], ks[jj]));
                    } else {
                        assert(names@[a] == before[a]);
                    }
                }
                assert(has_image_named(entries@, names@[before.len() as int]@));
                assert(image_modified_at(entries@, names@[before.len() as int]@, images@[before.len() as int].mtime));
                assert forall|a: int| 0 <= a < names@.len() implies has_image_named(entries@, #[trigger] names@[a]@) by {
                    if a < before.len() {
                        assert(names@[a] == before[a]);
                    }
                }
                assert forall|a: int| 0 <= a < names@.len() implies #[trigger] images@[a].relpath@ == joined(
                    dir@.input.push(names@[a]@).skip(root@.len() as int),
                ) by {
                    if a < before.len() {
                        assert(names@[a] == before[a]);
                        assert(images@[a] == before_images[a]);
                    }
                }
                assert forall|a: int| 0 <= a < names@.len() implies image_modified_at(entries@, names@[a]@, #[trigger] images@[a].mtime) by {
                    if a < before.len() {
                        assert(names@[a] == before[a]);
                        assert(images@[a] == before_images[a]);
                    }
                }
                assert forall|jj: int|
                    0 <= jj < j + 1 && is_candidate(entries@[#[trigger] order@[jj] as int]) implies strings_view(
                        names@,
                    ).contains(entries@[order@[jj] as int].name@) by {
                    if jj < j {
                        let a = choose|a: int| 0 <= a < strings_view(before).len() && strings_view(before)[a] == entries@[order@[jj] as int].name@;
                        assert(strings_view(names@)[a] == strings_view(before)[a]);
                    } else {
                        assert(strings_view(names@)[before.len() as int] == c@);
                    }
                }
            }
        }
        j = j + 1;
    }
    proof {
        assert forall|n: Seq<char>| #[trigger] strings_view(names@).contains(n) <==> has_image_named(entries@, n) by {
            if strings_view(names@).contains(n) {
                let a = choose|a: int| 0 <= a < strings_view(names@).len() && strings_view(names@)[a] == n;
                assert(has_image_named(entries@, names@[a]@));
            }
            if has_image_named(entries@, n) {
                let k = choose|k: int| 0 <= k < entries@.len() && entries@[k].name@ == n && is_candidate(entries@[k]);
                assert(listed(order@, k));
                let jj = choose|jj: int| 0 <= jj < order@.len() && order@[jj] == k;
                assert(is_candidate(entries@[order@[jj] as int]));
            }
        }
    }
    (names, images)
}

/// Starts a walk over the collection at `input_path`, mirrored under
/// `output_path`: the root directory is the only one waiting.
pub fn walk_filetree(input_path: &Vec<String>, output_path: &Vec<String>, opt: &Options) -> (r: Walk)
    ensures
        r.wf(),
        components_view(r.root@) == components_view(input_path@),
        r.options.same_as(opt),
        r.pending@.len() == 1,
        pending_view(r.pending@) == seq![
            PendingDirView {
                input: components_view(input_path@),
                output: components_view(output_path@),
                name: last_component(components_view(input_path@)),
                parent_ancestors: Seq::empty(),
                has_subcontent: false,
                is_root: true,
            },
        ],
{
    let name = if input_path.len() == 0 {
        String::new()
    } else {
        input_path[input_path.len() - 1].clone()
    };
    let root_dir = PendingDir {
        input: copy_strings(input_path),
        output: copy_strings(output_path),
        name,
        parent_ancestors: Vec::new(),
        has_subcontent: false,
        is_root: true,
    };
    let mut pending: Vec<PendingDir> = Vec::new();
    pending.push(root_dir);
    let r = Walk { root: copy_strings(input_path), options: opt.duplicate(), pending };
    proof {
        let rt = components_view(r.root@);
        assert(r.pending@[0]@.input.subrange(0, rt.len() as int) =~= rt);
        assert(r.pending@[0]@.parent_ancestors =~= Seq::<bool>::empty());
        assert(pending_view(r.pending@) =~= seq![r.pending@[0]@]);
    }
    r
}

/// Exclusion. An entry named exactly as one of the hidden names is never
/// descended into, whatever it holds; a directory whose name merely contains a
/// hidden name is descended into like any other.
pub proof fn lemma_exclusion_by_exact_name(entries: Seq<Entry>, hidden: Seq<String>, k: int)
    requires
        0 <= k < entries.len(),
        distinct_keys(entry_names(entries)),
    ensures
        strings_view(hidden).contains(entries[k].name@) ==> !has_subdir_named(
            entries,
            hidden,
            entries[k].name@,
        ),
        entries[k].is_dir && !strings_view(hidden).contains(entries[k].name@) ==> has_subdir_named(
            entries,
            hidden,
            entries[k].name@,
        ),
{
}

/// Empty-subtree skip. A directory that holds only files, none with an image
/// extension, is not worth visiting: nothing is planned or put on the stack for it.
pub proof fn lemma_no_images_no_visit(entries: Seq<Entry>, hidden: Seq<String>)
    requires
        forall|k: int|
            0 <= k < entries.len() ==> !(#[trigger] entries[k]).is_dir && !has_image_extension(
                entries[k].name@,
            ),
    ensures
        is_empty_dir(entries, hidden),
{
}

} // verus!
