//! Paths as sequences of components: prefix stripping, joining, and the
//! naming rules for images and manifests.
use vstd::prelude::*;

verus! {

/// The character content of each component.
pub open spec fn components_view(c: Seq<String>) -> Seq<Seq<char>> {
    c.map_values(|s: String| s@)
}

/// `prefix` is an initial run of `path`, component by component.
pub open spec fn is_component_prefix(prefix: Seq<Seq<char>>, path: Seq<Seq<char>>) -> bool {
    prefix.len() <= path.len() && path.subrange(0, prefix.len() as int) == prefix
}

/// The components joined with `/` between neighbours.
pub open spec fn joined(c: Seq<Seq<char>>) -> Seq<char>
    decreases c.len(),
{
    if c.len() == 0 {
        Seq::empty()
    } else if c.len() == 1 {
        c[0]
    } else {
        joined(c.drop_last()) + seq!['/'] + c.last()
    }
}

/// A file name whose extension is `jpg` or `JPG`. The extension is what follows
/// the last dot, and a name made of a dot and an extension alone has none.
pub open spec fn has_image_extension(name: Seq<char>) -> bool {
    let n = name.len();
    n > 4 && name[n - 4] == '.' && ((name[n - 3] == 'j' && name[n - 2] == 'p' && name[n - 1]
        == 'g') || (name[n - 3] == 'J' && name[n - 2] == 'P' && name[n - 1] == 'G'))
}

/// The manifest of a directory is named after the directory: `_<name>.json`.
pub open spec fn manifest_name_spec(dir_name: Seq<char>) -> Seq<char> {
    seq!['_'] + dir_name + ".json"@
}

/// Walks `iter` along `prefix`. Returns the components of `iter` that remain
/// once `prefix` is used up, or `None` where `prefix` is not an initial run of `iter`.
pub fn iter_after(iter: &Vec<String>, prefix: &Vec<String>) -> (r: Option<Vec<String>>)
    ensures
        r is Some <==> is_component_prefix(
            components_view(prefix@),
            components_view(iter@),
        ),
        r matches Some(rest) ==> components_view(rest@) == components_view(iter@).skip(
            prefix.len() as int,
        ),
{
    let ghost it = components_view(iter@);
    let ghost pre = components_view(prefix@);
    let mut i: usize = 0;
    while i < prefix.len()
        invariant
            i <= prefix.len(),
            it == components_view(iter@),
            pre == components_view(prefix@),
            i <= iter.len(),
            it.subrange(0, i as int) == pre.subrange(0, i as int),
        decreases prefix.len() - i,
    {
        if i >= iter.len() {
            return None;
        }
        if iter[i] != prefix[i] {
            proof {
                if pre.len() <= it.len() {
                    assert(it.subrange(0, pre.len() as int)[i as int] == it[i as int]);
                }
            }
            return None;
        }
        assert(it.subrange(0, i + 1) =~= it.subrange(0, i as int).push(it[i as int]));
        assert(pre.subrange(0, i + 1) =~= pre.subrange(0, i as int).push(pre[i as int]));
        i = i + 1;
    }
    assert(pre.subrange(0, i as int) =~= pre);
    let mut rest: Vec<String> = Vec::new();
    let mut j: usize = i;
    while j < iter.len()
        invariant
            i == prefix.len(),
            i <= j <= iter.len(),
            it == components_view(iter@),
            components_view(rest@) == it.subrange(i as int, j as int),
        decreases iter.len() - j,
    {
        let ghost before = rest@;
        let c = iter[j].clone();
        rest.push(c);
        assert(rest@ == before.push(c));
        assert(components_view(rest@) =~= components_view(before).push(c@));
        assert(components_view(rest@) =~= it.subrange(i as int, j + 1));
        j = j + 1;
    }
    assert(it.subrange(i as int, j as int) =~= it.skip(i as int));
    Some(rest)
}

/// `path` with the components of `base` taken off its front, or `None` where
/// `base` is not an initial run of `path`.
pub fn strip_prefix(path: &Vec<String>, base: &Vec<String>) -> (r: Option<Vec<String>>)
    ensures
        r is Some <==> is_component_prefix(components_view(base@), components_view(path@)),
        r matches Some(rest) ==> components_view(rest@) == components_view(path@).skip(
            base.len() as int,
        ),
{
    iter_after(path, base)
}

/// The components written as one relative path, separated by `/`.
pub fn join_components(c: &Vec<String>) -> (r: String)
    ensures
        r@ == joined(components_view(c@)),
{
    let ghost cv = components_view(c@);
    let mut s = String::new();
    let mut i: usize = 0;
    while i < c.len()
        invariant
            i <= c.len(),
            cv == components_view(c@),
            s@ == joined(cv.subrange(0, i as int)),
        decreases c.len() - i,
    {
        if i > 0 {
            s.append("/");
            proof {
                reveal_strlit("/");
            }
        }
        s.append(c[i].as_str());
        proof {
            let next = cv.subrange(0, i + 1);
            assert(next.drop_last() =~= cv.subrange(0, i as int));
            if i == 0 {
                assert(s@ =~= joined(next));
            } else {
                assert(s@ =~= joined(next));
            }
        }
        i = i + 1;
    }
    assert(cv.subrange(0, i as int) =~= cv);
    s
}

/// Whether a file of this name is taken as a source image.
pub fn is_image(name: &str) -> (r: bool)
    ensures
        r == has_image_extension(name@),
{
    let n = name.unicode_len();
    if n <= 4 {
        return false;
    }
    if name.get_char(n - 4) != '.' {
        return false;
    }
    let a = name.get_char(n - 3);
    let b = name.get_char(n - 2);
    let c = name.get_char(n - 1);
    (a == 'j' && b == 'p' && c == 'g') || (a == 'J' && b == 'P' && c == 'G')
}

/// The file name of the manifest written for the directory `dir_name`.
pub fn manifest_file_name(dir_name: &str) -> (r: String)
    ensures
        r@ == manifest_name_spec(dir_name@),
{
    let mut s = String::new();
    s.append("_");
    s.append(dir_name);
    s.append(".json");
    proof {
        reveal_strlit("_");
    }
    assert(s@ =~= manifest_name_spec(dir_name@));
    s
}

} // verus!
