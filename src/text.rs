//! Decimal rendering and the lines of the progress tree.
use vstd::prelude::*;

verus! {

/// The character content of each string.
pub open spec fn strings_view(s: Seq<String>) -> Seq<Seq<char>> {
    s.map_values(|t: String| t@)
}

/// The ASCII digit for a value below ten.
pub open spec fn digit_char(d: nat) -> char {
    if d == 0 {
        '0'
    } else if d == 1 {
        '1'
    } else if d == 2 {
        '2'
    } else if d == 3 {
        '3'
    } else if d == 4 {
        '4'
    } else if d == 5 {
        '5'
    } else if d == 6 {
        '6'
    } else if d == 7 {
        '7'
    } else if d == 8 {
        '8'
    } else {
        '9'
    }
}

/// Base-ten digits of `n`, most significant first, with no leading zeros.
pub open spec fn decimal(n: nat) -> Seq<char>
    decreases n,
{
    if n < 10 {
        seq![digit_char(n)]
    } else {
        decimal(n / 10) + seq![digit_char(n % 10)]
    }
}

/// `n` in base ten, padded with zeros to at least two digits.
pub open spec fn decimal2(n: nat) -> Seq<char> {
    if n < 10 {
        seq!['0'] + decimal(n)
    } else {
        decimal(n)
    }
}

/// The six-column field in front of a tree line: a `done/total` counter, or blanks.
pub open spec fn progress_field(progress: Option<(u32, u32)>) -> Seq<char> {
    match progress {
        Some(p) => decimal2(p.0 as nat) + seq!['/'] + decimal2(p.1 as nat) + seq![' '],
        None => "      "@,
    }
}

/// The indentation of a tree line: one four-column segment per ancestor level,
/// with a vertical bar where that ancestor still has siblings to come.
pub open spec fn indent(ancestor_at_end: Seq<bool>) -> Seq<char>
    decreases ancestor_at_end.len(),
{
    if ancestor_at_end.len() == 0 {
        Seq::empty()
    } else {
        indent(ancestor_at_end.drop_last()) + (if ancestor_at_end.last() {
            "│   "@
        } else {
            "    "@
        })
    }
}

/// The branch drawn before an item: a tee when more items follow, an elbow for the last.
pub open spec fn branch(has_subcontent: bool) -> Seq<char> {
    if has_subcontent {
        "├── "@
    } else {
        "└── "@
    }
}

/// A full line of the progress tree.
pub open spec fn tree_line_spec(
    progress: Option<(u32, u32)>,
    ancestor_at_end: Seq<bool>,
    has_subcontent: bool,
    suffix: Seq<char>,
) -> Seq<char> {
    progress_field(progress) + indent(ancestor_at_end) + branch(has_subcontent) + suffix
}

/// A copy of each string, in order.
pub fn copy_strings(v: &Vec<String>) -> (r: Vec<String>)
    ensures
        strings_view(r@) == strings_view(v@),
{
    let mut r: Vec<String> = Vec::new();
    let mut i: usize = 0;
    while i < v.len()
        invariant
            i <= v.len(),
            strings_view(r@) == strings_view(v@.subrange(0, i as int)),
        decreases v.len() - i,
    {
        let ghost before = r@;
        let c = v[i].clone();
        r.push(c);
        assert(r@ == before.push(c));
        assert(strings_view(r@) =~= strings_view(before).push(c@));
        assert(strings_view(r@) =~= strings_view(v@.subrange(0, i + 1)));
        i = i + 1;
    }
    assert(v@.subrange(0, i as int) =~= v@);
    r
}

/// Whether `name` is one of `list`.
pub fn contains_string(list: &Vec<String>, name: &str) -> (r: bool)
    ensures
        r == strings_view(list@).contains(name@),
{
    let target = name.to_owned();
    let mut i: usize = 0;
    while i < list.len()
        invariant
            i <= list.len(),
            target@ == name@,
            forall|j: int| 0 <= j < i ==> list@[j]@ != name@,
        decreases list.len() - i,
    {
        if list[i] == target {
            assert(strings_view(list@)[i as int] == name@);
            return true;
        }
        i = i + 1;
    }
    assert(!strings_view(list@).contains(name@)) by {
        if strings_view(list@).contains(name@) {
            let k = choose|k: int| 0 <= k < strings_view(list@).len() && strings_view(list@)[k]
                == name@;
            assert(list@[k]@ == name@);
        }
    }
    false
}

/// The line that reports a manifest written, indented to the directory's depth.
pub open spec fn manifest_notice_spec(ancestor_at_end: Seq<bool>, manifest_name: Seq<char>) -> Seq<
    char,
> {
    "      "@ + indent(ancestor_at_end) + "{meta: "@ + manifest_name + "}"@
}

/// The line that reports a manifest written, indented to the directory's depth.
pub fn manifest_notice(ancestor_at_end: &Vec<bool>, manifest_name: &str) -> (r: String)
    ensures
        r@ == manifest_notice_spec(ancestor_at_end@, manifest_name@),
{
    let mut s = String::new();
    s.append("      ");
    let prefix = tree_prefix(ancestor_at_end);
    s.append(prefix.as_str());
    s.append("{meta: ");
    s.append(manifest_name);
    s.append("}");
    s
}

fn digit_str(d: u64) -> (r: &'static str)
    requires
        d < 10,
    ensures
        r@ == seq![digit_char(d as nat)],
{
    proof {
        reveal_strlit("0");
        reveal_strlit("1");
        reveal_strlit("2");
        reveal_strlit("3");
        reveal_strlit("4");
        reveal_strlit("5");
        reveal_strlit("6");
        reveal_strlit("7");
        reveal_strlit("8");
        reveal_strlit("9");
    }
    if d == 0 {
        let r = "0";
        assert(r@ =~= seq!['0']);
        r
    } else if d == 1 {
        let r = "1";
        assert(r@ =~= seq!['1']);
        r
    } else if d == 2 {
        let r = "2";
        assert(r@ =~= seq!['2']);
        r
    } else if d == 3 {
        let r = "3";
        assert(r@ =~= seq!['3']);
        r
    } else if d == 4 {
        let r = "4";
        assert(r@ =~= seq!['4']);
        r
    } else if d == 5 {
        let r = "5";
        assert(r@ =~= seq!['5']);
        r
    } else if d == 6 {
        let r = "6";
        assert(r@ =~= seq!['6']);
        r
    } else if d == 7 {
        let r = "7";
        assert(r@ =~= seq!['7']);
        r
    } else if d == 8 {
        let r = "8";
        assert(r@ =~= seq!['8']);
        r
    } else {
        let r = "9";
        assert(r@ =~= seq!['9']);
        r
    }
}

/// Appends the base-ten digits of `n` to `s`.
pub fn push_decimal(s: &mut String, n: u64)
    ensures
        final(s)@ == old(s)@ + decimal(n as nat),
    decreases n,
{
    if n >= 10 {
        push_decimal(s, n / 10);
    }
    s.append(digit_str(n % 10));
    proof {
        if n >= 10 {
            assert(final(s)@ =~= old(s)@ + decimal(n as nat));
        } else {
            assert(final(s)@ =~= old(s)@ + decimal(n as nat));
        }
    }
}

/// Appends `n` in base ten, padded with zeros to two digits.
fn push_decimal2(s: &mut String, n: u64)
    ensures
        final(s)@ == old(s)@ + decimal2(n as nat),
{
    if n < 10 {
        s.append("0");
        proof {
            reveal_strlit("0");
        }
        assert(s@ =~= old(s)@ + seq!['0']);
    }
    push_decimal(s, n);
    assert(s@ =~= old(s)@ + decimal2(n as nat));
}

/// The indentation for a tree line at the depth that `ancestor_at_end` records.
pub fn tree_prefix(ancestor_at_end: &Vec<bool>) -> (r: String)
    ensures
        r@ == indent(ancestor_at_end@),
{
    let mut s = String::new();
    let mut i: usize = 0;
    while i < ancestor_at_end.len()
        invariant
            i <= ancestor_at_end.len(),
            s@ == indent(ancestor_at_end@.subrange(0, i as int)),
        decreases ancestor_at_end.len() - i,
    {
        if ancestor_at_end[i] {
            s.append("│   ");
        } else {
            s.append("    ");
        }
        proof {
            let next = ancestor_at_end@.subrange(0, i + 1);
            assert(next.drop_last() =~= ancestor_at_end@.subrange(0, i as int));
        }
        i = i + 1;
    }
    assert(ancestor_at_end@.subrange(0, i as int) =~= ancestor_at_end@);
    s
}

/// One line of the progress tree: the counter field, the indentation, the
/// branch, and the item's text.
pub fn tree_line(
    progress: Option<(u32, u32)>,
    ancestor_at_end: &Vec<bool>,
    has_subcontent: bool,
    suffix: &str,
) -> (r: String)
    ensures
        r@ == tree_line_spec(progress, ancestor_at_end@, has_subcontent, suffix@),
{
    let mut s = String::new();
    match progress {
        Some(p) => {
            push_decimal2(&mut s, p.0 as u64);
            s.append("/");
            push_decimal2(&mut s, p.1 as u64);
            s.append(" ");
            proof {
                reveal_strlit("/");
                reveal_strlit(" ");
            }
        },
        None => {
            s.append("      ");
        },
    }
    assert(s@ =~= progress_field(progress));
    let prefix = tree_prefix(ancestor_at_end);
    s.append(prefix.as_str());
    if has_subcontent {
        s.append("├── ");
    } else {
        s.append("└── ");
    }
    s.append(suffix);
    s
}

} // verus!
