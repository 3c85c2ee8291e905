//! The order in which directory entries are visited: names compared character
//! by character, by code point.
use vstd::prelude::*;

verus! {

/// `a` sorts strictly before `b`: at the first place where they differ, `a`
/// has the smaller character, or `a` is a proper prefix of `b`.
pub open spec fn lex_lt(a: Seq<char>, b: Seq<char>) -> bool
    decreases a.len(),
{
    if a.len() == 0 {
        b.len() > 0
    } else if b.len() == 0 {
        false
    } else if a[0] != b[0] {
        a[0] < b[0]
    } else {
        lex_lt(a.drop_first(), b.drop_first())
    }
}

/// Each key sorts strictly before the next.
pub open spec fn strictly_sorted(s: Seq<Seq<char>>) -> bool {
    forall|i: int, j: int| 0 <= i < j < s.len() ==> lex_lt(#[trigger] s[i], #[trigger] s[j])
}

pub proof fn lemma_lex_transitive(a: Seq<char>, b: Seq<char>, c: Seq<char>)
    requires
        lex_lt(a, b),
        lex_lt(b, c),
    ensures
        lex_lt(a, c),
    decreases a.len(),
{
    if a.len() > 0 && b.len() > 0 && c.len() > 0 {
        if a[0] == b[0] && b[0] == c[0] {
            lemma_lex_transitive(a.drop_first(), b.drop_first(), c.drop_first());
        }
    }
}

pub proof fn lemma_lex_total(a: Seq<char>, b: Seq<char>)
    requires
        a != b,
    ensures
        lex_lt(a, b) || lex_lt(b, a),
    decreases a.len(),
{
    if a.len() > 0 && b.len() > 0 && a[0] == b[0] {
        if a.drop_first() == b.drop_first() {
            assert(a =~= seq![a[0]] + a.drop_first());
            assert(b =~= seq![b[0]] + b.drop_first());
        }
        lemma_lex_total(a.drop_first(), b.drop_first());
    } else if a.len() == 0 && b.len() == 0 {
        assert(a =~= b);
    } else if a.len() > 0 && b.len() > 0 {
        assert(a[0] != b[0]);
    }
}

/// The characters of `s`, one by one.
pub fn chars_of(s: &str) -> (r: Vec<char>)
    ensures
        r@ == s@,
{
    let n = s.unicode_len();
    let mut r: Vec<char> = Vec::new();
    let mut i: usize = 0;
    while i < n
        invariant
            n == s@.len(),
            i <= n,
            r@ == s@.subrange(0, i as int),
        decreases n - i,
    {
        r.push(s.get_char(i));
        assert(r@ =~= s@.subrange(0, i + 1));
        i = i + 1;
    }
    assert(r@ =~= s@);
    r
}

/// Whether `a` sorts strictly before `b`.
pub fn lex_less(a: &Vec<char>, b: &Vec<char>) -> (r: bool)
    ensures
        r == lex_lt(a@, b@),
{
    let mut i: usize = 0;
    assert(a@.skip(0) =~= a@);
    assert(b@.skip(0) =~= b@);
    while i < a.len() && i < b.len()
        invariant
            i <= a.len(),
            i <= b.len(),
            lex_lt(a@, b@) == lex_lt(a@.skip(i as int), b@.skip(i as int)),
        decreases a.len() - i,
    {
        if a[i] != b[i] {
            return a[i] < b[i];
        }
        assert(a@.skip(i as int).drop_first() =~= a@.skip(i + 1));
        assert(b@.skip(i as int).drop_first() =~= b@.skip(i + 1));
        i = i + 1;
    }
    i < b.len()
}

/// The keys are pairwise different.
pub open spec fn distinct_keys(keys: Seq<Seq<char>>) -> bool {
    forall|i: int, j: int| 0 <= i < j < keys.len() ==> #[trigger] keys[i] != #[trigger] keys[j]
}

/// The keys taken in the order that `order` lists their indices.
pub open spec fn keys_in_order(keys: Seq<Vec<char>>, order: Seq<usize>) -> Seq<Seq<char>> {
    order.map_values(|k: usize| keys[k as int]@)
}

/// Index `k` appears in `order`.
pub open spec fn listed(order: Seq<usize>, k: int) -> bool {
    exists|j: int| 0 <= j < order.len() && order[j] == k
}

/// The indices of `keys`, each once, listed so that their keys ascend.
pub fn sort_indices(keys: &Vec<Vec<char>>) -> (r: Vec<usize>)
    requires
        distinct_keys(keys@.map_values(|k: Vec<char>| k@)),
    ensures
        r@.len() == keys@.len(),
        forall|j: int| 0 <= j < r@.len() ==> #[trigger] r@[j] < keys@.len(),
        forall|k: int| 0 <= k < keys@.len() ==> #[trigger] listed(r@, k),
        strictly_sorted(keys_in_order(keys@, r@)),
{
    let ghost kv = keys@.map_values(|k: Vec<char>| k@);
    let mut r: Vec<usize> = Vec::new();
    let mut k: usize = 0;
    while k < keys.len()
        invariant
            k <= keys.len(),
            kv == keys@.map_values(|k: Vec<char>| k@),
            distinct_keys(kv),
            r@.len() == k,
            forall|j: int| 0 <= j < r@.len() ==> #[trigger] r@[j] < k,
            forall|m: int| 0 <= m < k ==> #[trigger] listed(r@, m),
            strictly_sorted(keys_in_order(keys@, r@)),
        decreases keys.len() - k,
    {
        let ghost x = keys@[k as int]@;
        let ghost ks = keys_in_order(keys@, r@);
        // binary search for the number of keys placed so far that sort before key k
        let mut lo: usize = 0;
        let mut hi: usize = r.len();
        while lo < hi
            invariant
                lo <= hi <= r@.len(),
                ks == keys_in_order(keys@, r@),
                x == keys@[k as int]@,
                k < keys@.len(),
                kv == keys@.map_values(|k: Vec<char>| k@),
                distinct_keys(kv),
                forall|j: int| 0 <= j < r@.len() ==> #[trigger] r@[j] < k,
                strictly_sorted(ks),
                forall|j: int| 0 <= j < lo ==> lex_lt(#[trigger] ks[j], x),
                forall|j: int| hi <= j < r@.len() ==> lex_lt(x, #[trigger] ks[j]),
            decreases hi - lo,
        {
            let mid = lo + (hi - lo) / 2;
            let idx = r[mid];
            assert(ks[mid as int] == keys@[idx as int]@);
            assert(r@[mid as int] < k);
            assert(kv.len() == keys@.len());
            assert(kv[idx as int] != kv[k as int]);
            proof {
                lemma_lex_total(ks[mid as int], x);
            }
            if lex_less(&keys[idx], &keys[k]) {
                assert forall|j: int| 0 <= j < mid + 1 implies lex_lt(#[trigger] ks[j], x) by {
                    if j < mid {
                        lemma_lex_transitive(ks[j], ks[mid as int], x);
                    }
                }
                lo = mid + 1;
            } else {
                assert forall|j: int| mid <= j < r@.len() implies lex_lt(x, #[trigger] ks[j]) by {
                    if j > mid {
                        lemma_lex_transitive(x, ks[mid as int], ks[j]);
                    }
                }
                hi = mid;
            }
        }
        let ghost old_r = r@;
        r.insert(lo, k);
        assert(r@ == old_r.insert(lo as int, k));
        proof {
            let nks = keys_in_order(keys@, r@);
            assert(nks =~= ks.insert(lo as int, x));
            assert forall|i: int, j: int| 0 <= i < j < nks.len() implies lex_lt(
                #[trigger] nks[i],
                #[trigger] nks[j],
            ) by {
                if i < lo && j == lo {
                } else if i == lo && j > lo {
                    assert(nks[j] == ks[j - 1]);
                } else if i < lo && j > lo {
                    assert(nks[j] == ks[j - 1]);
                } else if i > lo {
                    assert(nks[i] == ks[i - 1]);
                    assert(nks[j] == ks[j - 1]);
                }
            }
            assert forall|m: int| 0 <= m < k + 1 implies #[trigger] listed(r@, m) by {
                if m == k {
                    assert(r@[lo as int] == m);
                } else {
                    assert(listed(old_r, m));
                    let j0 = choose|j: int| 0 <= j < old_r.len() && old_r[j] == m;
                    if j0 < lo {
                        assert(r@[j0] == m);
                    } else {
                        assert(r@[j0 + 1] == m);
                    }
                }
            }
        }
        k = k + 1;
    }
    r
}

} // verus!
