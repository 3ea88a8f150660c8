//! Lexicographic order on texts and a stable sort by text keys.
//!
//! Texts compare character by character by code point, a proper prefix
//! first; this is the order of `String`'s `Ord`, since UTF-8 preserves
//! code-point order byte by byte.

use crate::text::strings_view;
use vstd::prelude::*;

verus! {

/// `a` sorts strictly before `b`.
pub open spec fn text_lt(a: Seq<char>, b: Seq<char>) -> bool
    decreases a.len(),
{
    if a.len() == 0 {
        b.len() > 0
    } else if b.len() == 0 {
        false
    } else if a[0] != b[0] {
        a[0] < b[0]
    } else {
        text_lt(a.skip(1), b.skip(1))
    }
}

pub proof fn lemma_text_lt_irreflexive(a: Seq<char>)
    ensures
        !text_lt(a, a),
    decreases a.len(),
{
    if a.len() > 0 {
        lemma_text_lt_irreflexive(a.skip(1));
    }
}

pub proof fn lemma_text_lt_transitive(a: Seq<char>, b: Seq<char>, c: Seq<char>)
    requires
        text_lt(a, b),
        text_lt(b, c),
    ensures
        text_lt(a, c),
    decreases a.len(),
{
    if a.len() > 0 && b.len() > 0 && c.len() > 0 {
        if a[0] == b[0] && b[0] == c[0] {
            lemma_text_lt_transitive(a.skip(1), b.skip(1), c.skip(1));
        }
    }
}

pub proof fn lemma_text_lt_total(a: Seq<char>, b: Seq<char>)
    ensures
        a == b || text_lt(a, b) || text_lt(b, a),
    decreases a.len(),
{
    if a.len() > 0 && b.len() > 0 && a[0] == b[0] {
        lemma_text_lt_total(a.skip(1), b.skip(1));
        if a.skip(1) == b.skip(1) {
            assert(a =~= seq![a[0]] + a.skip(1));
            assert(b =~= seq![b[0]] + b.skip(1));
        }
    } else if a.len() == 0 && b.len() == 0 {
        assert(a =~= b);
    }
}

/// `text_lt` of two strings.
pub fn text_less(a: &str, b: &str) -> (r: bool)
    ensures
        r == text_lt(a@, b@),
{
    let x = crate::text::chars_of(a);
    let y = crate::text::chars_of(b);
    let mut i: usize = 0;
    assert(x@.skip(0) =~= x@ && y@.skip(0) =~= y@);
    while i < x.len() && i < y.len() && x[i] == y[i]
        invariant
            x@ == a@,
            y@ == b@,
            0 <= i <= x.len(),
            i <= y.len(),
            text_lt(a@, b@) == text_lt(x@.skip(i as int), y@.skip(i as int)),
        decreases x.len() - i,
    {
        assert(x@.skip(i as int).skip(1) =~= x@.skip(i + 1));
        assert(y@.skip(i as int).skip(1) =~= y@.skip(i + 1));
        i = i + 1;
    }
    if i == x.len() {
        i < y.len()
    } else if i == y.len() {
        false
    } else {
        x[i] < y[i]
    }
}

/// `order` lists the indices `0..n` once each.
pub open spec fn is_permutation(order: Seq<usize>, n: int) -> bool {
    &&& order.len() == n
    &&& forall|i: int| 0 <= i < order.len() ==> #[trigger] order[i] < n
    &&& forall|i: int, j: int| 0 <= i < j < order.len() ==> #[trigger] order[i] != #[trigger] order[j]
    &&& forall|a: int| 0 <= a < n ==> #[trigger] lists_index(order, a)
}

/// Some position of `order` holds `a`.
pub open spec fn lists_index(order: Seq<usize>, a: int) -> bool {
    exists|i: int| 0 <= i < order.len() && #[trigger] order[i] == a as usize
}

/// Listing `keys` in `order` gives non-decreasing keys, and equal keys keep
/// their original relative order.
pub open spec fn sorts_stably(order: Seq<usize>, keys: Seq<Seq<char>>) -> bool {
    &&& forall|i: int, j: int|
        0 <= i < j < order.len() ==> !text_lt(keys[#[trigger] order[j] as int], keys[#[trigger] order[i] as int])
    &&& forall|i: int, j: int|
        0 <= i < j < order.len() && keys[#[trigger] order[i] as int] == keys[#[trigger] order[j] as int]
            ==> order[i] < order[j]
}

/// The order that sorts `keys` stably: the indices of the keys, smallest
/// key first, ties by position.
pub fn stable_order(keys: &Vec<String>) -> (r: Vec<usize>)
    ensures
        is_permutation(r@, keys@.len() as int),
        sorts_stably(r@, strings_view(keys@)),
{
    let ghost ks = strings_view(keys@);
    let mut order: Vec<usize> = Vec::new();
    let mut k: usize = 0;
    while k < keys.len()
        invariant
            0 <= k <= keys.len(),
            ks == strings_view(keys@),
            ks.len() == keys@.len(),
            order@.len() == k,
            forall|i: int| 0 <= i < order@.len() ==> #[trigger] order@[i] < k,
            forall|i: int, j: int| 0 <= i < j < order@.len() ==> #[trigger] order@[i] != #[trigger] order@[j],
            forall|a: int| 0 <= a < k ==> #[trigger] lists_index(order@, a),
            sorts_stably(order@, ks),
        decreases keys.len() - k,
    {
        // first position whose key is strictly greater than keys[k]
        let mut p: usize = 0;
        while p < order.len() && !text_less(keys[k].as_str(), keys[order[p]].as_str())
            invariant
                0 <= p <= order@.len(),
                k < keys@.len(),
                ks == strings_view(keys@),
                ks.len() == keys@.len(),
                forall|i: int| 0 <= i < order@.len() ==> #[trigger] order@[i] < k,
                forall|i: int| 0 <= i < p ==> !text_lt(ks[k as int], ks[#[trigger] order@[i] as int]),
            decreases order@.len() - p,
        {
            assert(ks[order@[p as int] as int] == keys@[order@[p as int] as int]@);
            assert(ks[k as int] == keys@[k as int]@);
            p = p + 1;
        }
        proof {
            if p < order@.len() {
                assert(ks[order@[p as int] as int] == keys@[order@[p as int] as int]@);
                assert(ks[k as int] == keys@[k as int]@);
                assert(text_lt(ks[k as int], ks[order@[p as int] as int]));
            }
        }
        let ghost old_order = order@;
        order.insert(p, k);
        proof {
            let o = order@;
            assert(o == old_order.insert(p as int, k));
            assert forall|i: int| 0 <= i < o.len() implies #[trigger] o[i] < k + 1 by {
                if i < p {
                    assert(o[i] == old_order[i]);
                } else if i > p {
                    assert(o[i] == old_order[i - 1]);
                }
            }
            assert forall|i: int, j: int| 0 <= i < j < o.len() implies #[trigger] o[i] != #[trigger] o[j] by {
                if i < p {
                    assert(o[i] == old_order[i]);
                } else if i > p {
                    assert(o[i] == old_order[i - 1]);
                }
                if j < p {
                    assert(o[j] == old_order[j]);
                } else if j > p {
                    assert(o[j] == old_order[j - 1]);
                }
            }
            assert forall|a: int| 0 <= a < k + 1 implies #[trigger] lists_index(o, a) by {
                if a == k {
                    assert(o[p as int] == k);
                } else {
                    assert(lists_index(old_order, a));
                    let i = choose|i: int| 0 <= i < old_order.len() && #[trigger] old_order[i] == a as usize;
                    if i < p {
                        assert(o[i] == old_order[i]);
                    } else {
                        assert(o[i + 1] == old_order[i]);
                    }
                }
            }
            let kk = k as int;
            assert forall|i: int, j: int| 0 <= i < j < o.len() implies !text_lt(
                ks[#[trigger] o[j] as int],
                ks[#[trigger] o[i] as int],
            ) by {
                if i < p && j < p {
                    assert(o[i] == old_order[i] && o[j] == old_order[j]);
                } else if i > p && j > p {
                    assert(o[i] == old_order[i - 1] && o[j] == old_order[j - 1]);
                } else if i < p && j > p {
                    assert(o[i] == old_order[i] && o[j] == old_order[j - 1]);
                } else if i == p {
                    // o[j] sits after the inserted key: keys[k] < keys[old[p]] <= keys[o[j]]
                    assert(o[j] == old_order[j - 1]);
                    let a = ks[kk];
                    let b = ks[old_order[p as int] as int];
                    let c = ks[old_order[j - 1] as int];
                    assert(text_lt(a, b));
                    if j - 1 > p {
                        assert(!text_lt(c, b));
                        lemma_text_lt_total(b, c);
                        if text_lt(b, c) {
                            lemma_text_lt_transitive(a, b, c);
                        }
                    }
                    if text_lt(c, a) {
                        lemma_text_lt_transitive(c, a, b);
                        if j - 1 > p {
                        } else {
                            lemma_text_lt_irreflexive(c);
                        }
                    }
                    lemma_text_lt_total(a, c);
                } else {
                    // j == p: o[i] sits before the inserted key
                    assert(o[i] == old_order[i]);
                    assert(!text_lt(ks[kk], ks[old_order[i] as int]));
                }
            }
            assert forall|i: int, j: int|
                0 <= i < j < o.len() && ks[#[trigger] o[i] as int] == ks[#[trigger] o[j] as int] implies o[i]
                < o[j] by {
                if i < p && j < p {
                    assert(o[i] == old_order[i] && o[j] == old_order[j]);
                } else if i > p && j > p {
                    assert(o[i] == old_order[i - 1] && o[j] == old_order[j - 1]);
                } else if i < p && j > p {
                    assert(o[i] == old_order[i] && o[j] == old_order[j - 1]);
                } else if i == p {
                    assert(o[j] == old_order[j - 1]);
                    let a = ks[kk];
                    let b = ks[old_order[p as int] as int];
                    let c = ks[old_order[j - 1] as int];
                    assert(text_lt(a, b));
                    if j - 1 > p {
                        assert(!text_lt(c, b));
                        lemma_text_lt_total(b, c);
                        if text_lt(b, c) {
                            lemma_text_lt_transitive(a, b, c);
                            lemma_text_lt_irreflexive(a);
                        } else {
                            lemma_text_lt_irreflexive(a);
                        }
                    } else {
                        lemma_text_lt_irreflexive(a);
                    }
                } else {
                    assert(o[i] == old_order[i]);
                }
            }
        }
        k = k + 1;
    }
    order
}

} // verus!
