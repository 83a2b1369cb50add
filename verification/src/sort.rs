//! Stable sorting by a key.
use vstd::prelude::*;

use crate::text::order::{
    in_order, lemma_text_le_antisymmetric, lemma_text_le_total, lemma_text_le_transitive, text_le,
};
use crate::text::{chars_of, lowercase, same, to_lower};

verus! {

/// Keys with a total order.
pub trait Ordered: Sized {
    /// One key may stand before another, or is equal to it in rank.
    spec fn le(&self, other: &Self) -> bool;

    /// Two keys are always in order one way or the other.
    proof fn le_total(a: &Self, b: &Self)
        ensures
            a.le(b) || b.le(a),
    ;

    /// The order carries over.
    proof fn le_transitive(a: &Self, b: &Self, c: &Self)
        requires
            a.le(b),
            b.le(c),
        ensures
            a.le(c),
    ;

    /// Whether one key may stand before another.
    fn is_le(&self, other: &Self) -> (r: bool)
        ensures
            r == self.le(other),
    ;
}

/// Position `a` comes before position `b` in the stable order of the keys:
/// by rank, and among equals by position.
pub open spec fn ranks_before<K: Ordered>(keys: Seq<K>, a: int, b: int) -> bool {
    keys[a].le(&keys[b]) && (keys[b].le(&keys[a]) ==> a < b)
}

/// The positions stand in the stable order of their keys.
pub open spec fn in_rank_order<K: Ordered>(keys: Seq<K>, idx: Seq<usize>) -> bool {
    forall|i: int, j: int|
        0 <= i < j < idx.len() ==> ranks_before(keys, #[trigger] idx[i] as int, #[trigger] idx[j] as int)
}

/// The positions from `lo` to `hi`, each of them there.
pub open spec fn covers(idx: Seq<usize>, lo: int, hi: int) -> bool {
    &&& idx.len() == hi - lo
    &&& forall|i: int| 0 <= i < idx.len() ==> lo <= #[trigger] idx[i] < hi
    &&& forall|k: usize| lo <= k < hi ==> #[trigger] idx.contains(k)
}

proof fn lemma_ranks_transitive<K: Ordered>(keys: Seq<K>, a: int, b: int, c: int)
    requires
        ranks_before(keys, a, b),
        ranks_before(keys, b, c),
    ensures
        ranks_before(keys, a, c),
{
    K::le_transitive(&keys[a], &keys[b], &keys[c]);
    if keys[c].le(&keys[a]) {
        K::le_transitive(&keys[c], &keys[a], &keys[b]);
        K::le_transitive(&keys[b], &keys[c], &keys[a]);
    }
}

/// No position comes before itself, so an ordered list repeats none.
pub proof fn lemma_rank_order_distinct<K: Ordered>(keys: Seq<K>, idx: Seq<usize>)
    requires
        in_rank_order(keys, idx),
    ensures
        idx.no_duplicates(),
{
    assert forall|i: int, j: int| 0 <= i < idx.len() && 0 <= j < idx.len() && i != j implies idx[i]
        != idx[j] by {
        K::le_total(&keys[idx[i] as int], &keys[idx[i] as int]);
        if i < j {
            assert(ranks_before(keys, idx[i] as int, idx[j] as int));
        } else {
            assert(ranks_before(keys, idx[j] as int, idx[i] as int));
        }
    }
}

/// Merges two ordered lists, where every position on the left is smaller than
/// every position on the right.
fn merge<K: Ordered>(keys: &Vec<K>, left: &Vec<usize>, right: &Vec<usize>, lo: usize, mid: usize, hi: usize) -> (r: Vec<usize>)
    requires
        lo <= mid <= hi <= keys@.len(),
        in_rank_order(keys@, left@),
        in_rank_order(keys@, right@),
        covers(left@, lo as int, mid as int),
        covers(right@, mid as int, hi as int),
    ensures
        in_rank_order(keys@, r@),
        covers(r@, lo as int, hi as int),
{
    let mut out: Vec<usize> = Vec::new();
    let mut i: usize = 0;
    let mut j: usize = 0;
    while i < left.len() || j < right.len()
        invariant
            lo <= mid <= hi <= keys@.len(),
            in_rank_order(keys@, left@),
            in_rank_order(keys@, right@),
            covers(left@, lo as int, mid as int),
            covers(right@, mid as int, hi as int),
            i <= left@.len(),
            j <= right@.len(),
            out@.len() == i + j,
            in_rank_order(keys@, out@),
            forall|k: int| 0 <= k < out@.len() ==> lo <= #[trigger] out@[k] < hi,
            forall|a: int, b: int|
                0 <= a < out@.len() && i <= b < left@.len() ==> ranks_before(
                    keys@,
                    #[trigger] out@[a] as int,
                    #[trigger] left@[b] as int,
                ),
            forall|a: int, b: int|
                0 <= a < out@.len() && j <= b < right@.len() ==> ranks_before(
                    keys@,
                    #[trigger] out@[a] as int,
                    #[trigger] right@[b] as int,
                ),
            forall|k: int| 0 <= k < i ==> out@.contains(#[trigger] left@[k]),
            forall|k: int| 0 <= k < j ==> out@.contains(#[trigger] right@[k]),
        decreases left@.len() - i + right@.len() - j,
    {
        let ghost before = out@;
        let take_left = if i >= left.len() {
            false
        } else if j >= right.len() {
            true
        } else {
            keys[left[i]].is_le(&keys[right[j]])
        };
        if take_left {
            let x: usize = left[i];
            proof {
                assert forall|b: int| j <= b < right@.len() implies ranks_before(
                    keys@,
                    x as int,
                    #[trigger] right@[b] as int,
                ) by {
                    let r0 = right@[j as int] as int;
                    assert(left@[i as int] < mid <= right@[j as int]);
                    assert(ranks_before(keys@, x as int, r0));
                    if b > j {
                        lemma_ranks_transitive(keys@, x as int, r0, right@[b] as int);
                    }
                }
            }
            out.push(x);
            i = i + 1;
        } else {
            let x: usize = right[j];
            proof {
                assert forall|b: int| i <= b < left@.len() implies ranks_before(
                    keys@,
                    x as int,
                    #[trigger] left@[b] as int,
                ) by {
                    let l0 = left@[i as int] as int;
                    K::le_total(&keys@[l0], &keys@[x as int]);
                    assert(ranks_before(keys@, x as int, l0));
                    if b > i {
                        lemma_ranks_transitive(keys@, x as int, l0, left@[b] as int);
                    }
                }
            }
            out.push(x);
            j = j + 1;
        }
        proof {
            assert forall|k: int| 0 <= k < before.len() implies out@.contains(#[trigger] before[k]) by {
                assert(out@[k] == before[k]);
            }
            assert(out@.contains(out@[before.len() as int]));
            assert forall|k: int| 0 <= k < i implies out@.contains(#[trigger] left@[k]) by {
                if before.contains(left@[k]) {
                    let w = choose|w: int| 0 <= w < before.len() && before[w] == left@[k];
                    assert(out@[w] == left@[k]);
                }
            }
            assert forall|k: int| 0 <= k < j implies out@.contains(#[trigger] right@[k]) by {
                if before.contains(right@[k]) {
                    let w = choose|w: int| 0 <= w < before.len() && before[w] == right@[k];
                    assert(out@[w] == right@[k]);
                }
            }
        }
    }
    proof {
        assert forall|k: usize| lo <= k < hi implies #[trigger] out@.contains(k) by {
            if k < mid {
                assert(left@.contains(k));
            } else {
                assert(right@.contains(k));
            }
        }
    }
    out
}

/// Orders the positions from `lo` to `hi`.
fn sort_range<K: Ordered>(keys: &Vec<K>, lo: usize, hi: usize) -> (r: Vec<usize>)
    requires
        lo <= hi <= keys@.len(),
    ensures
        in_rank_order(keys@, r@),
        covers(r@, lo as int, hi as int),
    decreases hi - lo,
{
    if hi - lo <= 1 {
        let mut out: Vec<usize> = Vec::new();
        if lo < hi {
            out.push(lo);
            assert(out@[0] == lo);
        }
        out
    } else {
        let mid: usize = lo + (hi - lo) / 2;
        let left = sort_range(keys, lo, mid);
        let right = sort_range(keys, mid, hi);
        merge(keys, &left, &right, lo, mid, hi)
    }
}

/// The positions of all keys in their stable order.
pub fn sorted_positions<K: Ordered>(keys: &Vec<K>) -> (r: Vec<usize>)
    ensures
        in_rank_order(keys@, r@),
        covers(r@, 0, keys@.len() as int),
{
    sort_range(keys, 0, keys.len())
}

/// Names in the order that the user sees in their own file manager: ignoring case
/// first, and by the exact text among those that differ only in case.
pub open spec fn name_le(a: Seq<char>, b: Seq<char>) -> bool {
    if lowercase(a) == lowercase(b) {
        text_le(a, b)
    } else {
        text_le(lowercase(a), lowercase(b))
    }
}

/// Any two names are in order one way or the other.
pub proof fn lemma_name_le_total(a: Seq<char>, b: Seq<char>)
    ensures
        name_le(a, b) || name_le(b, a),
{
    lemma_text_le_total(a, b);
    lemma_text_le_total(lowercase(a), lowercase(b));
}

/// The order of names carries over.
pub proof fn lemma_name_le_transitive(a: Seq<char>, b: Seq<char>, c: Seq<char>)
    requires
        name_le(a, b),
        name_le(b, c),
    ensures
        name_le(a, c),
{
    let (x, y, z) = (lowercase(a), lowercase(b), lowercase(c));
    if x == y && y == z {
        lemma_text_le_transitive(a, b, c);
    } else if x != y && y != z {
        lemma_text_le_transitive(x, y, z);
        if x == z {
            lemma_text_le_antisymmetric(x, y);
        }
    }
}

/// A name, ready to be put in order.
pub struct NameKey {
    /// The name ignoring case.
    lower: Vec<char>,
    /// The name as it is.
    exact: Vec<char>,
}

impl NameKey {
    #[verifier::type_invariant]
    spec fn faithful(&self) -> bool {
        self.lower@ == lowercase(self.exact@)
    }

    /// The name behind the key.
    pub closed spec fn name(&self) -> Seq<char> {
        self.exact@
    }

    /// The key of a name.
    pub fn new(name: &str) -> (r: Self)
        ensures
            r.name() == name@,
    {
        NameKey { lower: chars_of(&to_lower(name)), exact: chars_of(name) }
    }
}

impl Ordered for NameKey {
    open spec fn le(&self, other: &Self) -> bool {
        name_le(self.name(), other.name())
    }

    proof fn le_total(a: &Self, b: &Self) {
        lemma_name_le_total(a.name(), b.name());
    }

    proof fn le_transitive(a: &Self, b: &Self, c: &Self) {
        lemma_name_le_transitive(a.name(), b.name(), c.name());
    }

    fn is_le(&self, other: &Self) -> (r: bool) {
        proof {
            use_type_invariant(self);
            use_type_invariant(other);
        }
        if same(&self.lower, &other.lower) {
            in_order(&self.exact, &other.exact)
        } else {
            in_order(&self.lower, &other.lower)
        }
    }
}

/// Names stand in the order of their lower-case forms, and in their own order where those
/// are the same.
pub proof fn law_case_decides_last(a: Seq<char>, b: Seq<char>)
    ensures
        lowercase(a) != lowercase(b) && text_le(lowercase(a), lowercase(b)) ==> name_le(a, b)
            && !name_le(b, a),
        lowercase(a) == lowercase(b) && a != b && text_le(a, b) ==> name_le(a, b) && !name_le(b, a),
        name_le(a, a),
{
    if text_le(lowercase(a), lowercase(b)) && text_le(lowercase(b), lowercase(a)) {
        lemma_text_le_antisymmetric(lowercase(a), lowercase(b));
    }
    if text_le(a, b) && text_le(b, a) {
        lemma_text_le_antisymmetric(a, b);
    }
    lemma_text_le_total(a, a);
}

} // verus!
