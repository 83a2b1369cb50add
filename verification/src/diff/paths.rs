//! A table by position, in the order of the positions.
use vstd::prelude::*;

use crate::sort::{covers, ranks_before, sorted_positions, Ordered};
use crate::text::order::{
    in_order, lemma_text_le_antisymmetric, lemma_text_le_reflexive, lemma_text_le_total,
    lemma_text_le_transitive, text_le,
};
use crate::text::{chars_of, same_str};

verus! {

/// What a list of entries says of each position: the last entry of a position is
/// the one that counts.
pub open spec fn map_of<T>(entries: Seq<(String, T)>) -> Map<Seq<char>, T>
    decreases entries.len(),
{
    if entries.len() == 0 {
        Map::empty()
    } else {
        map_of(entries.drop_last()).insert(entries.last().0@, entries.last().1)
    }
}

/// What a list says of a position comes from one of its entries, and there is no
/// later one for that position.
pub proof fn lemma_map_of<T>(entries: Seq<(String, T)>, key: Seq<char>)
    ensures
        map_of(entries).contains_key(key) <==> exists|i: int|
            0 <= i < entries.len() && #[trigger] entries[i].0@ == key,
        map_of(entries).contains_key(key) ==> exists|i: int| #[trigger]
            last_entry(entries, key, i),
    decreases entries.len(),
{
    if entries.len() > 0 {
        let front = entries.drop_last();
        let n = entries.len() - 1;
        lemma_map_of(front, key);
        if entries[n].0@ == key {
            assert(last_entry(entries, key, n));
        } else {
            if map_of(front).contains_key(key) {
                let i = choose|i: int| #[trigger] last_entry(front, key, i);
                assert(front[i] == entries[i]);
                assert forall|j: int| i < j < entries.len() implies #[trigger] entries[j].0@
                    != key by {
                    if j < n {
                        assert(front[j] == entries[j]);
                    }
                }
                assert(last_entry(entries, key, i));
            }
            if exists|i: int| 0 <= i < entries.len() && #[trigger] entries[i].0@ == key {
                let i = choose|i: int| 0 <= i < entries.len() && #[trigger] entries[i].0@ == key;
                assert(front[i].0@ == key);
            }
        }
    }
}

/// The last entry of a position is at `i`, and it is what the list says.
pub open spec fn last_entry<T>(entries: Seq<(String, T)>, key: Seq<char>, i: int) -> bool {
    &&& 0 <= i < entries.len()
    &&& entries[i].0@ == key
    &&& map_of(entries)[key] == entries[i].1
    &&& forall|j: int| i < j < entries.len() ==> #[trigger] entries[j].0@ != key
}

/// What the list says of a position is what its last entry there says.
pub proof fn lemma_last_entry<T>(entries: Seq<(String, T)>, i: int)
    requires
        0 <= i < entries.len(),
        forall|j: int| i < j < entries.len() ==> #[trigger] entries[j].0@ != entries[i].0@,
    ensures
        map_of(entries).contains_key(entries[i].0@),
        map_of(entries)[entries[i].0@] == entries[i].1,
{
    let key = entries[i].0@;
    lemma_map_of(entries, key);
    let k = choose|k: int| #[trigger] last_entry(entries, key, k);
    if k < i {
        assert(entries[i].0@ != key);
    }
}

/// One text comes before another and is not the same.
pub open spec fn text_lt(a: Seq<char>, b: Seq<char>) -> bool {
    text_le(a, b) && a != b
}

/// A text ready to be put in order.
struct TextKey {
    chars: Vec<char>,
}

impl Ordered for TextKey {
    closed spec fn le(&self, other: &Self) -> bool {
        text_le(self.chars@, other.chars@)
    }

    proof fn le_total(a: &Self, b: &Self) {
        lemma_text_le_total(a.chars@, b.chars@);
    }

    proof fn le_transitive(a: &Self, b: &Self, c: &Self) {
        lemma_text_le_transitive(a.chars@, b.chars@, c.chars@);
    }

    fn is_le(&self, other: &Self) -> (r: bool) {
        in_order(&self.chars, &other.chars)
    }
}

/// A table by position. Every position stands there once, and they are kept in
/// order.
pub struct PathMap<T> {
    items: Vec<(String, T)>,
}

impl<T> PathMap<T> {
    #[verifier::type_invariant]
    spec fn ordered(&self) -> bool {
        strictly_ordered(self.items@)
    }

    /// What the table says of each position.
    pub closed spec fn view(&self) -> Map<Seq<char>, T> {
        map_of(self.items@)
    }

    /// The positions in order.
    pub closed spec fn keys(&self) -> Seq<Seq<char>> {
        Seq::new(self.items@.len(), |i: int| self.items@[i].0@)
    }
}

/// The positions of a list go up.
spec fn strictly_ordered<T>(items: Seq<(String, T)>) -> bool {
    forall|i: int, j: int|
        0 <= i < j < items.len() ==> text_lt((#[trigger] items[i]).0@, (#[trigger] items[j]).0@)
}

/// The positions of a table are listed in order, each of them once.
pub open spec fn lists<T>(keys: Seq<Seq<char>>, m: Map<Seq<char>, T>) -> bool {
    &&& forall|i: int| 0 <= i < keys.len() ==> m.contains_key(#[trigger] keys[i])
    &&& forall|k: Seq<char>| m.contains_key(k) ==> #[trigger] keys.contains(k)
    &&& forall|i: int, j: int|
        0 <= i < j < keys.len() ==> text_lt(#[trigger] keys[i], #[trigger] keys[j])
}

proof fn lemma_keys<T>(items: Seq<(String, T)>)
    requires
        strictly_ordered(items),
    ensures
        lists(Seq::new(items.len(), |i: int| items[i].0@), map_of(items)),
        forall|i: int|
            0 <= i < items.len() ==> map_of(items)[(#[trigger] items[i]).0@] == items[i].1,
{
    let keys = Seq::new(items.len(), |i: int| items[i].0@);
    assert forall|i: int| 0 <= i < items.len() implies map_of(items).contains_key(
        #[trigger] items[i].0@,
    ) && map_of(items)[items[i].0@] == items[i].1 by {
        assert forall|j: int| i < j < items.len() implies #[trigger] items[j].0@
            != items[i].0@ by {
            assert(text_lt(items[i].0@, items[j].0@));
        }
        lemma_last_entry(items, i);
    }
    assert forall|i: int| 0 <= i < keys.len() implies map_of(items).contains_key(
        #[trigger] keys[i],
    ) by {
        assert(keys[i] == items[i].0@);
    }
    assert forall|k: Seq<char>| map_of(items).contains_key(k) implies #[trigger] keys.contains(
        k,
    ) by {
        lemma_map_of(items, k);
        let i = choose|i: int| 0 <= i < items.len() && #[trigger] items[i].0@ == k;
        assert(keys[i] == k);
    }
}

/// Two entries stand in order, the later one later where they are equal.
spec fn goes_before<T>(entries: Seq<(String, T)>, a: int, b: int) -> bool {
    text_le(entries[a].0@, entries[b].0@) && (text_le(entries[b].0@, entries[a].0@) ==> a < b)
}

/// The positions of a list of numbers go up, the later entries later where they
/// are equal.
spec fn rising<T>(entries: Seq<(String, T)>, idx: Seq<usize>) -> bool {
    forall|i: int, j: int|
        0 <= i < j < idx.len() ==> goes_before(
            entries,
            #[trigger] idx[i] as int,
            #[trigger] idx[j] as int,
        )
}

/// The entries with the given numbers.
spec fn picked<T>(entries: Seq<(String, T)>, idx: Seq<usize>) -> Seq<(String, T)> {
    Seq::new(idx.len(), |i: int| entries[idx[i] as int])
}

/// Putting entries in order, with equal ones as they came, changes nothing of
/// what they say.
proof fn lemma_same_map<T>(entries: Seq<(String, T)>, idx: Seq<usize>)
    requires
        covers(idx, 0, entries.len() as int),
        entries.len() <= usize::MAX,
        rising(entries, idx),
    ensures
        map_of(picked(entries, idx)) == map_of(entries),
{
    let sorted = picked(entries, idx);
    assert forall|k: Seq<char>| #[trigger] map_of(sorted).contains_key(k) implies map_of(
        entries,
    ).contains_key(k) by {
        lemma_map_of(sorted, k);
        lemma_map_of(entries, k);
        let i = choose|i: int| 0 <= i < sorted.len() && #[trigger] sorted[i].0@ == k;
        assert(entries[idx[i] as int].0@ == k);
    }
    assert forall|k: Seq<char>| #[trigger] map_of(entries).contains_key(k) implies map_of(
        sorted,
    ).contains_key(k) && map_of(sorted)[k] == map_of(entries)[k] by {
        lemma_map_of(entries, k);
        let e = choose|e: int| #[trigger] last_entry(entries, k, e);
        assert(idx.contains(e as usize));
        let p = choose|p: int| 0 <= p < idx.len() && idx[p] == e as usize;
        assert(sorted[p] == entries[e]);
        assert forall|q: int| p < q < sorted.len() implies #[trigger] sorted[q].0@
            != sorted[p].0@ by {
            if sorted[q].0@ == sorted[p].0@ {
                assert(goes_before(entries, idx[p] as int, idx[q] as int));
                lemma_text_le_reflexive(k);
                assert(entries[idx[q] as int].0@ == k);
            }
        }
        lemma_last_entry(sorted, p);
    }
    assert(map_of(sorted) =~= map_of(entries));
}

/// One more entry that goes behind the last one.
proof fn lemma_push_ordered<T>(items: Seq<(String, T)>, e: (String, T))
    requires
        strictly_ordered(items),
        items.len() > 0,
        text_le(items.last().0@, e.0@),
        items.last().0@ != e.0@,
    ensures
        strictly_ordered(items.push(e)),
{
    let more = items.push(e);
    let last = items.len() - 1;
    assert forall|i: int, j: int| 0 <= i < j < more.len() implies text_lt(
        (#[trigger] more[i]).0@,
        (#[trigger] more[j]).0@,
    ) by {
        if j < items.len() {
            assert(text_lt(items[i].0@, items[j].0@));
        } else if i < last {
            assert(text_lt(items[i].0@, items[last].0@));
            lemma_text_le_transitive(items[i].0@, items[last].0@, e.0@);
            if items[i].0@ == e.0@ {
                lemma_text_le_antisymmetric(items[i].0@, items[last].0@);
            }
        }
    }
}

/// Another entry for the last position.
proof fn lemma_replace_ordered<T>(items: Seq<(String, T)>, e: (String, T))
    requires
        strictly_ordered(items),
        items.len() > 0,
        items.last().0@ == e.0@,
    ensures
        strictly_ordered(items.drop_last().push(e)),
{
    let more = items.drop_last().push(e);
    assert forall|i: int, j: int| 0 <= i < j < more.len() implies text_lt(
        (#[trigger] more[i]).0@,
        (#[trigger] more[j]).0@,
    ) by {
        assert(text_lt(items[i].0@, items[j].0@));
    }
}

impl<T: Copy> PathMap<T> {
    /// The table of a list of entries. Where a position occurs more than once,
    /// the last entry counts.
    pub fn new(entries: &Vec<(String, T)>) -> (r: Self)
        ensures
            r@ == map_of(entries@),
    {
        let n: usize = entries.len();
        let mut keys: Vec<TextKey> = Vec::new();
        for i in 0..n
            invariant
                n == entries@.len(),
                keys@.len() == i,
                forall|k: int| 0 <= k < i ==> (#[trigger] keys@[k]).chars@ == entries@[k].0@,
        {
            keys.push(TextKey { chars: chars_of(&entries[i].0) });
        }
        let idx = sorted_positions(&keys);
        assert(rising(entries@, idx@)) by {
            assert forall|i: int, j: int| 0 <= i < j < idx@.len() implies goes_before(
                entries@,
                #[trigger] idx@[i] as int,
                #[trigger] idx@[j] as int,
            ) by {
                assert(ranks_before(keys@, idx@[i] as int, idx@[j] as int));
                assert(keys@[idx@[i] as int].chars@ == entries@[idx@[i] as int].0@);
                assert(keys@[idx@[j] as int].chars@ == entries@[idx@[j] as int].0@);
            }
        }
        let ghost sorted = picked(entries@, idx@);
        proof {
            lemma_same_map(entries@, idx@);
        }
        let mut items: Vec<(String, T)> = Vec::new();
        for t in 0..n
            invariant
                n == entries@.len(),
                covers(idx@, 0, n as int),
                sorted == picked(entries@, idx@),
                rising(entries@, idx@),
                t > 0 ==> items@.len() > 0 && items@.last().0@ == sorted[t - 1].0@,
                t == 0 ==> items@.len() == 0,
                strictly_ordered(items@),
                map_of(items@) == map_of(sorted.take(t as int)),
        {
            let at: usize = idx[t];
            let m: usize = items.len();
            let ghost before = items@;
            assert(sorted.take(t as int + 1).drop_last() =~= sorted.take(t as int));
            assert(sorted[t as int] == entries@[at as int]);
            let again = m > 0 && same_str(&items[m - 1].0, &entries[at].0);
            if again {
                let _ = items.pop();
                assert(items@ =~= before.drop_last());
            }
            items.push((entries[at].0.clone(), entries[at].1));
            proof {
                assert(items@.last() == entries@[at as int]);
                if m > 0 && !again {
                    assert(goes_before(entries@, idx@[t - 1] as int, idx@[t as int] as int));
                    lemma_push_ordered(before, items@.last());
                    assert(items@ =~= before.push(items@.last()));
                    assert(items@.drop_last() =~= before);
                } else if again {
                    lemma_replace_ordered(before, items@.last());
                    assert(items@ =~= before.drop_last().push(items@.last()));
                    assert(items@.drop_last() =~= before.drop_last());
                    assert(map_of(items@) =~= map_of(before).insert(
                        items@.last().0@,
                        items@.last().1,
                    ));
                } else {
                    assert(items@.drop_last() =~= before);
                }
            }
        }
        assert(sorted.take(n as int) =~= sorted);
        PathMap { items }
    }

    /// How many positions the table has.
    pub fn len(&self) -> (r: usize)
        ensures
            r == self.keys().len(),
            lists(self.keys(), self@),
    {
        proof {
            use_type_invariant(self);
            lemma_keys(self.items@);
        }
        self.items.len()
    }

    /// The position with the given number.
    pub fn key_at(&self, i: usize) -> (r: &String)
        requires
            i < self.keys().len(),
        ensures
            r@ == self.keys()[i as int],
            lists(self.keys(), self@),
    {
        proof {
            use_type_invariant(self);
            lemma_keys(self.items@);
        }
        &self.items[i].0
    }

    /// What the table says of the position with the given number.
    pub fn value_at(&self, i: usize) -> (r: T)
        requires
            i < self.keys().len(),
        ensures
            r == self@[self.keys()[i as int]],
            lists(self.keys(), self@),
    {
        proof {
            use_type_invariant(self);
            lemma_keys(self.items@);
        }
        self.items[i].1
    }

    /// The number of a position, where the table has it.
    pub fn find(&self, key: &str) -> (r: Option<usize>)
        ensures
            lists(self.keys(), self@),
            match r {
                Some(i) => i < self.keys().len() && self.keys()[i as int] == key@,
                None => !self@.contains_key(key@),
            },
    {
        proof {
            use_type_invariant(self);
            lemma_keys(self.items@);
        }
        let want = chars_of(key);
        let ghost keys = self.keys();
        let mut lo: usize = 0;
        let mut hi: usize = self.items.len();
        while lo < hi
            invariant
                want@ == key@,
                keys == self.keys(),
                keys.len() == self.items@.len(),
                forall|i: int| 0 <= i < keys.len() ==> #[trigger] keys[i] == self.items@[i].0@,
                lists(keys, self@),
                lo <= hi <= keys.len(),
                forall|i: int| 0 <= i < lo ==> #[trigger] keys[i] != key@,
                forall|i: int| hi <= i < keys.len() ==> #[trigger] keys[i] != key@,
            decreases hi - lo,
        {
            let mid: usize = lo + (hi - lo) / 2;
            let here = chars_of(&self.items[mid].0);
            if crate::text::same(&here, &want) {
                return Some(mid);
            }
            if in_order(&here, &want) {
                proof {
                    assert forall|i: int| 0 <= i < mid + 1 implies #[trigger] keys[i] != key@ by {
                        if i < mid && keys[i] == key@ {
                            assert(text_lt(keys[i], keys[mid as int]));
                            lemma_text_le_antisymmetric(keys[i], keys[mid as int]);
                        }
                    }
                }
                lo = mid + 1;
            } else {
                proof {
                    assert forall|i: int| mid <= i < keys.len() implies #[trigger] keys[i]
                        != key@ by {
                        if i > mid && keys[i] == key@ {
                            assert(text_lt(keys[mid as int], keys[i]));
                        }
                    }
                }
                hi = mid;
            }
        }
        assert(!self@.contains_key(key@)) by {
            if self@.contains_key(key@) {
                assert(keys.contains(key@));
            }
        }
        None
    }

    /// What the table says of a position, where it has it.
    pub fn get(&self, key: &str) -> (r: Option<T>)
        ensures
            r == (if self@.contains_key(key@) {
                Some(self@[key@])
            } else {
                None
            }),
    {
        match self.find(key) {
            Some(i) => Some(self.value_at(i)),
            None => None,
        }
    }
}

/// A list of entries says of a position what its last entry says, and nothing of a
/// position without one.
pub proof fn law_the_last_entry_counts<T>(
    before: Seq<(String, T)>,
    entry: (String, T),
    after: Seq<(String, T)>,
)
    requires
        forall|i: int| 0 <= i < after.len() ==> (#[trigger] after[i]).0@ != entry.0@,
    ensures
        map_of(before + seq![entry] + after).contains_key(entry.0@),
        map_of(before + seq![entry] + after)[entry.0@] == entry.1,
        !map_of(after).contains_key(entry.0@),
    decreases after.len(),
{
    let all = before + seq![entry] + after;
    if after.len() == 0 {
        assert(all.last() == entry);
    } else {
        let less = after.drop_last();
        assert(all.last() == after[after.len() - 1]);
        assert(all.drop_last() =~= before + seq![entry] + less);
        assert forall|i: int| 0 <= i < less.len() implies (#[trigger] less[i]).0@ != entry.0@ by {
            assert(less[i] == after[i]);
        }
        law_the_last_entry_counts(before, entry, less);
        assert(after.last() == after[after.len() - 1]);
    }
}

} // verus!
