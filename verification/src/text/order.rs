//! The order of texts, and sorting by it.
use vstd::prelude::*;

verus! {

/// Lexicographic order by code point: a text comes before every longer text
/// that begins with it, and otherwise the first difference decides.
pub open spec fn text_le(a: Seq<char>, b: Seq<char>) -> bool
    decreases a.len(),
{
    if a.len() == 0 {
        true
    } else if b.len() == 0 {
        false
    } else if a.first() != b.first() {
        a.first() < b.first()
    } else {
        text_le(a.drop_first(), b.drop_first())
    }
}

/// Every text is in order with itself.
pub proof fn lemma_text_le_reflexive(a: Seq<char>)
    ensures
        text_le(a, a),
    decreases a.len(),
{
    if a.len() > 0 {
        lemma_text_le_reflexive(a.drop_first());
    }
}

/// Two texts are always in order one way or the other.
pub proof fn lemma_text_le_total(a: Seq<char>, b: Seq<char>)
    ensures
        text_le(a, b) || text_le(b, a),
    decreases a.len(),
{
    if a.len() > 0 && b.len() > 0 && a.first() == b.first() {
        lemma_text_le_total(a.drop_first(), b.drop_first());
    }
}

/// Only equal texts are in order both ways.
pub proof fn lemma_text_le_antisymmetric(a: Seq<char>, b: Seq<char>)
    requires
        text_le(a, b),
        text_le(b, a),
    ensures
        a == b,
    decreases a.len(),
{
    if a.len() > 0 && b.len() > 0 && a.first() == b.first() {
        lemma_text_le_antisymmetric(a.drop_first(), b.drop_first());
        assert(a =~= seq![a.first()] + a.drop_first());
        assert(b =~= seq![b.first()] + b.drop_first());
    } else {
        assert(a =~= b);
    }
}

/// The order carries over from the first two to the last two.
pub proof fn lemma_text_le_transitive(a: Seq<char>, b: Seq<char>, c: Seq<char>)
    requires
        text_le(a, b),
        text_le(b, c),
    ensures
        text_le(a, c),
    decreases a.len(),
{
    if a.len() > 0 && b.len() > 0 && c.len() > 0 && a.first() == b.first() && b.first()
        == c.first() {
        lemma_text_le_transitive(a.drop_first(), b.drop_first(), c.drop_first());
    }
}

/// Whether one text is in order before another.
pub fn in_order(a: &[char], b: &[char]) -> (r: bool)
    ensures
        r == text_le(a@, b@),
{
    let mut i: usize = 0;
    assert(a@.skip(0) =~= a@);
    assert(b@.skip(0) =~= b@);
    while i < a.len() && i < b.len()
        invariant
            i <= a@.len(),
            i <= b@.len(),
            text_le(a@, b@) == text_le(a@.skip(i as int), b@.skip(i as int)),
        decreases a@.len() - i,
    {
        let ghost x = a@.skip(i as int);
        let ghost y = b@.skip(i as int);
        assert(x.first() == a@[i as int]);
        assert(y.first() == b@[i as int]);
        if a[i] != b[i] {
            return a[i] < b[i];
        }
        assert(x.drop_first() =~= a@.skip(i as int + 1));
        assert(y.drop_first() =~= b@.skip(i as int + 1));
        i = i + 1;
    }
    i >= a.len()
}

/// The first difference decides the order: of two texts that begin alike, the one with
/// the lower character there comes first, and the one that ends there comes before the
/// other.
pub proof fn law_the_first_difference_decides(
    front: Seq<char>,
    a: char,
    b: char,
    rest_a: Seq<char>,
    rest_b: Seq<char>,
)
    requires
        a < b,
    ensures
        text_le(front + seq![a] + rest_a, front + seq![b] + rest_b),
        !text_le(front + seq![b] + rest_b, front + seq![a] + rest_a),
        text_le(front, front + seq![b] + rest_b),
        !text_le(front + seq![b] + rest_b, front),
    decreases front.len(),
{
    let x = front + seq![a] + rest_a;
    let y = front + seq![b] + rest_b;
    if front.len() == 0 {
        assert(x.first() == a);
        assert(y.first() == b);
    } else {
        let less = front.drop_first();
        assert(x.drop_first() =~= less + seq![a] + rest_a);
        assert(y.drop_first() =~= less + seq![b] + rest_b);
        assert(x.first() == front[0] && y.first() == front[0] && front.first() == front[0]);
        law_the_first_difference_decides(less, a, b, rest_a, rest_b);
    }
}

} // verus!
