//! Finding, trimming and splitting.
use vstd::prelude::*;
use vstd::slice::slice_subrange;

use super::{is_space, is_space_char, push_all, views};

verus! {

/// `p` stands in `s` at position `i`.
pub open spec fn occurs_at(s: Seq<char>, p: Seq<char>, i: int) -> bool {
    0 <= i && i + p.len() <= s.len() && s.subrange(i, i + p.len()) == p
}

/// `p` stands somewhere in `s`.
pub open spec fn contains(s: Seq<char>, p: Seq<char>) -> bool {
    exists|i: int| occurs_at(s, p, i)
}

/// The first position, from `i` on, at which `p` stands in `s`.
pub open spec fn find_from(s: Seq<char>, p: Seq<char>, i: int) -> Option<int>
    decreases s.len() - i + 1,
{
    if i < 0 || i + p.len() > s.len() {
        None
    } else if occurs_at(s, p, i) {
        Some(i)
    } else {
        find_from(s, p, i + 1)
    }
}

/// The first position at which `p` stands in `s`.
pub open spec fn find(s: Seq<char>, p: Seq<char>) -> Option<int> {
    find_from(s, p, 0)
}

/// The last position, at `i` or before it, at which `p` stands in `s`.
pub open spec fn rfind_to(s: Seq<char>, p: Seq<char>, i: int) -> Option<int>
    decreases i + 1,
{
    if i < 0 {
        None
    } else if occurs_at(s, p, i) {
        Some(i)
    } else {
        rfind_to(s, p, i - 1)
    }
}

/// The last position at which `p` stands in `s`.
pub open spec fn rfind(s: Seq<char>, p: Seq<char>) -> Option<int> {
    rfind_to(s, p, s.len() - p.len())
}

/// What the first position found means.
pub proof fn lemma_find_from(s: Seq<char>, p: Seq<char>, i: int)
    requires
        0 <= i,
    ensures
        match find_from(s, p, i) {
            Some(k) => i <= k && occurs_at(s, p, k) && forall|j: int|
                i <= j < k ==> !occurs_at(s, p, j),
            None => forall|j: int| i <= j ==> !occurs_at(s, p, j),
        },
    decreases s.len() - i + 1,
{
    if i + p.len() <= s.len() && !occurs_at(s, p, i) {
        lemma_find_from(s, p, i + 1);
    }
}

/// What the last position found means.
pub proof fn lemma_rfind_to(s: Seq<char>, p: Seq<char>, i: int)
    ensures
        match rfind_to(s, p, i) {
            Some(k) => k <= i && occurs_at(s, p, k) && forall|j: int|
                k < j <= i ==> !occurs_at(s, p, j),
            None => forall|j: int| j <= i ==> !occurs_at(s, p, j),
        },
    decreases i + 1,
{
    if i >= 0 && !occurs_at(s, p, i) {
        lemma_rfind_to(s, p, i - 1);
    }
}

/// Whether `p` stands in `s` at position `i`.
pub fn stands_at(s: &[char], p: &[char], i: usize) -> (r: bool)
    ensures
        r == occurs_at(s@, p@, i as int),
{
    if i > s.len() || p.len() > s.len() - i {
        return false;
    }
    super::same(slice_subrange(s, i, i + p.len()), p)
}

/// The first position at which `p` stands in `s`, if there is one.
pub fn find_in(s: &[char], p: &[char]) -> (r: Option<usize>)
    ensures
        match r {
            Some(i) => find(s@, p@) == Some(i as int) && i + p@.len() <= s@.len(),
            None => find(s@, p@) is None,
        },
{
    if p.len() > s.len() {
        return None;
    }
    let last: usize = s.len() - p.len();
    let mut i: usize = 0;
    while i < last
        invariant
            last == s@.len() - p@.len(),
            i <= last,
            find(s@, p@) == find_from(s@, p@, i as int),
        decreases last - i,
    {
        if stands_at(s, p, i) {
            return Some(i);
        }
        i = i + 1;
    }
    if stands_at(s, p, last) {
        Some(last)
    } else {
        assert(find_from(s@, p@, last + 1) is None);
        None
    }
}

/// The last position at which `p` stands in `s`, if there is one.
pub fn rfind_in(s: &[char], p: &[char]) -> (r: Option<usize>)
    ensures
        match r {
            Some(i) => rfind(s@, p@) == Some(i as int) && i + p@.len() <= s@.len(),
            None => rfind(s@, p@) is None,
        },
{
    if p.len() > s.len() {
        return None;
    }
    let mut i: usize = s.len() - p.len();
    while i > 0
        invariant
            p@.len() <= s@.len(),
            i <= s@.len() - p@.len(),
            rfind(s@, p@) == rfind_to(s@, p@, i as int),
        decreases i,
    {
        if stands_at(s, p, i) {
            return Some(i);
        }
        i = i - 1;
    }
    if stands_at(s, p, 0) {
        Some(0)
    } else {
        assert(rfind_to(s@, p@, -1) is None);
        None
    }
}

/// Whether `p` stands anywhere in `s`.
pub fn holds(s: &[char], p: &[char]) -> (r: bool)
    ensures
        r == contains(s@, p@),
{
    proof {
        lemma_find_from(s@, p@, 0);
    }
    match find_in(s, p) {
        Some(_) => true,
        None => {
            assert forall|i: int| !occurs_at(s@, p@, i) by {}
            false
        },
    }
}

/// Whether `s` begins with `p`.
pub fn starts_with(s: &[char], p: &[char]) -> (r: bool)
    ensures
        r == p@.is_prefix_of(s@),
{
    assert(0int + p@.len() == p@.len() as int);
    stands_at(s, p, 0)
}

/// Whether the text of a string begins with another.
pub fn str_starts_with(s: &str, p: &str) -> (r: bool)
    ensures
        r == p@.is_prefix_of(s@),
{
    let x = super::chars_of(s);
    let y = super::chars_of(p);
    starts_with(&x, &y)
}

/// The text without the white space in front.
pub open spec fn trim_start(s: Seq<char>) -> Seq<char>
    decreases s.len(),
{
    if s.len() > 0 && is_space(s.first()) {
        trim_start(s.drop_first())
    } else {
        s
    }
}

/// The text without the white space behind.
pub open spec fn trim_end(s: Seq<char>) -> Seq<char>
    decreases s.len(),
{
    if s.len() > 0 && is_space(s.last()) {
        trim_end(s.drop_last())
    } else {
        s
    }
}

/// The text without the white space around it.
pub open spec fn trim(s: Seq<char>) -> Seq<char> {
    trim_end(trim_start(s))
}

/// The slice without the white space in front.
pub fn trimmed_start(s: &[char]) -> (r: &[char])
    ensures
        r@ == trim_start(s@),
        r@.len() <= s@.len(),
{
    let mut i: usize = 0;
    assert(s@.subrange(0, s@.len() as int) =~= s@);
    while i < s.len() && is_space_char(s[i])
        invariant
            i <= s@.len(),
            trim_start(s@) == trim_start(s@.subrange(i as int, s@.len() as int)),
        decreases s@.len() - i,
    {
        let ghost rest = s@.subrange(i as int, s@.len() as int);
        assert(rest.drop_first() =~= s@.subrange(i as int + 1, s@.len() as int));
        i = i + 1;
    }
    slice_subrange(s, i, s.len())
}

/// The slice without the white space behind.
pub fn trimmed_end(s: &[char]) -> (r: &[char])
    ensures
        r@ == trim_end(s@),
        r@.len() <= s@.len(),
{
    let mut n: usize = s.len();
    assert(s@.subrange(0, s@.len() as int) =~= s@);
    while n > 0 && is_space_char(s[n - 1])
        invariant
            n <= s@.len(),
            trim_end(s@) == trim_end(s@.subrange(0, n as int)),
        decreases n,
    {
        let ghost rest = s@.subrange(0, n as int);
        assert(rest.drop_last() =~= s@.subrange(0, n as int - 1));
        n = n - 1;
    }
    slice_subrange(s, 0, n)
}

/// The slice without the white space around it.
pub fn trimmed(s: &[char]) -> (r: &[char])
    ensures
        r@ == trim(s@),
        r@.len() <= s@.len(),
{
    trimmed_end(trimmed_start(s))
}

/// The pieces between the places where `sep` stands, taken from the left.
pub open spec fn split(s: Seq<char>, sep: Seq<char>) -> Seq<Seq<char>>
    decreases s.len(),
{
    match find(s, sep) {
        Some(i) if 0 < sep.len() && 0 <= i && i + sep.len() <= s.len() => {
            seq![s.take(i)] + split(s.skip(i + sep.len()), sep)
        },
        _ => seq![s],
    }
}

/// A text always has at least one piece.
pub proof fn lemma_split_len(s: Seq<char>, sep: Seq<char>)
    ensures
        split(s, sep).len() >= 1,
    decreases s.len(),
{
    match find(s, sep) {
        Some(i) if 0 < sep.len() && 0 <= i && i + sep.len() <= s.len() => {
            lemma_split_len(s.skip(i + sep.len()), sep);
        },
        _ => {},
    }
}

/// The pieces of a slice between the places where `sep` stands.
pub fn split_on<'a>(s: &'a [char], sep: &[char]) -> (r: Vec<&'a [char]>)
    requires
        sep@.len() > 0,
    ensures
        views(r@) == split(s@, sep@),
        r@.len() >= 1,
{
    let mut out: Vec<&'a [char]> = Vec::new();
    let mut rest: &'a [char] = s;
    proof {
        lemma_split_len(s@, sep@);
    }
    assert(split(s@, sep@) =~= views(out@) + split(rest@, sep@));
    loop
        invariant
            sep@.len() > 0,
            split(s@, sep@) =~= views(out@) + split(rest@, sep@),
            split(s@, sep@).len() >= 1,
        decreases rest@.len(),
    {
        let ghost before = views(out@);
        let n: usize = rest.len();
        match find_in(rest, sep) {
            Some(i) => {
                let piece = slice_subrange(rest, 0, i);
                let ghost whole = rest@;
                proof {
                    lemma_find_from(whole, sep@, 0);
                    assert(piece@ =~= whole.take(i as int));
                }
                out.push(piece);
                rest = slice_subrange(rest, i + sep.len(), n);
                proof {
                    assert(rest@ =~= whole.skip(i + sep@.len()));
                    assert(views(out@) =~= before.push(whole.take(i as int)));
                }
            },
            None => {
                out.push(rest);
                assert(views(out@) =~= before.push(rest@));
                return out;
            },
        }
    }
}

/// A line without the carriage return that stood before its end.
pub open spec fn chomp(s: Seq<char>) -> Seq<char> {
    if s.len() > 0 && s.last() == '\r' {
        s.drop_last()
    } else {
        s
    }
}

/// The lines of a text: each ends at a line feed, or at the end of the text,
/// and a carriage return right before the line feed belongs to the ending.
pub open spec fn lines(s: Seq<char>) -> Seq<Seq<char>>
    decreases s.len(),
{
    if s.len() == 0 {
        Seq::empty()
    } else {
        match find(s, seq!['\n']) {
            Some(i) if 0 <= i < s.len() => seq![chomp(s.take(i))] + lines(s.skip(i + 1)),
            _ => seq![s],
        }
    }
}

/// The slice without a carriage return at its end.
fn chomped(s: &[char]) -> (r: &[char])
    ensures
        r@ == chomp(s@),
{
    if s.len() > 0 && s[s.len() - 1] == '\r' {
        let r = slice_subrange(s, 0, s.len() - 1);
        assert(r@ =~= s@.drop_last());
        r
    } else {
        s
    }
}

/// The lines of a slice.
pub fn lines_of<'a>(s: &'a [char]) -> (r: Vec<&'a [char]>)
    ensures
        views(r@) == lines(s@),
{
    let mut feed: Vec<char> = Vec::new();
    feed.push('\n');
    assert(feed@ =~= seq!['\n']);
    let mut out: Vec<&'a [char]> = Vec::new();
    let mut rest: &'a [char] = s;
    assert(lines(s@) =~= views(out@) + lines(rest@));
    while rest.len() > 0
        invariant
            feed@ == seq!['\n'],
            lines(s@) =~= views(out@) + lines(rest@),
        decreases rest@.len(),
    {
        let ghost before = views(out@);
        let ghost whole = rest@;
        match find_in(rest, &feed) {
            Some(i) => {
                let piece = slice_subrange(rest, 0, i);
                proof {
                    lemma_find_from(whole, feed@, 0);
                    assert(piece@ =~= whole.take(i as int));
                }
                out.push(chomped(piece));
                rest = slice_subrange(rest, i + 1, rest.len());
                proof {
                    assert(rest@ =~= whole.skip(i + 1));
                    assert(views(out@) =~= before.push(chomp(whole.take(i as int))));
                }
            },
            None => {
                out.push(rest);
                assert(views(out@) =~= before.push(whole));
                assert(lines(whole) =~= seq![whole]);
                assert(lines(s@) =~= views(out@));
                return out;
            },
        }
    }
    assert(lines(rest@) =~= Seq::<Seq<char>>::empty());
    assert(lines(s@) =~= views(out@));
    out
}

/// How many characters stand in front of the first white space.
pub open spec fn word_len(s: Seq<char>) -> nat
    decreases s.len(),
{
    if s.len() == 0 || is_space(s.first()) {
        0
    } else {
        1 + word_len(s.drop_first())
    }
}

/// The words of a text: what stands between white space, none of them empty.
pub open spec fn words(s: Seq<char>) -> Seq<Seq<char>>
    decreases s.len(),
{
    if s.len() == 0 {
        Seq::empty()
    } else if is_space(s.first()) {
        words(s.drop_first())
    } else {
        let n = word_len(s);
        if 0 < n <= s.len() {
            seq![s.take(n as int)] + words(s.skip(n as int))
        } else {
            Seq::empty()
        }
    }
}

/// The first word is not empty and no longer than the text.
proof fn lemma_word_len(s: Seq<char>)
    ensures
        word_len(s) <= s.len(),
        s.len() > 0 && !is_space(s.first()) ==> word_len(s) > 0,
    decreases s.len(),
{
    if s.len() > 0 && !is_space(s.first()) {
        lemma_word_len(s.drop_first());
    }
}

/// How many characters of a slice stand in front of the first white space.
fn word_end(s: &[char]) -> (r: usize)
    ensures
        r == word_len(s@),
        r <= s@.len(),
{
    let mut i: usize = 0;
    assert(s@.skip(0) =~= s@);
    while i < s.len() && !is_space_char(s[i])
        invariant
            i <= s@.len(),
            word_len(s@) == i + word_len(s@.skip(i as int)),
        decreases s@.len() - i,
    {
        assert(s@.skip(i as int).drop_first() =~= s@.skip(i as int + 1));
        i = i + 1;
    }
    i
}

/// The words of a slice.
pub fn words_of<'a>(s: &'a [char]) -> (r: Vec<&'a [char]>)
    ensures
        views(r@) == words(s@),
{
    let mut out: Vec<&'a [char]> = Vec::new();
    let mut rest: &'a [char] = s;
    assert(words(s@) =~= views(out@) + words(rest@));
    while rest.len() > 0
        invariant
            words(s@) =~= views(out@) + words(rest@),
        decreases rest@.len(),
    {
        let ghost before = views(out@);
        let ghost whole = rest@;
        if is_space_char(rest[0]) {
            rest = slice_subrange(rest, 1, rest.len());
            assert(rest@ =~= whole.drop_first());
        } else {
            let n: usize = word_end(rest);
            proof {
                lemma_word_len(whole);
            }
            let piece = slice_subrange(rest, 0, n);
            assert(piece@ =~= whole.take(n as int));
            out.push(piece);
            rest = slice_subrange(rest, n, rest.len());
            proof {
                assert(rest@ =~= whole.skip(n as int));
                assert(views(out@) =~= before.push(whole.take(n as int)));
            }
        }
    }
    assert(words(rest@) =~= Seq::<Seq<char>>::empty());
    assert(words(s@) =~= views(out@));
    out
}

/// Every `pat` in the text, taken from the left, replaced by `with`.
pub open spec fn replace(s: Seq<char>, pat: Seq<char>, with: Seq<char>) -> Seq<char>
    decreases s.len(),
{
    match find(s, pat) {
        Some(i) if 0 < pat.len() && 0 <= i && i + pat.len() <= s.len() => {
            s.take(i) + with + replace(s.skip(i + pat.len()), pat, with)
        },
        _ => s,
    }
}

/// The slice with every `pat` replaced by `with`.
pub fn replaced(s: &[char], pat: &[char], with: &[char]) -> (r: Vec<char>)
    requires
        pat@.len() > 0,
    ensures
        r@ == replace(s@, pat@, with@),
{
    let mut out: Vec<char> = Vec::new();
    let mut rest: &[char] = s;
    assert(replace(s@, pat@, with@) =~= out@ + replace(rest@, pat@, with@));
    loop
        invariant
            pat@.len() > 0,
            replace(s@, pat@, with@) =~= out@ + replace(rest@, pat@, with@),
        decreases rest@.len(),
    {
        let ghost whole = rest@;
        let n: usize = rest.len();
        match find_in(rest, pat) {
            Some(i) => {
                proof {
                    lemma_find_from(whole, pat@, 0);
                }
                let piece = slice_subrange(rest, 0, i);
                assert(piece@ =~= whole.take(i as int));
                push_all(&mut out, piece);
                push_all(&mut out, with);
                rest = slice_subrange(rest, i + pat.len(), n);
                assert(rest@ =~= whole.skip(i + pat@.len()));
            },
            None => {
                push_all(&mut out, rest);
                return out;
            },
        }
    }
}

/// The pieces joined by a separator.
pub open spec fn join(pieces: Seq<Seq<char>>, sep: Seq<char>) -> Seq<char>
    decreases pieces.len(),
{
    if pieces.len() == 0 {
        Seq::empty()
    } else if pieces.len() == 1 {
        pieces[0]
    } else {
        join(pieces.drop_last(), sep) + sep + pieces.last()
    }
}

/// The first place at which something stands is found, and none is found only where it
/// stands nowhere.
pub proof fn law_the_first_place_is_found(s: Seq<char>, p: Seq<char>, i: int)
    requires
        0 <= i && i + p.len() <= s.len(),
        s.subrange(i, i + p.len()) == p,
        forall|j: int| 0 <= j < i ==> #[trigger] s.subrange(j, j + p.len()) != p,
    ensures
        find(s, p) == Some(i),
        contains(s, p),
{
    lemma_find_from(s, p, 0);
    assert(occurs_at(s, p, i));
    if let Some(k) = find(s, p) {
        if k < i {
            assert(s.subrange(k, k + p.len()) != p);
        }
    }
}

/// One character is found where it first stands.
pub proof fn law_the_first_character_is_found(front: Seq<char>, c: char, back: Seq<char>)
    requires
        !front.contains(c),
    ensures
        find(front + seq![c] + back, seq![c]) == Some(front.len() as int),
        !back.contains(c) ==> rfind(front + seq![c] + back, seq![c]) == Some(front.len() as int),
        find(front, seq![c]) is None,
        rfind(front, seq![c]) is None,
{
    let s = front + seq![c] + back;
    let p = seq![c];
    let n = front.len() as int;
    assert(s.subrange(n, n + 1) =~= p);
    assert forall|j: int| 0 <= j < n implies #[trigger] s.subrange(j, j + p.len()) != p by {
        assert(s.subrange(j, j + 1)[0] == front[j]);
        assert(front.contains(front[j]));
    }
    law_the_first_place_is_found(s, p, n);
    lemma_find_from(front, p, 0);
    if let Some(k) = find(front, p) {
        assert(front.subrange(k, k + 1)[0] == front[k]);
        assert(front.contains(front[k]));
    }
    lemma_rfind_to(front, p, front.len() - 1);
    if let Some(k) = rfind(front, p) {
        assert(front.subrange(k, k + 1)[0] == front[k]);
        assert(front.contains(front[k]));
    }
    if !back.contains(c) {
        lemma_rfind_to(s, p, s.len() - 1);
        assert(occurs_at(s, p, n));
        let k = rfind(s, p)->0;
        if k > n {
            assert(s.subrange(k, k + 1)[0] == s[k]);
            assert(back[k - n - 1] == s[k]);
            assert(back.contains(back[k - n - 1]));
        }
    }
}

/// Trimming takes the white space at both ends and nothing else: what is left begins and
/// ends with something that is not white space, or is nothing.
pub proof fn law_only_white_space_is_trimmed(front: Seq<char>, core: Seq<char>, back: Seq<char>)
    requires
        forall|i: int| 0 <= i < front.len() ==> is_space(#[trigger] front[i]),
        forall|i: int| 0 <= i < back.len() ==> is_space(#[trigger] back[i]),
        core.len() > 0 ==> !is_space(core[0]) && !is_space(core[core.len() - 1]),
    ensures
        trim(front + core + back) == core,
    decreases front.len() + back.len(),
{
    let s = front + core + back;
    if core.len() == 0 {
        lemma_all_white_space(s);
    } else if front.len() > 0 {
        let less = front.drop_first();
        assert(s.first() == front[0]);
        assert(s.drop_first() =~= less + core + back);
        assert forall|i: int| 0 <= i < less.len() implies is_space(#[trigger] less[i]) by {
            assert(less[i] == front[i + 1]);
        }
        law_only_white_space_is_trimmed(less, core, back);
    } else {
        assert(s =~= core + back);
        assert(s.first() == core[0]);
        assert(trim_start(s) == s);
        lemma_trimmed_behind(core, back);
    }
}

proof fn lemma_all_white_space(s: Seq<char>)
    requires
        forall|i: int| 0 <= i < s.len() ==> is_space(#[trigger] s[i]),
    ensures
        trim(s) == Seq::<char>::empty(),
    decreases s.len(),
{
    if s.len() > 0 {
        let rest = s.drop_first();
        assert forall|i: int| 0 <= i < rest.len() implies is_space(#[trigger] rest[i]) by {
            assert(rest[i] == s[i + 1]);
        }
        lemma_all_white_space(rest);
        assert(is_space(s[0]));
    } else {
        assert(s =~= Seq::<char>::empty());
    }
}

proof fn lemma_trimmed_behind(core: Seq<char>, back: Seq<char>)
    requires
        core.len() > 0,
        !is_space(core[core.len() - 1]),
        forall|i: int| 0 <= i < back.len() ==> is_space(#[trigger] back[i]),
    ensures
        trim_end(core + back) == core,
    decreases back.len(),
{
    if back.len() > 0 {
        let less = back.drop_last();
        assert((core + back).last() == back[back.len() - 1]);
        assert((core + back).drop_last() =~= core + less);
        assert forall|i: int| 0 <= i < less.len() implies is_space(#[trigger] less[i]) by {
            assert(less[i] == back[i]);
        }
        lemma_trimmed_behind(core, less);
    } else {
        assert(core + back =~= core);
    }
}

/// A text is made of its pieces: with the separator between them again they give the
/// text.
pub proof fn law_pieces_make_up_the_text(s: Seq<char>, sep: Seq<char>)
    requires
        sep.len() > 0,
    ensures
        join(split(s, sep), sep) == s,
    decreases s.len(),
{
    lemma_find_from(s, sep, 0);
    if let Some(i) = find(s, sep) {
        let rest = s.skip(i + sep.len());
        law_pieces_make_up_the_text(rest, sep);
        lemma_split_len(rest, sep);
        lemma_join_front(s.take(i), split(rest, sep), sep);
        assert(s =~= s.take(i) + sep + rest) by {
            assert(s.subrange(i, i + sep.len()) == sep);
            assert(s =~= s.take(i) + s.subrange(i, i + sep.len()) + rest);
        }
    } else {
        assert(split(s, sep) =~= seq![s]);
    }
}

/// The first of some pieces stands in front of the others.
pub proof fn lemma_join_front(first: Seq<char>, rest: Seq<Seq<char>>, sep: Seq<char>)
    requires
        rest.len() > 0,
    ensures
        join(seq![first] + rest, sep) == first + sep + join(rest, sep),
    decreases rest.len(),
{
    let all = seq![first] + rest;
    assert(all.last() == rest.last());
    assert(all.drop_last() =~= seq![first] + rest.drop_last());
    if rest.len() == 1 {
        assert(all.drop_last() =~= seq![first]);
        assert(join(seq![first], sep) == first);
        assert(rest[0] == rest.last());
        assert(join(all, sep) =~= first + sep + join(rest, sep));
    } else {
        lemma_join_front(first, rest.drop_last(), sep);
        assert(join(all, sep) =~= first + sep + join(rest, sep));
    }
}

/// No piece of a text that is split at one character holds that character, and a text
/// without it is one piece.
pub proof fn law_a_text_is_split_at_every_place(front: Seq<char>, c: char, back: Seq<char>)
    requires
        !front.contains(c),
    ensures
        split(front, seq![c]) == seq![front],
        split(front + seq![c] + back, seq![c]) == seq![front] + split(back, seq![c]),
{
    let s = front + seq![c] + back;
    law_the_first_character_is_found(front, c, back);
    assert(s.take(front.len() as int) =~= front);
    assert(s.skip(front.len() as int + 1) =~= back);
}

/// A text goes line by line: a line ends at the first line feed, a carriage return right
/// before that belongs to it, and what follows are the other lines.
pub proof fn law_a_text_goes_line_by_line(line: Seq<char>, rest: Seq<char>)
    requires
        !line.contains('\n'),
    ensures
        line.len() > 0 ==> lines(line) == seq![line],
        line.len() == 0 || line[line.len() - 1] != '\r' ==> lines(line + seq!['\n'] + rest)
            == seq![line] + lines(rest),
        lines(line + seq!['\r', '\n'] + rest) == seq![line] + lines(rest),
        lines(Seq::empty()).len() == 0,
{
    law_the_first_character_is_found(line, '\n', rest);
    let s = line + seq!['\n'] + rest;
    assert(s.take(line.len() as int) =~= line);
    assert(s.skip(line.len() as int + 1) =~= rest);
    let long = line.push('\r');
    assert(!long.contains('\n')) by {
        if long.contains('\n') {
            let k = choose|k: int| 0 <= k < long.len() && long[k] == '\n';
            assert(line[k] == '\n');
        }
    }
    law_the_first_character_is_found(long, '\n', rest);
    let t = line + seq!['\r', '\n'] + rest;
    assert(t =~= long + seq!['\n'] + rest);
    assert(t.take(long.len() as int) =~= long);
    assert(t.skip(long.len() as int + 1) =~= rest);
    assert(long.drop_last() =~= line);
}

/// The words of a text are what stands between white space, in order.
pub proof fn law_a_text_goes_word_by_word(word: Seq<char>, space: char, rest: Seq<char>)
    requires
        word.len() > 0,
        forall|i: int| 0 <= i < word.len() ==> !is_space(#[trigger] word[i]),
        is_space(space),
    ensures
        words(word) == seq![word],
        words(word + seq![space] + rest) == seq![word] + words(rest),
        words(seq![space] + rest) == words(rest),
        words(Seq::empty()).len() == 0,
{
    let s = word + seq![space] + rest;
    lemma_word_in_front(word, seq![space] + rest);
    lemma_word_in_front(word, Seq::empty());
    assert(word + (seq![space] + rest) =~= s);
    assert(word + Seq::<char>::empty() =~= word);
    assert(s.first() == word[0]);
    assert(s.take(word.len() as int) =~= word);
    assert(s.skip(word.len() as int) =~= seq![space] + rest);
    assert(word.first() == word[0]);
    assert(word.take(word.len() as int) =~= word);
    assert(word.skip(word.len() as int) =~= Seq::<char>::empty());
    let t = seq![space] + rest;
    assert(t.first() == space);
    assert(t.drop_first() =~= rest);
    assert(words(t) == words(rest));
    assert(words(s) == seq![word] + words(t));
    assert(words(Seq::<char>::empty()) =~= Seq::<Seq<char>>::empty());
    assert(seq![word] + words(Seq::<char>::empty()) =~= seq![word]);
}

proof fn lemma_word_in_front(word: Seq<char>, back: Seq<char>)
    requires
        forall|i: int| 0 <= i < word.len() ==> !is_space(#[trigger] word[i]),
        back.len() > 0 ==> is_space(back[0]),
    ensures
        word_len(word + back) == word.len(),
    decreases word.len(),
{
    let s = word + back;
    if word.len() > 0 {
        let less = word.drop_first();
        assert(s.first() == word[0]);
        assert(s.drop_first() =~= less + back);
        assert forall|i: int| 0 <= i < less.len() implies !is_space(#[trigger] less[i]) by {
            assert(less[i] == word[i + 1]);
        }
        lemma_word_in_front(less, back);
    } else if s.len() > 0 {
        assert(s.first() == back[0]);
    }
}

/// Everything that is to be replaced is, from the front, and the rest stays.
pub proof fn law_every_place_is_replaced(
    front: Seq<char>,
    pat: Seq<char>,
    back: Seq<char>,
    with: Seq<char>,
)
    requires
        pat.len() > 0,
        forall|j: int|
            0 <= j < front.len() ==> #[trigger] (front + pat + back).subrange(j, j + pat.len())
                != pat,
    ensures
        replace(front + pat + back, pat, with) == front + with + replace(back, pat, with),
{
    let s = front + pat + back;
    let n = front.len() as int;
    assert(s.subrange(n, n + pat.len()) =~= pat);
    law_the_first_place_is_found(s, pat, n);
    assert(s.take(n) =~= front);
    assert(s.skip(n + pat.len()) =~= back);
}

/// Where there is nothing to be replaced the text stays as it is.
pub proof fn law_nothing_else_is_replaced(s: Seq<char>, pat: Seq<char>, with: Seq<char>)
    requires
        !contains(s, pat),
    ensures
        replace(s, pat, with) == s,
{
    lemma_find_from(s, pat, 0);
    if let Some(i) = find(s, pat) {
        assert(occurs_at(s, pat, i));
    }
}

} // verus!
