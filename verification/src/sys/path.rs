//! Paths as text: where the last name of a path is, and what is left of the
//! path without it.
//!
//! A path has a part in front that is never taken away by going up (the volume,
//! the root) and a body of names with separators between them. Repeated
//! separators, separators at the end and names that only say "here" count for
//! nothing in the body.
use vstd::prelude::*;
use vstd::slice::slice_subrange;

use crate::text::same;

verus! {

/// What separates the names of a path.
#[derive(Debug, Clone, Copy, PartialEq, Eq, Structural)]
pub enum Separators {
    /// The slash.
    Slash,
    /// The slash and the backslash.
    Both,
    /// The backslash alone, in a path that is to be taken to the letter.
    Backslash,
}

/// A character separates names.
pub open spec fn separates(seps: Separators, c: char) -> bool {
    match seps {
        Separators::Slash => c == '/',
        Separators::Both => c == '/' || c == '\\',
        Separators::Backslash => c == '\\',
    }
}

/// Whether a character separates names.
pub fn is_separator(seps: Separators, c: char) -> (r: bool)
    ensures
        r == separates(seps, c),
{
    match seps {
        Separators::Slash => c == '/',
        Separators::Both => c == '/' || c == '\\',
        Separators::Backslash => c == '\\',
    }
}

/// Where the last separator of the body is; the body begins at `k`.
pub open spec fn last_separator(s: Seq<char>, k: int, seps: Separators) -> Option<int>
    decreases s.len(),
{
    if s.len() <= k || s.len() == 0 {
        None
    } else if separates(seps, s.last()) {
        Some(s.len() - 1)
    } else {
        last_separator(s.drop_last(), k, seps)
    }
}

/// A separator of the body lies in the body.
pub proof fn lemma_last_separator(s: Seq<char>, k: int, seps: Separators)
    ensures
        match last_separator(s, k, seps) {
            Some(i) => k <= i < s.len() && 0 <= i,
            None => true,
        },
    decreases s.len(),
{
    if s.len() > k && s.len() > 0 && !separates(seps, s.last()) {
        lemma_last_separator(s.drop_last(), k, seps);
    }
}

/// The last piece of the body: what stands after its last separator.
pub open spec fn last_piece(s: Seq<char>, k: int, seps: Separators) -> Seq<char> {
    match last_separator(s, k, seps) {
        Some(i) => s.skip(i + 1),
        None => s.skip(k),
    }
}

/// The path without the last piece of its body and the separator before it.
pub open spec fn without_piece(s: Seq<char>, k: int, seps: Separators) -> Seq<char> {
    match last_separator(s, k, seps) {
        Some(i) => s.take(i),
        None => s.take(k),
    }
}

/// A piece that names nothing: it is empty, or it only says "here". In a path
/// taken to the letter, a dot is a name.
pub open spec fn names_nothing(piece: Seq<char>, seps: Separators) -> bool {
    piece.len() == 0 || (piece == seq!['.'] && seps != Separators::Backslash)
}

/// The path without the pieces at its end that name nothing.
pub open spec fn tidy_end(s: Seq<char>, k: int, seps: Separators) -> Seq<char>
    decreases s.len(),
{
    if 0 <= k < s.len() && names_nothing(last_piece(s, k, seps), seps) {
        proof {
            lemma_last_separator(s, k, seps);
        }
        tidy_end(without_piece(s, k, seps), k, seps)
    } else {
        s
    }
}

/// Tidying takes only the end away, and never a part of what comes before the
/// body.
pub proof fn lemma_tidy_end(s: Seq<char>, k: int, seps: Separators)
    requires
        0 <= k,
    ensures
        tidy_end(s, k, seps).is_prefix_of(s),
        s.len() >= k ==> tidy_end(s, k, seps).len() >= k,
        tidy_end(s, k, seps).len() > k ==> !names_nothing(
            last_piece(tidy_end(s, k, seps), k, seps),
            seps,
        ),
    decreases s.len(),
{
    if k < s.len() && names_nothing(last_piece(s, k, seps), seps) {
        lemma_last_separator(s, k, seps);
        lemma_tidy_end(without_piece(s, k, seps), k, seps);
    }
}

/// The last name of the body, where it has one.
pub open spec fn last_name(s: Seq<char>, k: int, seps: Separators) -> Option<Seq<char>> {
    let t = tidy_end(s, k, seps);
    if t.len() > k {
        Some(last_piece(t, k, seps))
    } else {
        None
    }
}

/// The path without the last name of its body, where it has one.
pub open spec fn without_name(s: Seq<char>, k: int, seps: Separators) -> Option<Seq<char>> {
    let t = tidy_end(s, k, seps);
    if t.len() > k {
        Some(tidy_end(without_piece(t, k, seps), k, seps))
    } else {
        None
    }
}

/// Going up makes a path shorter and leaves the part before the body alone.
pub proof fn lemma_without_name(s: Seq<char>, k: int, seps: Separators)
    requires
        0 <= k <= s.len(),
    ensures
        match without_name(s, k, seps) {
            Some(p) => k <= p.len() < s.len() && p.is_prefix_of(s),
            None => true,
        },
{
    lemma_tidy_end(s, k, seps);
    let t = tidy_end(s, k, seps);
    if t.len() > k {
        lemma_last_separator(t, k, seps);
        lemma_tidy_end(without_piece(t, k, seps), k, seps);
        let p = tidy_end(without_piece(t, k, seps), k, seps);
        let w = without_piece(t, k, seps);
        assert(w.is_prefix_of(t));
        assert(p =~= s.take(p.len() as int));
    }
}

/// A path that going up gives has no pieces at its end that name nothing.
pub proof fn lemma_tidied(s: Seq<char>, k: int, seps: Separators)
    requires
        0 <= k <= s.len(),
    ensures
        without_name(s, k, seps) matches Some(p) ==> tidy_end(p, k, seps) == p && (p.len() > k
            ==> !names_nothing(last_piece(p, k, seps), seps) && !separates(seps, p.last())),
{
    lemma_tidy_end(s, k, seps);
    let t = tidy_end(s, k, seps);
    if t.len() > k {
        lemma_last_separator(t, k, seps);
        let w = without_piece(t, k, seps);
        lemma_tidy_end(w, k, seps);
        let p = tidy_end(w, k, seps);
        if p.len() > k && separates(seps, p.last()) {
            assert(last_piece(p, k, seps).len() == 0);
        }
    }
}

/// A text that can be the name of an item: it names something, and holds no
/// separator.
pub open spec fn plain_name(name: Seq<char>, seps: Separators) -> bool {
    !names_nothing(name, seps) && forall|i: int|
        0 <= i < name.len() ==> !separates(seps, #[trigger] name[i])
}

proof fn lemma_name_at_end(x: Seq<char>, k: int, seps: Separators, name: Seq<char>)
    requires
        0 <= k <= x.len(),
        forall|i: int| 0 <= i < name.len() ==> !separates(seps, #[trigger] name[i]),
    ensures
        last_separator(x + name, k, seps) == last_separator(x, k, seps),
    decreases name.len(),
{
    if name.len() == 0 {
        assert(x + name =~= x);
    } else {
        let front = name.drop_last();
        assert((x + name).drop_last() =~= x + front);
        assert((x + name).last() == name[name.len() - 1]);
        assert forall|i: int| 0 <= i < front.len() implies !separates(seps, #[trigger] front[i]) by {
            assert(front[i] == name[i]);
        }
        lemma_name_at_end(x, k, seps, front);
    }
}

/// A name behind a separator, or right where the body begins, is the last name, and the
/// path ends with it.
pub proof fn lemma_ends_with_name(x: Seq<char>, k: int, seps: Separators, name: Seq<char>)
    requires
        0 <= k <= x.len(),
        x.len() == k || separates(seps, x.last()),
        plain_name(name, seps),
    ensures
        tidy_end(x + name, k, seps) == x + name,
        last_name(x + name, k, seps) == Some(name),
        without_name(x + name, k, seps) == Some(
            tidy_end(
                if x.len() == k {
                    x
                } else {
                    x.drop_last()
                },
                k,
                seps,
            ),
        ),
{
    let u = x + name;
    lemma_name_at_end(x, k, seps, name);
    if x.len() == k {
        assert(last_separator(x, k, seps) is None);
        assert(u.skip(k) =~= name);
        assert(u.take(k) =~= x);
    } else {
        assert(last_separator(x, k, seps) == Some(x.len() - 1));
        assert(u.skip(x.len() as int) =~= name);
        assert(u.take(x.len() - 1) =~= x.drop_last());
    }
    assert(last_piece(u, k, seps) == name);
}

/// A name behind a folder is the last name there, and the folder is above it: with a
/// separator between them, or right where the body begins.
pub proof fn lemma_name_behind(p: Seq<char>, k: int, seps: Separators, between: Seq<char>, name: Seq<char>)
    requires
        0 <= k <= p.len(),
        tidy_end(p, k, seps) == p,
        plain_name(name, seps),
        between.len() == 0 && p.len() == k || between.len() == 1 && separates(seps, between[0]),
    ensures
        without_name(p + between + name, k, seps) == Some(p),
        last_name(p + between + name, k, seps) == Some(name),
        tidy_end(p + between + name, k, seps) == p + between + name,
{
    let x = p + between;
    let u = x + name;
    lemma_name_at_end(x, k, seps, name);
    if between.len() == 1 {
        assert(x.last() == between[0]);
        assert(last_separator(x, k, seps) == Some(p.len() as int));
        assert(u.skip(p.len() as int + 1) =~= name);
        assert(u.take(p.len() as int) =~= p);
    } else {
        assert(x =~= p);
        assert(last_separator(x, k, seps) is None);
        assert(u.skip(k) =~= name);
        assert(u.take(k) =~= p);
    }
    assert(last_piece(u, k, seps) == name);
    assert(without_piece(u, k, seps) == p);
    assert(tidy_end(u, k, seps) == u);
}

/// The names of the body, from the front.
pub open spec fn names(s: Seq<char>, k: int, seps: Separators) -> Seq<Seq<char>>
    decreases s.len(),
{
    if 0 <= k <= s.len() && without_name(s, k, seps) is Some {
        proof {
            lemma_without_name(s, k, seps);
        }
        names(without_name(s, k, seps)->0, k, seps).push(last_name(s, k, seps)->0)
    } else {
        Seq::empty()
    }
}

/// There is no separator in the last piece.
proof fn lemma_last_piece(s: Seq<char>, k: int, seps: Separators)
    requires
        0 <= k <= s.len(),
    ensures
        forall|i: int|
            0 <= i < last_piece(s, k, seps).len() ==> !separates(
                seps,
                #[trigger] last_piece(s, k, seps)[i],
            ),
        last_separator(s, k, seps) matches Some(i) ==> separates(seps, s[i]),
    decreases s.len(),
{
    lemma_last_separator(s, k, seps);
    if s.len() > k && !separates(seps, s.last()) {
        let front = s.drop_last();
        lemma_last_separator(front, k, seps);
        lemma_last_piece(front, k, seps);
        let piece = last_piece(s, k, seps);
        let before = last_piece(front, k, seps);
        assert(piece =~= before.push(s.last()));
        assert forall|i: int| 0 <= i < piece.len() implies !separates(seps, #[trigger] piece[i]) by {
            if i < before.len() {
                assert(piece[i] == before[i]);
            }
        }
    }
}

/// What names nothing at the end takes no part in the names.
proof fn lemma_names_tidied(s: Seq<char>, k: int, seps: Separators)
    requires
        0 <= k <= s.len(),
    ensures
        names(tidy_end(s, k, seps), k, seps) == names(s, k, seps),
{
    lemma_tidy_end(s, k, seps);
    let t = tidy_end(s, k, seps);
    assert(tidy_end(t, k, seps) == t);
}

/// The names of a body are names, each without a separator.
pub proof fn lemma_names_plain(s: Seq<char>, k: int, seps: Separators)
    requires
        0 <= k <= s.len(),
    ensures
        forall|i: int|
            0 <= i < names(s, k, seps).len() ==> plain_name(#[trigger] names(s, k, seps)[i], seps),
    decreases s.len(),
{
    let list = names(s, k, seps);
    if without_name(s, k, seps) is Some {
        lemma_without_name(s, k, seps);
        lemma_tidy_end(s, k, seps);
        let p = without_name(s, k, seps)->0;
        lemma_names_plain(p, k, seps);
        lemma_last_piece(tidy_end(s, k, seps), k, seps);
        let before = names(p, k, seps);
        assert forall|i: int| 0 <= i < list.len() implies plain_name(#[trigger] list[i], seps) by {
            if i < before.len() {
                assert(list[i] == before[i]);
            }
        }
    }
}

/// Where no name of a body holds a slash or is a dot, it makes no difference to the
/// names whether the path is taken to the letter. Unless the body begins with a
/// separator, it begins with the first name and a backslash, or is that name.
pub proof fn lemma_names_either_way(s: Seq<char>, k: int)
    requires
        0 <= k <= s.len(),
        forall|i: int|
            0 <= i < names(s, k, Separators::Backslash).len() ==> plain_name(
                #[trigger] names(s, k, Separators::Backslash)[i],
                Separators::Both,
            ),
    ensures
        names(s, k, Separators::Both) == names(s, k, Separators::Backslash),
        forall|i: int| k <= i < s.len() ==> #[trigger] s[i] != '/',
        s.len() > k && s[k] != '\\' ==> {
            let list = names(s, k, Separators::Backslash);
            list.len() > 0 && list[0].is_prefix_of(s.skip(k)) && (k + list[0].len() == s.len()
                || s[k + list[0].len()] == '\\')
        },
    decreases s.len(),
{
    let letter = Separators::Backslash;
    let both = Separators::Both;
    let list = names(s, k, letter);
    if s.len() > k {
        lemma_last_separator(s, k, letter);
        lemma_last_piece(s, k, letter);
        let piece = last_piece(s, k, letter);
        let w = without_piece(s, k, letter);
        lemma_names_tidied(w, k, letter);
        lemma_names_tidied(w, k, both);
        if piece.len() == 0 {
            assert(tidy_end(s, k, letter) == tidy_end(w, k, letter));
            assert(names(s, k, letter) == names(w, k, letter));
            lemma_names_either_way(w, k);
            assert(separates(both, s.last()));
            assert(last_separator(s, k, both) == Some(s.len() - 1));
            assert(s.skip(s.len() as int) =~= Seq::<char>::empty());
            assert(tidy_end(s, k, both) == tidy_end(w, k, both));
            assert(names(s, k, both) == names(w, k, both));
            assert forall|i: int| k <= i < s.len() implies #[trigger] s[i] != '/' by {
                if i < w.len() {
                    assert(w[i] == s[i]);
                }
            }
            if s[k] != '\\' {
                assert(w.len() > k);
                assert(w[k] == s[k]);
                assert(list[0] =~= w.skip(k).take(list[0].len() as int));
                assert(list[0] =~= s.skip(k).take(list[0].len() as int));
                if k + list[0].len() < w.len() {
                    assert(w[k + list[0].len()] == s[k + list[0].len()]);
                }
            }
        } else {
            assert(tidy_end(s, k, letter) == s);
            let before = names(w, k, letter);
            assert(list == before.push(piece));
            assert(list[list.len() - 1] == piece);
            assert forall|i: int| 0 <= i < before.len() implies plain_name(
                #[trigger] before[i],
                both,
            ) by {
                assert(list[i] == before[i]);
            }
            lemma_names_either_way(w, k);
            let x = s.take(s.len() - piece.len());
            assert(x + piece =~= s);
            lemma_name_at_end(x, k, both, piece);
            match last_separator(s, k, letter) {
                Some(i) => {
                    assert(x.last() == s[i]);
                    assert(last_separator(x, k, both) == Some(i));
                },
                None => {
                    assert(last_separator(x, k, both) is None);
                },
            }
            assert(last_separator(s, k, both) == last_separator(s, k, letter));
            assert(tidy_end(s, k, both) == s);
            assert forall|i: int| k <= i < s.len() implies #[trigger] s[i] != '/' by {
                if i < w.len() {
                    assert(w[i] == s[i]);
                } else if i >= x.len() {
                    assert(piece[i - x.len()] == s[i]);
                    assert(!separates(both, piece[i - x.len()]));
                }
            }
            if s[k] != '\\' {
                if w.len() > k {
                    assert(w[k] == s[k]);
                    assert(list[0] == before[0]);
                    assert(list[0] =~= w.skip(k).take(list[0].len() as int));
                    assert(list[0] =~= s.skip(k).take(list[0].len() as int));
                    if k + list[0].len() < w.len() {
                        assert(w[k + list[0].len()] == s[k + list[0].len()]);
                    }
                } else {
                    assert(before.len() == 0);
                    assert(piece =~= s.skip(k));
                    assert(list[0] =~= s.skip(k).take(list[0].len() as int));
                }
            }
        }
    }
}

/// Where the last separator of the body is.
fn find_last_separator(s: &[char], k: usize, seps: Separators) -> (r: Option<usize>)
    requires
        k <= s@.len(),
    ensures
        match r {
            Some(i) => last_separator(s@, k as int, seps) == Some(i as int),
            None => last_separator(s@, k as int, seps) is None,
        },
{
    let mut n: usize = s.len();
    assert(s@.take(n as int) =~= s@);
    while n > k
        invariant
            k <= n <= s@.len(),
            last_separator(s@, k as int, seps) == last_separator(s@.take(n as int), k as int, seps),
        decreases n,
    {
        let ghost front = s@.take(n as int);
        assert(front.last() == s@[n - 1]);
        if is_separator(seps, s[n - 1]) {
            return Some(n - 1);
        }
        assert(front.drop_last() =~= s@.take(n - 1));
        n = n - 1;
    }
    None
}

/// The last piece of the body, and the path without it.
fn cut_piece<'a>(s: &'a [char], k: usize, seps: Separators) -> (r: (&'a [char], &'a [char]))
    requires
        k < s@.len(),
    ensures
        r.0@ == without_piece(s@, k as int, seps),
        r.1@ == last_piece(s@, k as int, seps),
        r.0@.len() < s@.len(),
        r.0@.len() >= k,
{
    let n: usize = s.len();
    proof {
        lemma_last_separator(s@, k as int, seps);
    }
    match find_last_separator(s, k, seps) {
        Some(i) => {
            let front = slice_subrange(s, 0, i);
            let piece = slice_subrange(s, i + 1, n);
            assert(front@ =~= s@.take(i as int));
            assert(piece@ =~= s@.skip(i + 1));
            (front, piece)
        },
        None => {
            let front = slice_subrange(s, 0, k);
            let piece = slice_subrange(s, k, n);
            assert(front@ =~= s@.take(k as int));
            assert(piece@ =~= s@.skip(k as int));
            (front, piece)
        },
    }
}

/// The last piece of the body, which may be empty.
pub fn piece_behind<'a>(s: &'a [char], k: usize, seps: Separators) -> (r: &'a [char])
    requires
        k <= s@.len(),
    ensures
        r@ == last_piece(s@, k as int, seps),
{
    if k < s.len() {
        let (_, piece) = cut_piece(s, k, seps);
        piece
    } else {
        let piece = slice_subrange(s, k, k);
        assert(piece@ =~= s@.skip(k as int));
        piece
    }
}

/// Whether a piece names nothing.
fn is_nothing(piece: &[char], seps: Separators) -> (r: bool)
    ensures
        r == names_nothing(piece@, seps),
{
    if piece.len() == 0 {
        return true;
    }
    let dot: [char; 1] = ['.'];
    assert(dot@ =~= seq!['.']);
    same(piece, &dot) && !matches!(seps, Separators::Backslash)
}

/// The path without the pieces at its end that name nothing.
fn tidy<'a>(s: &'a [char], k: usize, seps: Separators) -> (r: &'a [char])
    requires
        k <= s@.len(),
    ensures
        r@ == tidy_end(s@, k as int, seps),
        k <= r@.len() <= s@.len(),
{
    let mut t: &'a [char] = s;
    while t.len() > k
        invariant
            k <= t@.len() <= s@.len(),
            tidy_end(s@, k as int, seps) == tidy_end(t@, k as int, seps),
        decreases t@.len(),
    {
        let (front, piece) = cut_piece(t, k, seps);
        if !is_nothing(piece, seps) {
            return t;
        }
        t = front;
    }
    t
}

/// The path without the last name of its body, and that name.
pub fn cut_name<'a>(s: &'a [char], k: usize, seps: Separators) -> (r: Option<
    (&'a [char], &'a [char]),
>)
    requires
        k <= s@.len(),
    ensures
        match r {
            Some((front, name)) => without_name(s@, k as int, seps) == Some(front@) && last_name(
                s@,
                k as int,
                seps,
            ) == Some(name@) && k <= front@.len() < s@.len(),
            None => without_name(s@, k as int, seps) is None && last_name(s@, k as int, seps)
                is None,
        },
{
    let t = tidy(s, k, seps);
    if t.len() > k {
        let (front, name) = cut_piece(t, k, seps);
        let up = tidy(front, k, seps);
        Some((up, name))
    } else {
        None
    }
}

/// The names of the body, from the front.
pub fn names_of<'a>(s: &'a [char], k: usize, seps: Separators) -> (r: Vec<&'a [char]>)
    requires
        k <= s@.len(),
    ensures
        crate::text::views(r@) == names(s@, k as int, seps),
    decreases s@.len(),
{
    match cut_name(s, k, seps) {
        Some((front, name)) => {
            let mut v = names_of(front, k, seps);
            let ghost before = crate::text::views(v@);
            v.push(name);
            assert(crate::text::views(v@) =~= before.push(name@));
            v
        },
        None => {
            let v: Vec<&'a [char]> = Vec::new();
            assert(crate::text::views(v@) =~= Seq::<Seq<char>>::empty());
            v
        },
    }
}

/// The texts behind a list of names and paths.
pub open spec fn pairs(v: Seq<(String, String)>) -> Seq<(Seq<char>, Seq<char>)> {
    Seq::new(v.len(), |i: int| (v[i].0@, v[i].1@))
}

/// The entries of a list in the opposite order.
pub fn reversed(v: Vec<(String, String)>) -> (r: Vec<(String, String)>)
    ensures
        r@ == v@.reverse(),
{
    let mut from = v;
    let mut out: Vec<(String, String)> = Vec::new();
    while from.len() > 0
        invariant
            out@ =~= v@.skip(from@.len() as int).reverse(),
            from@ =~= v@.take(from@.len() as int),
            from@.len() <= v@.len(),
        decreases from@.len(),
    {
        let ghost n = from@.len() as int;
        match from.pop() {
            Some(x) => {
                assert(v@.skip(n - 1) =~= seq![v@[n - 1]] + v@.skip(n));
                out.push(x);
            },
            None => {},
        }
    }
    assert(v@.skip(0) =~= v@);
    out
}

/// What separates names: the slash alone, the slash and the backslash, or the backslash
/// alone, and nothing else.
pub proof fn law_what_separates(c: char)
    ensures
        separates(Separators::Slash, c) <==> c == '/',
        separates(Separators::Backslash, c) <==> c == '\\',
        separates(Separators::Both, c) <==> separates(Separators::Slash, c) || separates(
            Separators::Backslash,
            c,
        ),
{
}

} // verus!
