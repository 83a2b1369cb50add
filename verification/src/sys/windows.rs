//! Windows.
use vstd::prelude::*;

use super::path::{
    cut_name, is_separator, last_name, last_piece, last_separator, lemma_ends_with_name,
    lemma_name_behind,
    lemma_names_either_way, lemma_names_plain, lemma_tidied, lemma_tidy_end, lemma_without_name,
    names, names_of, pairs, plain_name, reversed, separates, tidy_end, without_name, Separators,
};
use crate::error::{failure_of, may_be_of, os_number, CmdError, FailureKind, IoFailure};
use crate::text::number::{decimal, decimal_string, signed_decimal, signed_string};
use crate::text::search;
use crate::text::utf16::{decoded, narrow};
use crate::text::{chars_of, join2, opt_text, push_all, reads, string_of, views};

verus! {

/// The name of this system, for the few texts whose wording depends on it.
pub const SYSTEM_NAME: &'static str = "windows";

/// A text with one character in place of another.
pub open spec fn swapped(s: Seq<char>, from: char, to: char) -> Seq<char> {
    Seq::new(
        s.len(),
        |i: int|
            if s[i] == from {
                to
            } else {
                s[i]
            },
    )
}

/// A text with one character in place of another.
fn swap(s: &str, from: char, to: char) -> (r: Vec<char>)
    ensures
        r@ == swapped(s@, from, to),
{
    let chars = chars_of(s);
    let n: usize = chars.len();
    let mut out: Vec<char> = Vec::new();
    for i in 0..n
        invariant
            n == chars@.len(),
            chars@ == s@,
            out@.len() == i,
            forall|k: int| 0 <= k < i ==> #[trigger] out@[k] == swapped(s@, from, to)[k],
    {
        let c: char = chars[i];
        if c == from {
            out.push(to);
        } else {
            out.push(c);
        }
    }
    out
}

/// A position relative to a folder, in the shared form (names separated by
/// slashes): here it is born with backslashes and is brought into shape once, at
/// birth.
pub fn rel_from_os(rel: &str) -> (r: String)
    ensures
        r@ == swapped(rel@, '\\', '/'),
{
    string_of(&swap(rel, '\\', '/'))
}

/// The volume that a path starts from.
pub struct Volume {
    /// How many characters name it.
    pub len: int,
    /// The letter of the drive, where it is a drive.
    pub letter: Option<char>,
    /// The path is to be taken to the letter.
    pub verbatim: bool,
    /// The path starts at the root of the volume even without a separator.
    pub implied_root: bool,
}

/// What separates names in a path that is not taken to the letter.
pub open spec fn slashes(c: char) -> bool {
    separates(Separators::Both, c)
}

/// A letter that a drive can have.
pub open spec fn is_drive_letter(c: char) -> bool {
    ('a' <= c <= 'z') || ('A' <= c <= 'Z')
}

/// The capital form of a letter.
pub open spec fn capital(c: char) -> char {
    if 'a' <= c <= 'z' {
        (c as u8 - 32) as u8 as char
    } else {
        c
    }
}

/// How many characters stand in front of the first separator.
pub open spec fn piece_len(s: Seq<char>, seps: Separators) -> nat
    decreases s.len(),
{
    if s.len() == 0 || separates(seps, s.first()) {
        0
    } else {
        1 + piece_len(s.drop_first(), seps)
    }
}

/// The text after the first separator.
pub open spec fn after_piece(s: Seq<char>, seps: Separators) -> Seq<char> {
    let n = piece_len(s, seps) as int;
    if n < s.len() {
        s.skip(n + 1)
    } else {
        Seq::empty()
    }
}

/// How many characters a server and a share take, with the separator between
/// them.
pub open spec fn share_len(s: Seq<char>, seps: Separators) -> int {
    let share = piece_len(after_piece(s, seps), seps) as int;
    piece_len(s, seps) + if share > 0 {
        1 + share
    } else {
        0
    }
}

/// The volume of a path taken to the letter, after its marker of four
/// characters: a share, a drive or anything else by name.
pub open spec fn verbatim_volume(s: Seq<char>) -> Volume {
    if s.len() >= 8 && s[4] == 'U' && s[5] == 'N' && s[6] == 'C' && slashes(s[7]) {
        Volume {
            len: 8 + share_len(s.skip(8), Separators::Backslash),
            letter: None,
            verbatim: true,
            implied_root: true,
        }
    } else if s.len() >= 6 && is_drive_letter(s[4]) && s[5] == ':' && (s.len() == 6 || slashes(
        s[6],
    )) {
        Volume { len: 6, letter: Some(capital(s[4])), verbatim: true, implied_root: true }
    } else {
        Volume {
            len: 4 + piece_len(s.skip(4), Separators::Backslash) as int,
            letter: None,
            verbatim: true,
            implied_root: true,
        }
    }
}

/// The volume that a path starts from, where it names one: a drive letter, a
/// share on the network, a device, or a path that is to be taken to the letter.
pub open spec fn volume(s: Seq<char>) -> Option<Volume> {
    if s.len() >= 2 && slashes(s[0]) && slashes(s[1]) {
        if s.len() >= 4 && s[0] == '\\' && s[1] == '\\' && s[2] == '?' && s[3] == '\\' {
            Some(verbatim_volume(s))
        } else if s.len() >= 4 && s[2] == '.' && slashes(s[3]) {
            Some(
                Volume {
                    len: 4 + piece_len(s.skip(4), Separators::Both) as int,
                    letter: None,
                    verbatim: false,
                    implied_root: true,
                },
            )
        } else if piece_len(s.skip(2), Separators::Both) > 0 && piece_len(
            after_piece(s.skip(2), Separators::Both),
            Separators::Both,
        ) > 0 {
            Some(
                Volume {
                    len: 2 + share_len(s.skip(2), Separators::Both),
                    letter: None,
                    verbatim: false,
                    implied_root: true,
                },
            )
        } else {
            None
        }
    } else if s.len() >= 2 && is_drive_letter(s[0]) && s[1] == ':' {
        Some(Volume { len: 2, letter: Some(capital(s[0])), verbatim: false, implied_root: false })
    } else {
        None
    }
}

/// How many characters of a path name its volume.
pub open spec fn volume_len(s: Seq<char>) -> int {
    match volume(s) {
        Some(v) => v.len,
        None => 0,
    }
}

/// What separates the names of a path.
pub open spec fn separators_of(s: Seq<char>) -> Separators {
    match volume(s) {
        Some(v) => if v.verbatim {
            Separators::Backslash
        } else {
            Separators::Both
        },
        None => Separators::Both,
    }
}

/// A separator stands right behind the volume.
pub open spec fn has_root(s: Seq<char>) -> bool {
    s.len() > volume_len(s) && slashes(s[volume_len(s)])
}

/// A dot stands right behind the volume, for the folder one is in.
pub open spec fn has_here(s: Seq<char>) -> bool {
    let n = volume_len(s);
    &&& !has_root(s) && !(volume(s) matches Some(v) && v.implied_root)
    &&& s.len() > n && s[n] == '.' && (s.len() == n + 1 || slashes(s[n + 1]))
}

/// Where the names of a path begin: behind the volume, and behind the root or
/// the dot.
pub open spec fn body_of(s: Seq<char>) -> int {
    volume_len(s) + if has_root(s) || has_here(s) {
        1int
    } else {
        0
    }
}

/// What is above a path; nothing is above the root of a volume.
pub open spec fn parent(s: Seq<char>) -> Option<Seq<char>> {
    match without_name(s, body_of(s), separators_of(s)) {
        Some(p) => Some(p),
        None => if volume(s) is None && has_here(s) {
            Some(Seq::empty())
        } else {
            None
        },
    }
}

/// The last name of a path; a step up is no name, and neither is a dot.
pub open spec fn file_name(s: Seq<char>) -> Option<Seq<char>> {
    match last_name(s, body_of(s), separators_of(s)) {
        Some(name) => if name == ".."@ || name == "."@ {
            None
        } else {
            Some(name)
        },
        None => None,
    }
}

proof fn lemma_piece_len(s: Seq<char>, seps: Separators)
    ensures
        piece_len(s, seps) <= s.len(),
        piece_len(s, seps) < s.len() ==> separates(seps, s[piece_len(s, seps) as int]),
    decreases s.len(),
{
    if s.len() > 0 && !separates(seps, s.first()) {
        lemma_piece_len(s.drop_first(), seps);
    }
}

/// A volume is part of its path.
pub proof fn lemma_volume(s: Seq<char>)
    ensures
        0 <= volume_len(s) <= s.len(),
        0 <= body_of(s) <= s.len(),
{
    if s.len() >= 8 {
        lemma_piece_len(s.skip(8), Separators::Backslash);
        lemma_piece_len(after_piece(s.skip(8), Separators::Backslash), Separators::Backslash);
    }
    if s.len() >= 4 {
        lemma_piece_len(s.skip(4), Separators::Backslash);
        lemma_piece_len(s.skip(4), Separators::Both);
    }
    if s.len() >= 2 {
        lemma_piece_len(s.skip(2), Separators::Both);
        lemma_piece_len(after_piece(s.skip(2), Separators::Both), Separators::Both);
    }
}

/// Going up makes a path shorter.
pub proof fn lemma_parent(path: Seq<char>)
    ensures
        match parent(path) {
            Some(p) => p.len() < path.len(),
            None => true,
        },
{
    lemma_volume(path);
    lemma_without_name(path, body_of(path), separators_of(path));
}

/// A path and everything above it, the path first.
pub open spec fn ancestors(path: Seq<char>) -> Seq<Seq<char>>
    decreases path.len(),
{
    proof {
        lemma_parent(path);
    }
    match parent(path) {
        Some(p) => seq![path] + ancestors(p),
        None => seq![path],
    }
}

/// A text without the backslashes at its end.
pub open spec fn without_backslashes(s: Seq<char>) -> Seq<char>
    decreases s.len(),
{
    if s.len() > 0 && s.last() == '\\' {
        without_backslashes(s.drop_last())
    } else {
        s
    }
}

/// The entry of one path in the trail: the label shown and the path to open. The
/// root of a drive reads better without its backslash.
pub open spec fn crumb(path: Seq<char>) -> (Seq<char>, Seq<char>) {
    match file_name(path) {
        Some(name) => (name, path),
        None => (without_backslashes(path), path),
    }
}

/// The trail behind a path, the volume first, the path itself last.
pub open spec fn trail(path: Seq<char>) -> Seq<(Seq<char>, Seq<char>)> {
    ancestors(path).map_values(|p: Seq<char>| crumb(p)).reverse()
}

/// The volume of a path, where it names one.
struct Start {
    /// How many characters name it.
    len: usize,
    /// The letter of the drive.
    letter: Option<char>,
    /// The path is to be taken to the letter.
    verbatim: bool,
    /// The path starts at the root of the volume in any case.
    implied_root: bool,
}

impl Start {
    /// The volume as a mathematical value.
    spec fn model(self) -> Volume {
        Volume {
            len: self.len as int,
            letter: self.letter,
            verbatim: self.verbatim,
            implied_root: self.implied_root,
        }
    }
}

/// Whether a character separates names in an ordinary path.
fn is_slash(c: char) -> (r: bool)
    ensures
        r == slashes(c),
{
    is_separator(Separators::Both, c)
}

/// Whether a drive can have this letter.
fn is_letter(c: char) -> (r: bool)
    ensures
        r == is_drive_letter(c),
{
    ('a' <= c && c <= 'z') || ('A' <= c && c <= 'Z')
}

/// The capital form of a letter.
fn to_capital(c: char) -> (r: char)
    requires
        is_drive_letter(c),
    ensures
        r == capital(c),
{
    if 'a' <= c && c <= 'z' {
        let n: u8 = c as u8;
        (n - 32) as char
    } else {
        c
    }
}

/// How many characters stand in front of the first separator.
fn first_piece(s: &[char], from: usize, seps: Separators) -> (r: usize)
    requires
        from <= s@.len(),
    ensures
        r == piece_len(s@.skip(from as int), seps),
        from + r <= s@.len(),
        from + r < s@.len() ==> separates(seps, s@[from + r]),
{
    let n: usize = s.len();
    let mut i: usize = from;
    assert(s@.skip(from as int) =~= s@.skip(i as int));
    while i < n
        invariant
            from <= i <= n,
            n == s@.len(),
            piece_len(s@.skip(from as int), seps) == i - from + piece_len(s@.skip(i as int), seps),
        decreases n - i,
    {
        assert(s@.skip(i as int).first() == s@[i as int]);
        if is_separator(seps, s[i]) {
            return i - from;
        }
        assert(s@.skip(i as int).drop_first() =~= s@.skip(i as int + 1));
        i = i + 1;
    }
    i - from
}

/// How many characters the first piece takes, and the one after it.
fn two_pieces(s: &[char], from: usize, seps: Separators) -> (r: (usize, usize))
    requires
        from <= s@.len(),
    ensures
        r.0 == piece_len(s@.skip(from as int), seps),
        r.1 == piece_len(after_piece(s@.skip(from as int), seps), seps),
        from + r.0 + (if r.1 > 0 {
            1 + r.1 as int
        } else {
            0
        }) <= s@.len(),
{
    let a: usize = first_piece(s, from, seps);
    let ghost rest = s@.skip(from as int);
    if a < s.len() - from {
        let b: usize = first_piece(s, from + a + 1, seps);
        assert(rest.skip(a as int + 1) =~= s@.skip(from + a + 1));
        (a, b)
    } else {
        assert(after_piece(rest, seps) =~= Seq::<char>::empty());
        (a, 0)
    }
}

/// The volume of a path taken to the letter.
fn verbatim_start(s: &[char]) -> (r: Start)
    requires
        s@.len() >= 4,
    ensures
        r.model() == verbatim_volume(s@),
        r.len <= s@.len(),
{
    let n: usize = s.len();
    if n >= 8 && s[4] == 'U' && s[5] == 'N' && s[6] == 'C' && is_slash(s[7]) {
        let (a, b) = two_pieces(s, 8, Separators::Backslash);
        let extra: usize = if b > 0 {
            1 + b
        } else {
            0
        };
        Start { len: 8 + a + extra, letter: None, verbatim: true, implied_root: true }
    } else if n >= 6 && is_letter(s[4]) && s[5] == ':' && (n == 6 || is_slash(s[6])) {
        Start { len: 6, letter: Some(to_capital(s[4])), verbatim: true, implied_root: true }
    } else {
        let a: usize = first_piece(s, 4, Separators::Backslash);
        Start { len: 4 + a, letter: None, verbatim: true, implied_root: true }
    }
}

/// The volume of a path.
fn start_of(s: &[char]) -> (r: Option<Start>)
    ensures
        match r {
            Some(v) => volume(s@) == Some(v.model()) && v.len <= s@.len(),
            None => volume(s@) is None,
        },
{
    let n: usize = s.len();
    if n >= 2 && is_slash(s[0]) && is_slash(s[1]) {
        if n >= 4 && s[0] == '\\' && s[1] == '\\' && s[2] == '?' && s[3] == '\\' {
            return Some(verbatim_start(s));
        }
        if n >= 4 && s[2] == '.' && is_slash(s[3]) {
            let a: usize = first_piece(s, 4, Separators::Both);
            return Some(Start { len: 4 + a, letter: None, verbatim: false, implied_root: true });
        }
        let (a, b) = two_pieces(s, 2, Separators::Both);
        if a > 0 && b > 0 {
            return Some(
                Start { len: 2 + a + 1 + b, letter: None, verbatim: false, implied_root: true },
            );
        }
        None
    } else if n >= 2 && is_letter(s[0]) && s[1] == ':' {
        Some(
            Start { len: 2, letter: Some(to_capital(s[0])), verbatim: false, implied_root: false },
        )
    } else {
        None
    }
}

/// How a path is put together.
struct Shape {
    /// How many characters name the volume.
    volume_len: usize,
    /// There is a volume.
    volume: bool,
    /// The volume is a drive letter alone, without a root of its own.
    drive: bool,
    /// What separates names.
    seps: Separators,
    /// A separator stands right behind the volume.
    root: bool,
    /// A dot stands right behind the volume.
    here: bool,
    /// Where the names begin.
    body: usize,
}

/// How a path is put together.
fn shape_of(s: &[char]) -> (r: Shape)
    ensures
        r.volume_len == volume_len(s@),
        r.volume == (volume(s@) is Some),
        r.drive == (volume(s@) matches Some(v) && !v.implied_root),
        r.seps == separators_of(s@),
        r.root == has_root(s@),
        r.here == has_here(s@),
        r.body == body_of(s@),
        r.volume_len <= r.body <= s@.len(),
{
    let start = start_of(s);
    let (len, volume, verbatim, implied): (usize, bool, bool, bool) = match start {
        Some(v) => (v.len, true, v.verbatim, v.implied_root),
        None => (0, false, false, false),
    };
    let seps = if verbatim {
        Separators::Backslash
    } else {
        Separators::Both
    };
    let n: usize = s.len();
    let root = n > len && is_slash(s[len]);
    let here = !root && !implied && n > len && s[len] == '.' && (n - len == 1 || is_slash(
        s[len + 1],
    ));
    let body: usize = if root || here {
        len + 1
    } else {
        len
    };
    Shape { volume_len: len, volume, drive: volume && !implied, seps, root, here, body }
}

/// What is above a path.
fn up<'a>(path: &'a [char]) -> (r: Option<&'a [char]>)
    ensures
        match r {
            Some(p) => parent(path@) == Some(p@) && p@.len() < path@.len(),
            None => parent(path@) is None,
        },
{
    let shape = shape_of(path);
    match cut_name(path, shape.body, shape.seps) {
        Some((front, _)) => Some(front),
        None => {
            if !shape.volume && shape.here {
                let empty = vstd::slice::slice_subrange(path, 0, 0);
                assert(empty@ =~= Seq::<char>::empty());
                Some(empty)
            } else {
                None
            }
        },
    }
}

/// The last name of a path.
fn name_in<'a>(path: &'a [char]) -> (r: Option<&'a [char]>)
    ensures
        match r {
            Some(n) => file_name(path@) == Some(n@),
            None => file_name(path@) is None,
        },
{
    let shape = shape_of(path);
    match cut_name(path, shape.body, shape.seps) {
        Some((_, name)) => if reads(name, "..") || reads(name, ".") {
            None
        } else {
            Some(name)
        },
        None => None,
    }
}

/// The slice without the backslashes at its end.
fn cut_backslashes<'a>(s: &'a [char]) -> (r: &'a [char])
    ensures
        r@ == without_backslashes(s@),
{
    let mut t: &'a [char] = s;
    while t.len() > 0
        invariant
            without_backslashes(s@) == without_backslashes(t@),
        decreases t@.len(),
    {
        if t[t.len() - 1] != '\\' {
            return t;
        }
        let shorter = vstd::slice::slice_subrange(t, 0, t.len() - 1);
        assert(shorter@ =~= t@.drop_last());
        t = shorter;
    }
    t
}

/// The trail behind a path, the volume first, the path itself last. Each entry
/// is the label shown and the path to open.
pub fn crumbs(path: &str) -> (r: Vec<(String, String)>)
    ensures
        pairs(r@) == trail(path@),
{
    let chars = chars_of(path);
    let mut here: &[char] = &chars;
    let mut out: Vec<(String, String)> = Vec::new();
    let ghost whole = ancestors(path@);
    assert(ancestors(here@) =~= whole.skip(0));
    loop
        invariant
            whole == ancestors(path@),
            out@.len() < whole.len(),
            ancestors(here@) == whole.skip(out@.len() as int),
            forall|i: int|
                0 <= i < out@.len() ==> crumb(#[trigger] whole[i]) == (out@[i].0@, out@[i].1@),
        decreases here@.len(),
    {
        let ghost n = out@.len() as int;
        assert(whole[n] == whole.skip(n)[0]);
        assert(whole[n] == here@);
        let label = match name_in(here) {
            Some(name) => string_of(name),
            None => string_of(cut_backslashes(here)),
        };
        out.push((label, string_of(here)));
        match up(here) {
            Some(p) => {
                assert(ancestors(here@).skip(1) =~= ancestors(p@));
                assert(whole.skip(n).skip(1) =~= whole.skip(n + 1));
                assert(ancestors(p@).len() > 0);
                here = p;
            },
            None => {
                assert(ancestors(here@).len() == 1);
                let r = reversed(out);
                assert(pairs(r@) =~= trail(path@));
                return r;
            },
        }
    }
}

/// What is above a path, nothing at the root of a volume.
pub fn parent_of(path: &str) -> (r: Option<String>)
    ensures
        opt_text(r) == parent(path@),
{
    let chars = chars_of(path);
    match up(&chars) {
        Some(p) => Some(string_of(p)),
        None => None,
    }
}

/// Identifies the storage device that holds a path by the volume it starts from:
/// the letter of a drive, or the whole text of any other volume. A relative path
/// has no volume to name.
pub fn device_id(path: &str) -> (r: Option<String>)
    ensures
        opt_text(r) == match volume(path@) {
            Some(v) => match v.letter {
                Some(c) => Some(seq![c]),
                None => Some(path@.take(v.len)),
            },
            None => None,
        },
{
    let chars = chars_of(path);
    match start_of(&chars) {
        Some(v) => match v.letter {
            Some(c) => {
                let one: [char; 1] = [c];
                assert(one@ =~= seq![c]);
                Some(string_of(&one))
            },
            None => {
                let front = vstd::slice::slice_subrange(&chars, 0, v.len);
                assert(front@ =~= path@.take(v.len as int));
                Some(string_of(front))
            },
        },
        None => None,
    }
}

/// What is left of the names after one more: a step up takes a real name away,
/// and nothing else.
pub open spec fn stepped(so_far: Seq<Seq<char>>, name: Seq<char>) -> Seq<Seq<char>> {
    if name == ".."@ {
        if so_far.len() > 0 && so_far.last() != ".."@ && so_far.last() != "."@ {
            so_far.drop_last()
        } else {
            so_far
        }
    } else {
        so_far.push(name)
    }
}

/// The names after all of the given ones.
pub open spec fn walked(so_far: Seq<Seq<char>>, more: Seq<Seq<char>>) -> Seq<Seq<char>>
    decreases more.len(),
{
    if more.len() == 0 {
        so_far
    } else {
        stepped(walked(so_far, more.drop_last()), more.last())
    }
}

/// Names with a backslash before each.
pub open spec fn written(list: Seq<Seq<char>>) -> Seq<char>
    decreases list.len(),
{
    if list.len() == 0 {
        Seq::empty()
    } else {
        written(list.drop_last()) + "\\"@ + list.last()
    }
}

/// A path taken to the letter with another one behind it: the steps up and the
/// dots of the other are carried out, because the system would not do it.
pub open spec fn joined_verbatim(root: Seq<char>, rel: Seq<char>) -> Seq<char> {
    let rooted = has_root(rel) || has_root(root);
    let before = if has_root(rel) {
        Seq::empty()
    } else {
        names(root, body_of(root), Separators::Backslash)
    };
    let list = walked(before, names(rel, body_of(rel), Separators::Both));
    root.take(volume_len(root)) + if rooted && list.len() == 0 {
        "\\"@
    } else {
        written(list)
    }
}

/// A path with another one behind it: one with a volume of its own stands for
/// itself, one that starts at a root keeps only the volume.
pub open spec fn joined(root: Seq<char>, rel: Seq<char>) -> Seq<char> {
    if volume(rel) is Some {
        rel
    } else if volume(root) matches Some(v) && v.verbatim {
        joined_verbatim(root, rel)
    } else if has_root(rel) {
        root.take(volume_len(root)) + rel
    } else if root.len() > 0 && !slashes(root.last()) && !(volume(root) matches Some(v)
        && !v.implied_root && v.len == root.len()) {
        root + "\\"@ + rel
    } else {
        root + rel
    }
}

/// The path of a position inside a folder, with backslashes; the empty position
/// is the folder.
pub open spec fn placed_in(root: Seq<char>, rel: Seq<char>) -> Seq<char> {
    if rel.len() == 0 {
        root
    } else {
        joined(root, swapped(rel, '/', '\\'))
    }
}

proof fn lemma_piece_agree(a: Seq<char>, b: Seq<char>, seps: Separators)
    requires
        piece_len(a, seps) < a.len(),
        piece_len(a, seps) < b.len(),
        forall|i: int| 0 <= i <= piece_len(a, seps) ==> a[i] == b[i],
    ensures
        piece_len(b, seps) == piece_len(a, seps),
    decreases a.len(),
{
    assert(a[0] == b[0]);
    if !separates(seps, a.first()) {
        let x = a.drop_first();
        let y = b.drop_first();
        assert forall|i: int| 0 <= i <= piece_len(x, seps) implies x[i] == y[i] by {
            assert(a[i + 1] == b[i + 1]);
        }
        lemma_piece_agree(x, y, seps);
    }
}

proof fn lemma_share_agree(s: Seq<char>, u: Seq<char>, from: int, c: int, seps: Separators)
    requires
        0 <= from < c <= s.len(),
        c <= u.len(),
        forall|i: int| 0 <= i < c ==> s[i] == u[i],
        piece_len(after_piece(s.skip(from), seps), seps) > 0,
        from + share_len(s.skip(from), seps) < c,
    ensures
        piece_len(u.skip(from), seps) == piece_len(s.skip(from), seps),
        piece_len(after_piece(u.skip(from), seps), seps) == piece_len(
            after_piece(s.skip(from), seps),
            seps,
        ),
{
    let a = s.skip(from);
    let b = u.skip(from);
    lemma_piece_len(a, seps);
    assert forall|i: int| 0 <= i <= piece_len(a, seps) implies a[i] == b[i] by {
        assert(s[from + i] == u[from + i]);
    }
    lemma_piece_agree(a, b, seps);
    let n = piece_len(a, seps) as int;
    let x = after_piece(a, seps);
    let y = after_piece(b, seps);
    lemma_piece_len(x, seps);
    assert forall|i: int| 0 <= i <= piece_len(x, seps) implies x[i] == y[i] by {
        assert(s[from + n + 1 + i] == u[from + n + 1 + i]);
    }
    lemma_piece_agree(x, y, seps);
}

/// A path taken to the letter that is to name a share on the network, and does not.
pub open spec fn lacks_share(s: Seq<char>) -> bool {
    &&& s.len() >= 8 && s[0] == '\\' && s[1] == '\\' && s[2] == '?' && s[3] == '\\'
    &&& s[4] == 'U' && s[5] == 'N' && s[6] == 'C' && slashes(s[7])
    &&& piece_len(after_piece(s.skip(8), Separators::Backslash), Separators::Backslash) == 0
}

/// The volume of a path is that of every path that begins like it, as long as the
/// beginning goes past the volume. One that lacks a share has it in common only with
/// what it begins with.
proof fn lemma_same_volume(s: Seq<char>, u: Seq<char>, c: int)
    requires
        0 <= c <= s.len(),
        c <= u.len(),
        forall|i: int| 0 <= i < c ==> s[i] == u[i],
        volume(s) matches Some(v) && v.len <= c && (v.implied_root ==> v.len < c),
        lacks_share(s) ==> u.is_prefix_of(s),
    ensures
        volume(u) == volume(s),
{
    lemma_volume(s);
    if s.len() >= 4 {
        lemma_piece_len(s.skip(4), Separators::Backslash);
        lemma_piece_len(s.skip(4), Separators::Both);
    }
    if s.len() >= 2 && slashes(s[0]) && slashes(s[1]) {
        if s.len() >= 4 && s[0] == '\\' && s[1] == '\\' && s[2] == '?' && s[3] == '\\' {
            if s.len() >= 8 && s[4] == 'U' && s[5] == 'N' && s[6] == 'C' && slashes(s[7]) {
                if lacks_share(s) {
                    let a = s.skip(8);
                    let b = u.skip(8);
                    let n = piece_len(a, Separators::Backslash) as int;
                    lemma_piece_len(a, Separators::Backslash);
                    assert forall|i: int| 0 <= i <= n implies a[i] == b[i] by {
                        assert(s[8 + i] == u[8 + i]);
                    }
                    lemma_piece_agree(a, b, Separators::Backslash);
                    assert(u =~= s.take(u.len() as int));
                    let x = after_piece(a, Separators::Backslash);
                    let y = after_piece(b, Separators::Backslash);
                    if y.len() > 0 {
                        assert(x.first() == y.first());
                    }
                } else {
                    lemma_share_agree(s, u, 8, c, Separators::Backslash);
                }
            } else if s.len() >= 6 && is_drive_letter(s[4]) && s[5] == ':' && (s.len() == 6
                || slashes(s[6])) {
                assert(s[4] == u[4] && s[5] == u[5] && s[6] == u[6]);
            } else {
                let a = s.skip(4);
                let b = u.skip(4);
                let n = piece_len(a, Separators::Backslash) as int;
                assert forall|i: int| 0 <= i <= n implies a[i] == b[i] by {
                    assert(s[4 + i] == u[4 + i]);
                }
                lemma_piece_agree(a, b, Separators::Backslash);
                assert(s[4 + n] == '\\') by {
                    assert(a[n] == s[4 + n]);
                }
                assert(s[4 + n] == u[4 + n]);
                if u.len() >= 8 && u[4] == 'U' && u[5] == 'N' && u[6] == 'C' && slashes(u[7]) {
                    assert(n >= 3) by {
                        assert(n == 0 ==> s[4] == '\\');
                        assert(n == 1 ==> s[5] == '\\');
                        assert(n == 2 ==> s[6] == '\\');
                    }
                    assert(s[4] == u[4] && s[5] == u[5] && s[6] == u[6] && s[7] == u[7]);
                }
                if u.len() >= 6 && is_drive_letter(u[4]) && u[5] == ':' && (u.len() == 6 || slashes(
                    u[6],
                )) {
                    assert(n >= 2) by {
                        assert(n == 0 ==> s[4] == '\\');
                        assert(n == 1 ==> s[5] == '\\');
                    }
                    assert(s[4] == u[4] && s[5] == u[5] && s[6] == u[6]);
                }
            }
        } else if s.len() >= 4 && s[2] == '.' && slashes(s[3]) {
            let a = s.skip(4);
            let b = u.skip(4);
            assert forall|i: int| 0 <= i <= piece_len(a, Separators::Both) implies a[i] == b[i] by {
                assert(s[4 + i] == u[4 + i]);
            }
            lemma_piece_agree(a, b, Separators::Both);
        } else {
            lemma_share_agree(s, u, 2, c, Separators::Both);
        }
    }
}

/// Two texts stand for the same path: they name the same volume, start at its root or
/// in the folder one is in alike, and have the same names.
pub open spec fn same_path(a: Seq<char>, b: Seq<char>) -> bool {
    &&& volume(a) == volume(b)
    &&& a.take(volume_len(a)) == b.take(volume_len(b))
    &&& has_root(a) == has_root(b)
    &&& has_here(a) == has_here(b)
    &&& names(a, body_of(a), separators_of(a)) == names(b, body_of(b), separators_of(b))
}

/// A name without separators is all of its names.
proof fn lemma_one_name(name: Seq<char>)
    requires
        plain_name(name, Separators::Both),
        name.len() > 1,
        name[0] == '.',
    ensures
        volume(name) is None,
        !has_root(name),
        body_of(name) == 0,
        names(name, 0, Separators::Both) == seq![name],
{
    let seps = Separators::Both;
    let empty = Seq::<char>::empty();
    assert(!separates(seps, name[0]) && !separates(seps, name[1]));
    lemma_name_behind(empty, 0, seps, empty, name);
    assert(empty + empty + name =~= name);
    assert(without_name(empty, 0, seps) is None);
    assert(names(empty, 0, seps) =~= Seq::<Seq<char>>::empty());
    assert(names(name, 0, seps) =~= seq![name]);
}

/// Behind a volume that implies a root, a separator follows or nothing does.
proof fn lemma_root_follows(s: Seq<char>)
    requires
        volume(s) matches Some(v) && v.implied_root && v.len < s.len(),
    ensures
        has_root(s),
{
    if s.len() >= 8 {
        lemma_piece_len(s.skip(8), Separators::Backslash);
        lemma_piece_len(after_piece(s.skip(8), Separators::Backslash), Separators::Backslash);
    }
    if s.len() >= 4 {
        lemma_piece_len(s.skip(4), Separators::Backslash);
        lemma_piece_len(s.skip(4), Separators::Both);
    }
    lemma_piece_len(s.skip(2), Separators::Both);
    lemma_piece_len(after_piece(s.skip(2), Separators::Both), Separators::Both);
}

/// Going up does not change the volume.
proof fn lemma_volume_above(path: Seq<char>)
    ensures
        parent(path) matches Some(p) ==> p.is_prefix_of(path) && volume(p) == volume(path) && (
        volume(path) matches Some(v) && v.implied_root ==> has_root(p)),
{
    let k = body_of(path);
    let seps = separators_of(path);
    lemma_volume(path);
    lemma_without_name(path, k, seps);
    if parent(path) is Some && without_name(path, k, seps) is Some {
        let p = parent(path)->0;
        let c = p.len() as int;
        assert(p =~= path.take(c));
        assert forall|i: int| 0 <= i < c implies p[i] == path[i] by {
            assert(p[i] == path.take(c)[i]);
        }
        match volume(path) {
            Some(v) => {
                if v.implied_root {
                    lemma_root_follows(path);
                }
                lemma_same_volume(path, p, c);
            },
            None => {
                lemma_no_volume_before(path, p);
            },
        }
    }
}

/// Without a volume, what a path begins with has none either.
proof fn lemma_no_volume_before(path: Seq<char>, p: Seq<char>)
    requires
        volume(path) is None,
        p.is_prefix_of(path),
    ensures
        volume(p) is None,
{
    let seps = Separators::Both;
    assert forall|i: int| 0 <= i < p.len() implies p[i] == path[i] by {
        assert(p[i] == path.take(p.len() as int)[i]);
    }
    if volume(p) is Some {
        assert(p.len() >= 2 && p[0] == path[0] && p[1] == path[1]);
        if p.len() >= 4 {
            assert(p[2] == path[2] && p[3] == path[3]);
        }
        let a = p.skip(2);
        let b = path.skip(2);
        let n = piece_len(a, seps) as int;
        lemma_piece_len(a, seps);
        let x = after_piece(a, seps);
        assert(x.len() > 0 && !separates(seps, x.first()));
        assert forall|i: int| 0 <= i <= n implies a[i] == b[i] by {
            assert(p[2 + i] == path[2 + i]);
        }
        lemma_piece_agree(a, b, seps);
        let y = after_piece(b, seps);
        assert(y.first() == path[2 + n + 1]);
        assert(x.first() == p[2 + n + 1]);
        assert(piece_len(y, seps) > 0);
    }
}

/// Names that are written one after the other behind a volume are read back, and going
/// up takes the last one away.
proof fn lemma_written_names(front: Seq<char>, list: Seq<Seq<char>>)
    requires
        list.len() > 0,
        forall|i: int|
            0 <= i < list.len() ==> plain_name(#[trigger] list[i], Separators::Backslash),
    ensures
        ({
            let u = front + written(list);
            let k = front.len() as int + 1;
            &&& u.len() > k
            &&& u.take(k) == front + "\\"@
            &&& tidy_end(u, k, Separators::Backslash) == u
            &&& without_name(u, k, Separators::Backslash) is Some
            &&& last_name(u, k, Separators::Backslash) == Some(list.last())
            &&& names(u, k, Separators::Backslash) == list
        }),
    decreases list.len(),
{
    let seps = Separators::Backslash;
    let k = front.len() as int + 1;
    let u = front + written(list);
    let name = list.last();
    let before = list.drop_last();
    let empty = Seq::<char>::empty();
    reveal_strlit("\\");
    assert(list[list.len() - 1] == name);
    if before.len() == 0 {
        let p = front + "\\"@;
        assert(written(before) =~= empty);
        lemma_name_behind(p, k, seps, empty, name);
        assert(p + empty + name =~= u);
        assert(without_name(p, k, seps) is None);
        assert(names(p, k, seps) =~= before);
        assert(u.take(k) =~= p);
        assert(before.push(name) =~= list);
    } else {
        let p = front + written(before);
        assert forall|i: int| 0 <= i < before.len() implies plain_name(#[trigger] before[i], seps) by {
            assert(before[i] == list[i]);
        }
        lemma_written_names(front, before);
        lemma_name_behind(p, k, seps, "\\"@, name);
        assert(p + "\\"@ + name =~= u);
        assert(u.take(k) =~= p.take(k));
        assert(before.push(name) =~= list);
    }
}

/// A hidden name put into a folder whose path is taken to the letter.
proof fn lemma_into_letter_folder(p: Seq<char>, name: Seq<char>)
    requires
        plain_name(name, Separators::Both),
        name.len() > 1,
        name[0] == '.',
        name != ".."@,
        volume(p) matches Some(v) && v.verbatim,
        has_root(p),
        volume(joined(p, name)) == volume(p),
    ensures
        parent(joined(p, name)) matches Some(q) && same_path(q, p),
        file_name(joined(p, name)) == Some(name),
{
    let seps = Separators::Backslash;
    let u = joined(p, name);
    let n = volume_len(p);
    let front = p.take(n);
    let before = names(p, body_of(p), seps);
    let list = before.push(name);
    reveal_strlit("\\");
    reveal_strlit(".");
    assert("."@.len() == 1);
    lemma_volume(p);
    lemma_one_name(name);
    lemma_names_plain(p, body_of(p), seps);
    assert forall|i: int| 0 <= i < name.len() implies !separates(seps, #[trigger] name[i]) by {
        assert(!separates(Separators::Both, name[i]));
    }
    let more = seq![name];
    assert(more.drop_last() =~= Seq::<Seq<char>>::empty());
    assert(walked(before, more.drop_last()) == before);
    assert(walked(before, more) == list);
    assert(u == front + written(list));
    lemma_written_names(front, list);
    assert(u.take(n + 1)[n] == u[n]);
    assert(u[n] == '\\');
    assert(body_of(u) == n + 1);
    lemma_volume_above(u);
    let q = parent(u)->0;
    lemma_without_name(u, n + 1, seps);
    assert(q =~= u.take(q.len() as int));
    assert(q.take(n) =~= front);
    assert(names(u, n + 1, seps) == names(q, n + 1, seps).push(name));
    assert(names(q, n + 1, seps) =~= names(u, n + 1, seps).drop_last());
    assert(before =~= list.drop_last());
}

/// A hidden name put into the folder of a path: the folder is above it exactly where
/// the name became no part of the volume, and then it is the last name there.
pub proof fn lemma_beside(path: Seq<char>, name: Seq<char>)
    requires
        plain_name(name, Separators::Both),
        name.len() > 1,
        name[0] == '.',
        name != ".."@,
        parent(path) is Some,
    ensures
        ({
            let p = parent(path)->0;
            let u = joined(p, name);
            &&& (parent(u) matches Some(q) && same_path(q, p)) <==> volume(u) == volume(p)
            &&& volume(u) == volume(p) ==> file_name(u) == Some(name)
        }),
{
    let p = parent(path)->0;
    let u = joined(p, name);
    lemma_volume_above(path);
    lemma_volume_above(u);
    if volume(u) == volume(p) {
        if volume(p) matches Some(v) && v.verbatim {
            assert(volume(p)->0.implied_root);
            lemma_into_letter_folder(p, name);
        } else {
            lemma_into_folder(path, name);
        }
    }
}

/// A hidden name put into the folder of a path that is not taken to the letter.
proof fn lemma_into_folder(path: Seq<char>, name: Seq<char>)
    requires
        plain_name(name, Separators::Both),
        name.len() > 1,
        name[0] == '.',
        name != ".."@,
        parent(path) is Some,
        separators_of(path) == Separators::Both,
        volume(joined(parent(path)->0, name)) == volume(path),
    ensures
        parent(joined(parent(path)->0, name)) == parent(path),
        file_name(joined(parent(path)->0, name)) == Some(name),
{
    let seps = Separators::Both;
    let k = body_of(path);
    let p = parent(path)->0;
    let u = joined(p, name);
    let empty = Seq::<char>::empty();
    reveal_strlit("\\");
    reveal_strlit(".");
    assert("."@.len() == 1);
    lemma_volume(path);
    lemma_volume_above(path);
    lemma_without_name(path, k, seps);
    lemma_tidied(path, k, seps);
    lemma_one_name(name);
    assert(!separates(seps, name[0]) && !separates(seps, name[1]));
    if without_name(path, k, seps) is None {
        assert(u =~= p + empty + name);
        assert(u =~= name);
        lemma_name_behind(p, 0, seps, empty, name);
    } else {
        assert(p =~= path.take(p.len() as int));
        assert forall|i: int| 0 <= i < p.len() implies p[i] == path[i] by {
            assert(p[i] == path.take(p.len() as int)[i]);
        }
        assert forall|i: int| 0 <= i < p.len() implies u[i] == path[i] by {}
        if volume(path) matches Some(v) && v.implied_root {
            lemma_root_follows(path);
        }
        if p.len() == k && u == p + name {
            assert(u =~= p + empty + name);
            assert(body_of(u) == k);
            lemma_name_behind(p, k, seps, empty, name);
        } else {
            assert(u == p + "\\"@ + name);
            if p.len() == k + 1 && p[k] == '.' {
                reveal_with_fuel(last_separator, 2);
                assert(last_separator(p, k, seps) is None);
                assert(last_piece(p, k, seps) =~= seq!['.']);
            }
            assert(has_root(u) == has_root(path));
            assert(has_here(u) == has_here(path));
            assert(body_of(u) == k);
            lemma_name_behind(p, k, seps, "\\"@, name);
        }
    }
}

/// A name put into a folder stands at the end.
pub proof fn lemma_name_at_end_of(p: Seq<char>, name: Seq<char>)
    requires
        plain_name(name, Separators::Both),
        name.len() > 1,
        name[0] == '.',
        name != ".."@,
    ensures
        name.is_suffix_of(joined(p, name)),
{
    let u = joined(p, name);
    lemma_one_name(name);
    lemma_volume(p);
    if volume(p) matches Some(v) && v.verbatim {
        let before = names(p, body_of(p), Separators::Backslash);
        let more = seq![name];
        assert(more.drop_last() =~= Seq::<Seq<char>>::empty());
        assert(walked(before, more.drop_last()) == before);
        let list = before.push(name);
        assert(walked(before, more) == list);
        assert(list.last() == name);
    }
    assert(u.skip(u.len() - name.len()) =~= name);
}

/// Names with one separator between them turn into the same names with another.
pub proof fn lemma_swapped_names(list: Seq<Seq<char>>, from: Seq<char>, to: Seq<char>)
    requires
        from.len() == 1,
        to.len() == 1,
        separates(Separators::Both, from[0]),
        forall|i: int|
            0 <= i < list.len() ==> plain_name(#[trigger] list[i], Separators::Both),
    ensures
        swapped(search::join(list, from), from[0], to[0]) == search::join(list, to),
    decreases list.len(),
{
    if list.len() == 0 {
        assert(swapped(search::join(list, from), from[0], to[0]) =~= search::join(list, to));
    } else {
        let name = list.last();
        assert(list[list.len() - 1] == name);
        assert forall|i: int| 0 <= i < name.len() implies #[trigger] name[i] != from[0] by {
            assert(!separates(Separators::Both, name[i]));
        }
        if list.len() > 1 {
            let front = list.drop_last();
            assert forall|i: int| 0 <= i < front.len() implies plain_name(
                #[trigger] front[i],
                Separators::Both,
            ) by {
                assert(front[i] == list[i]);
            }
            lemma_swapped_names(front, from, to);
            let x = search::join(front, from);
            assert(swapped(x, from[0], to[0]).len() == x.len());
            assert forall|i: int| 0 <= i < x.len() implies search::join(front, to)[i] == (if x[i]
                == from[0] {
                to[0]
            } else {
                x[i]
            }) by {
                assert(swapped(x, from[0], to[0])[i] == search::join(front, to)[i]);
            }
        }
        assert(swapped(search::join(list, from), from[0], to[0]) =~= search::join(list, to));
    }
}

/// A text can stand behind a folder: it has no volume of its own, and does not start at
/// a root.
pub open spec fn relative(rest: Seq<char>) -> bool {
    volume(rest) is None && !has_root(rest)
}

/// A text behind a folder: with a backslash between, unless the folder ends with a
/// separator, is a bare drive, or is the folder one is in.
pub open spec fn behind(root: Seq<char>, rest: Seq<char>) -> Seq<char> {
    if rest.len() == 0 {
        root
    } else if root.len() > 0 && !slashes(root.last()) && !(volume(root) matches Some(v)
        && !v.implied_root && v.len == root.len()) {
        root + "\\"@ + rest
    } else {
        root + rest
    }
}

/// The path of a folder is taken to the letter.
pub open spec fn to_the_letter(root: Seq<char>) -> bool {
    volume(root) matches Some(v) && v.verbatim
}

/// What stands behind a folder that is not taken to the letter leads back to itself,
/// with its slashes turned into backslashes.
pub proof fn lemma_leads_back(root: Seq<char>, rest: Seq<char>)
    requires
        relative(rest),
        !to_the_letter(root),
    ensures
        placed_in(root, swapped(rest, '\\', '/')) == behind(root, swapped(rest, '/', '\\')),
        behind(root, swapped(rest, '/', '\\')) == behind(root, rest) <==> swapped(
            rest,
            '/',
            '\\',
        ) == rest,
{
    let os = swapped(rest, '/', '\\');
    assert(swapped(swapped(rest, '\\', '/'), '/', '\\') =~= os);
    if rest.len() > 0 {
        assert(!slashes(rest[0]));
        assert(os[0] == rest[0]);
        if rest.len() > 1 {
            assert(os[1] == if rest[1] == '/' {
                '\\'
            } else {
                rest[1]
            });
        }
        assert(relative(os));
    }
    let x = behind(root, rest);
    let y = behind(root, os);
    if x == y {
        let n = x.len() - rest.len();
        assert forall|i: int| 0 <= i < rest.len() implies rest[i] == os[i] by {
            assert(x[n + i] == rest[i]);
            assert(y[n + i] == os[i]);
        }
        assert(os =~= rest);
    }
}

proof fn lemma_walked_names(before: Seq<Seq<char>>, list: Seq<Seq<char>>)
    requires
        forall|i: int| 0 <= i < list.len() ==> #[trigger] list[i] != ".."@,
    ensures
        walked(before, list) == before + list,
    decreases list.len(),
{
    if list.len() == 0 {
        assert(before + list =~= before);
    } else {
        let front = list.drop_last();
        assert forall|i: int| 0 <= i < front.len() implies #[trigger] front[i] != ".."@ by {
            assert(front[i] == list[i]);
        }
        lemma_walked_names(before, front);
        assert(list[list.len() - 1] == list.last());
        assert((before + front).push(list.last()) =~= before + list);
    }
}

/// Where the names come from after all of the given ones.
proof fn lemma_walked_from(before: Seq<Seq<char>>, more: Seq<Seq<char>>)
    ensures
        ({
            let all = walked(before, more);
            &&& forall|j: int|
                0 <= j < all.len() ==> before.contains(#[trigger] all[j]) || more.contains(all[j])
            &&& forall|j: int|
                before.len() <= j < all.len() ==> more.contains(#[trigger] all[j]) && all[j]
                    != ".."@
        }),
    decreases more.len(),
{
    let all = walked(before, more);
    if more.len() > 0 {
        let front = more.drop_last();
        let so_far = walked(before, front);
        lemma_walked_from(before, front);
        assert(more[more.len() - 1] == more.last());
        assert forall|x: Seq<char>| front.contains(x) implies more.contains(x) by {
            let i = choose|i: int| 0 <= i < front.len() && front[i] == x;
            assert(more[i] == x);
        }
        assert forall|j: int| 0 <= j < all.len() implies before.contains(#[trigger] all[j])
            || more.contains(all[j]) by {
            if j < so_far.len() {
                assert(all[j] == so_far[j]);
            }
        }
        assert forall|j: int| before.len() <= j < all.len() implies more.contains(
            #[trigger] all[j],
        ) && all[j] != ".."@ by {
            if j < so_far.len() {
                assert(all[j] == so_far[j]);
            }
        }
    } else {
        assert forall|j: int| 0 <= j < all.len() implies before.contains(#[trigger] all[j]) by {
            assert(before[j] == all[j]);
        }
    }
}

/// Every name of a text, taken to the letter, is a name in the common reading too: it
/// holds no slash, is no dot, and is no step up.
pub open spec fn real_names(rest: Seq<char>) -> bool {
    let list = names(rest, 0, Separators::Backslash);
    forall|i: int|
        0 <= i < list.len() ==> plain_name(#[trigger] list[i], Separators::Both) && list[i]
            != ".."@
}

/// A path lies where a text says below a folder that is taken to the letter: on the same
/// volume, with the names of the text behind those of the folder.
pub open spec fn lies_at(root: Seq<char>, rest: Seq<char>, path: Seq<char>) -> bool {
    let letter = Separators::Backslash;
    &&& volume(path) == volume(root)
    &&& path.take(volume_len(path)) == root.take(volume_len(root))
    &&& has_root(path)
    &&& has_root(root) || names(rest, 0, letter).len() > 0
    &&& names(path, body_of(path), letter) == names(root, body_of(root), letter) + names(
        rest,
        0,
        letter,
    )
}

/// What stands behind a folder that is taken to the letter leads back exactly where its
/// names are real names and none of them became a part of the volume.
#[verifier::rlimit(30)]
pub proof fn lemma_leads_back_to_the_letter(root: Seq<char>, rest: Seq<char>, path: Seq<char>)
    requires
        to_the_letter(root),
        relative(rest),
        lies_at(root, rest, path),
    ensures
        ({
            let again = placed_in(root, swapped(rest, '\\', '/'));
            same_path(again, path) <==> volume(again) == volume(root) && real_names(rest)
        }),
{
    let letter = Separators::Backslash;
    let both = Separators::Both;
    let again = placed_in(root, swapped(rest, '\\', '/'));
    let os = swapped(rest, '/', '\\');
    let n = volume_len(root);
    let front = root.take(n);
    let before = names(root, body_of(root), letter);
    let list = names(rest, 0, letter);
    reveal_strlit("\\");
    lemma_volume(root);
    lemma_volume(path);
    lemma_volume(os);
    lemma_names_plain(root, body_of(root), letter);
    lemma_names_plain(rest, 0, letter);
    assert(swapped(swapped(rest, '\\', '/'), '/', '\\') =~= os);
    if rest.len() == 0 {
        assert(list =~= Seq::<Seq<char>>::empty());
        assert(before + list =~= before);
        assert(again == root);
    } else {
        assert(!slashes(rest[0]));
        assert(os[0] == rest[0]);
        if rest.len() > 1 {
            assert(os[1] == if rest[1] == '/' {
                '\\'
            } else {
                rest[1]
            });
        }
        assert(relative(os));
        let more = names(os, body_of(os), both);
        let all = walked(before, more);
        lemma_names_plain(os, body_of(os), both);
        lemma_walked_from(before, more);
        assert forall|i: int| 0 <= i < all.len() implies plain_name(#[trigger] all[i], letter) by {
            if before.contains(all[i]) {
                let j = choose|j: int| 0 <= j < before.len() && before[j] == all[i];
                assert(plain_name(before[j], letter));
            } else {
                let j = choose|j: int| 0 <= j < more.len() && more[j] == all[i];
                assert(plain_name(more[j], both));
                assert forall|m: int| 0 <= m < all[i].len() implies !separates(
                    letter,
                    #[trigger] all[i][m],
                ) by {
                    assert(!separates(both, all[i][m]));
                }
            }
        }
        assert(again == joined_verbatim(root, os));
        if all.len() > 0 {
            lemma_written_names(front, all);
            assert(again.take(n + 1)[n] == again[n]);
        } else {
            assert(written(all) =~= Seq::<char>::empty());
        }
        assert(again.take(n) =~= front);
        if volume(again) == volume(root) {
            assert(has_root(again) == (all.len() > 0 || has_root(root)));
            if all.len() == 0 {
                lemma_tidy_end(again, body_of(again), letter);
                assert(again.len() == body_of(again));
            }
            assert(names(again, body_of(again), letter) =~= all);
        }
        if same_path(again, path) {
            assert(all == before + list);
            assert forall|i: int| 0 <= i < list.len() implies plain_name(#[trigger] list[i], both)
                && list[i] != ".."@ by {
                assert(all[before.len() + i] == list[i]);
                let j = choose|j: int| 0 <= j < more.len() && more[j] == list[i];
                assert(plain_name(more[j], both));
            }
        }
        if real_names(rest) {
            lemma_names_either_way(rest, 0);
            assert(os =~= rest);
            assert(!has_here(rest)) by {
                if has_here(rest) {
                    let first = list[0];
                    assert(plain_name(first, both));
                    assert(rest.skip(0) =~= rest);
                    assert(first =~= rest.take(first.len() as int));
                    if first.len() == 1 {
                        assert(first =~= seq!['.']);
                    } else {
                        assert(first[1] == rest[1]);
                        assert(!separates(both, first[1]));
                    }
                }
            }
            assert(more == list);
            lemma_walked_names(before, list);
        }
    }
}

/// The names after one more.
fn step<'a>(so_far: Vec<&'a [char]>, name: &'a [char]) -> (r: Vec<&'a [char]>)
    ensures
        views(r@) == stepped(views(so_far@), name@),
{
    let mut list = so_far;
    let ghost before = views(list@);
    if reads(name, "..") {
        let n: usize = list.len();
        if n > 0 {
            assert(before.last() == list@[n - 1]@);
            let last = list[n - 1];
            if !reads(last, "..") && !reads(last, ".") {
                let _ = list.pop();
                assert(views(list@) =~= before.drop_last());
            }
        }
    } else {
        list.push(name);
        assert(views(list@) =~= before.push(name@));
    }
    list
}

/// A path taken to the letter with another one behind it.
fn join_verbatim(root: &[char], rel: &[char], at: &Shape, behind: &Shape) -> (r: Vec<char>)
    requires
        at.volume_len == volume_len(root@),
        at.root == has_root(root@),
        at.body == body_of(root@),
        at.volume_len <= at.body <= root@.len(),
        behind.root == has_root(rel@),
        behind.body == body_of(rel@),
        behind.body <= rel@.len(),
    ensures
        r@ == joined_verbatim(root@, rel@),
{
    let more = names_of(rel, behind.body, Separators::Both);
    let mut list: Vec<&[char]> = if behind.root {
        let v: Vec<&[char]> = Vec::new();
        assert(views(v@) =~= Seq::<Seq<char>>::empty());
        v
    } else {
        names_of(root, at.body, Separators::Backslash)
    };
    let ghost before = views(list@);
    let ghost all = views(more@);
    let n: usize = more.len();
    for i in 0..n
        invariant
            n == more@.len(),
            all == views(more@),
            views(list@) == walked(before, all.take(i as int)),
    {
        assert(all.take(i as int + 1).drop_last() =~= all.take(i as int));
        assert(all.take(i as int + 1).last() == more@[i as int]@);
        list = step(list, more[i]);
    }
    assert(all.take(n as int) =~= all);
    let front = vstd::slice::slice_subrange(root, 0, at.volume_len);
    assert(front@ =~= root@.take(at.volume_len as int));
    let mut out: Vec<char> = Vec::new();
    push_all(&mut out, front);
    let slash = chars_of("\\");
    let m: usize = list.len();
    let ghost whole = views(list@);
    if (behind.root || at.root) && m == 0 {
        push_all(&mut out, &slash);
        assert(out@ =~= front@ + "\\"@);
    } else {
        let ghost start = out@;
        assert(start =~= front@);
        assert(start + written(whole.take(0)) =~= start);
        for i in 0..m
            invariant
                m == list@.len(),
                whole == views(list@),
                slash@ == "\\"@,
                out@ == start + written(whole.take(i as int)),
        {
            assert(whole.take(i as int + 1).drop_last() =~= whole.take(i as int));
            assert(whole.take(i as int + 1).last() == list@[i as int]@);
            push_all(&mut out, &slash);
            push_all(&mut out, list[i]);
            assert(out@ =~= start + written(whole.take(i as int + 1)));
        }
        assert(whole.take(m as int) =~= whole);
    }
    out
}

/// A path with another one behind it.
pub fn join(root: &str, rel: &[char]) -> (r: String)
    ensures
        r@ == joined(root@, rel@),
{
    let chars = chars_of(root);
    let behind = shape_of(rel);
    if behind.volume {
        return string_of(rel);
    }
    let at = shape_of(&chars);
    if at.volume && matches!(at.seps, Separators::Backslash) {
        return string_of(&join_verbatim(&chars, rel, &at, &behind));
    }
    let mut out: Vec<char> = Vec::new();
    let n: usize = chars.len();
    if behind.root {
        let front = vstd::slice::slice_subrange(&chars, 0, at.volume_len);
        assert(front@ =~= root@.take(at.volume_len as int));
        push_all(&mut out, front);
        push_all(&mut out, rel);
        assert(out@ =~= front@ + rel@);
        return string_of(&out);
    }
    push_all(&mut out, &chars);
    if n > 0 && !is_slash(chars[n - 1]) && !(at.drive && at.volume_len == n) {
        let slash = chars_of("\\");
        push_all(&mut out, &slash);
        push_all(&mut out, rel);
        assert(out@ =~= root@ + "\\"@ + rel@);
    } else {
        push_all(&mut out, rel);
        assert(out@ =~= root@ + rel@);
    }
    string_of(&out)
}

/// A position inside a folder, back in the form that the disk understands.
pub fn join_rel(root: &str, rel: &str) -> (r: String)
    ensures
        r@ == placed_in(root@, rel@),
{
    if rel.is_empty() {
        return root.to_owned();
    }
    join(root, &swap(rel, '/', '\\'))
}

/// A letter and the two characters behind it in the root of its drive.
pub open spec fn drive_root(letter: char) -> (Seq<char>, Seq<char>) {
    (seq![letter, ':'], seq![letter, ':', '\\'])
}

/// The letter with the given number, counted from nought.
pub open spec fn letter_of(i: int) -> char {
    (65u8 + i as u8) as char
}

/// The drives that are there among the first `n` letters, from the bits of the
/// system: the name shown and the path to open.
pub open spec fn drives(mask: u32, n: int) -> Seq<(Seq<char>, Seq<char>)>
    decreases n,
{
    if n <= 0 {
        Seq::empty()
    } else if mask & (1u32 << ((n - 1) as u32)) == 0 {
        drives(mask, n - 1)
    } else {
        drives(mask, n - 1).push(drive_root(letter_of(n - 1)))
    }
}

/// What the system calls an error, by its number.
pub open spec fn numbered(n: int) -> Seq<char> {
    "Windows error "@ + signed_decimal(n)
}

/// The drives that are there, from the bits that the system keeps and, where it
/// has none, the number of its error. Each entry is the name shown and the path
/// to open.
pub fn list_devices(mask: u32, error: u32) -> (r: Result<Vec<(String, String)>, CmdError>)
    ensures
        match r {
            Ok(v) => mask != 0 && pairs(v@) == drives(mask, 26),
            Err(e) => mask == 0 && e.says("devices_not_listed"@, numbered(error as int)),
        },
{
    if mask == 0 {
        let number = decimal_string(error as u64);
        return Err(CmdError::with_detail("devices_not_listed", join2("Windows error ", &number)));
    }
    let mut out: Vec<(String, String)> = Vec::new();
    let mut i: u32 = 0;
    assert(pairs(out@) =~= drives(mask, 0));
    while i < 26
        invariant
            i <= 26,
            pairs(out@) == drives(mask, i as int),
        decreases 26 - i,
    {
        let ghost before = pairs(out@);
        if mask & (1u32 << i) != 0 {
            let letter: char = (65u8 + i as u8) as char;
            let name: [char; 2] = [letter, ':'];
            let root: [char; 3] = [letter, ':', '\\'];
            assert(name@ =~= seq![letter, ':']);
            assert(root@ =~= seq![letter, ':', '\\']);
            out.push((string_of(&name), string_of(&root)));
            assert(pairs(out@) =~= before.push(drive_root(letter_of(i as int))));
        }
        i = i + 1;
    }
    Ok(out)
}

/// A drive is listed exactly when the system says that it is there.
pub proof fn law_the_drives_that_are_there(mask: u32, n: int, i: int)
    requires
        0 <= i < n <= 26,
    ensures
        drives(mask, n).contains(drive_root(letter_of(i))) <==> mask & (1u32 << (i as u32)) != 0,
    decreases n,
{
    let all = drives(mask, n);
    let last = drive_root(letter_of(n - 1));
    if i == n - 1 {
        if mask & (1u32 << (i as u32)) != 0 {
            assert(all[all.len() - 1] == last);
        } else {
            lemma_no_later_drive(mask, n - 1, i);
        }
    } else {
        law_the_drives_that_are_there(mask, n - 1, i);
        let before = drives(mask, n - 1);
        assert(letter_of(i) != letter_of(n - 1));
        assert(drive_root(letter_of(i)).0[0] == letter_of(i));
        assert(last.0[0] == letter_of(n - 1));
        if before.contains(drive_root(letter_of(i))) {
            let k = choose|k: int| 0 <= k < before.len() && before[k] == drive_root(letter_of(i));
            assert(all[k] == before[k]);
        }
        if all.contains(drive_root(letter_of(i))) {
            let k = choose|k: int| 0 <= k < all.len() && all[k] == drive_root(letter_of(i));
            assert(before[k] == drive_root(letter_of(i)));
        }
    }
}

proof fn lemma_no_later_drive(mask: u32, n: int, i: int)
    requires
        0 <= n <= i < 26,
    ensures
        !drives(mask, n).contains(drive_root(letter_of(i))),
    decreases n,
{
    if n > 0 {
        lemma_no_later_drive(mask, n - 1, i);
        let before = drives(mask, n - 1);
        let all = drives(mask, n);
        if all.contains(drive_root(letter_of(i))) {
            let k = choose|k: int| 0 <= k < all.len() && all[k] == drive_root(letter_of(i));
            assert(drive_root(letter_of(i)).0[0] == letter_of(i));
            assert(drive_root(letter_of(n - 1)).0[0] == letter_of(n - 1));
            assert(before[k] == drive_root(letter_of(i)));
        }
    }
}

/// Where the folder picker opens: the personal folder, and the first drive where the
/// system names none.
pub fn home_dir(named: Option<String>) -> (r: String)
    ensures
        r@ == match named {
            Some(h) => h@,
            None => "C:\\"@,
        },
{
    match named {
        Some(h) => h,
        None => "C:\\".to_owned(),
    }
}

/// No single root here: the drives are the top.
pub fn root_path() -> (r: Option<String>)
    ensures
        r is None,
{
    None
}

/// Whether an item is hidden the way this system means it: by the attribute, not
/// by the name.
pub fn is_hidden(attributes: u32) -> (r: bool)
    ensures
        r == (attributes & 0x2 != 0),
{
    attributes & 0x2 != 0
}

/// Whether a link has to go the way a folder goes: it points at one.
pub fn link_goes_as_folder(attributes: u32) -> (r: bool)
    ensures
        r == (attributes & 0x10 != 0),
{
    attributes & 0x10 != 0
}

/// The small form of an ASCII letter, any other character as it is.
pub open spec fn small(c: char) -> char {
    if 'A' <= c <= 'Z' {
        (c as u8 + 32) as u8 as char
    } else {
        c
    }
}

/// Two texts are the same but for the case of ASCII letters.
pub open spec fn same_but_case(a: Seq<char>, b: Seq<char>) -> bool {
    a.len() == b.len() && forall|i: int| 0 <= i < a.len() ==> small(#[trigger] a[i]) == small(b[i])
}

/// The small form of an ASCII letter.
fn to_small(c: char) -> (r: char)
    ensures
        r == small(c),
{
    if 'A' <= c && c <= 'Z' {
        let n: u8 = c as u8;
        (n + 32) as char
    } else {
        c
    }
}

/// Whether two texts are the same but for the case of ASCII letters.
fn reads_like(a: &str, b: &str) -> (r: bool)
    ensures
        r == same_but_case(a@, b@),
{
    let x = chars_of(a);
    let y = chars_of(b);
    if x.len() != y.len() {
        return false;
    }
    let n: usize = x.len();
    for i in 0..n
        invariant
            n == x@.len(),
            n == y@.len(),
            x@ == a@,
            y@ == b@,
            forall|k: int| 0 <= k < i ==> small(#[trigger] x@[k]) == small(y@[k]),
    {
        if to_small(x[i]) != to_small(y[i]) {
            assert(small(a@[i as int]) != small(b@[i as int]));
            return false;
        }
    }
    true
}

/// The folders that this system keeps for itself, on top of the shared
/// exclusions. They stand in the root of every drive and are not the user's.
pub open spec fn kept_by_system(name: Seq<char>) -> bool {
    same_but_case("$RECYCLE.BIN"@, name) || same_but_case("System Volume Information"@, name)
        || same_but_case("Config.Msi"@, name)
}

/// Whether this system keeps a folder for itself, whatever the case of the name.
pub fn is_system_dir(name: &str) -> (r: bool)
    ensures
        r == kept_by_system(name@),
{
    reads_like("$RECYCLE.BIN", name) || reads_like("System Volume Information", name)
        || reads_like("Config.Msi", name)
}

/// The error that carries the number of the system.
fn numbered_error(code: &str, number: i64) -> (r: CmdError)
    ensures
        r.says(code@, numbered(number as int)),
{
    let n = signed_string(number);
    CmdError::with_detail(code, join2("Windows error ", &n))
}

/// What follows the attempt to hand an item to the program that the system
/// associates with it. Success is a value above 32; at or below it, the value is
/// the number of the error.
pub fn open_with_default(code: i64) -> (r: Result<(), CmdError>)
    ensures
        match r {
            Ok(_) => code > 32,
            Err(e) => code <= 32 && if code == 31 {
                e.says("no_app_for_type"@, Seq::empty())
            } else if code == 5 {
                e.says("permission"@, Seq::empty())
            } else if code == 2 || code == 3 {
                e.says("item_missing"@, Seq::empty())
            } else {
                e.says("open_failed"@, numbered(code as int))
            },
        },
{
    if code > 32 {
        Ok(())
    } else if code == 31 {
        Err(CmdError::plain("no_app_for_type"))
    } else if code == 5 {
        Err(CmdError::plain("permission"))
    } else if code == 2 || code == 3 {
        Err(CmdError::plain("item_missing"))
    } else {
        Err(numbered_error("open_failed", code))
    }
}

/// What follows the attempt to open a page in the browser.
pub fn open_url(code: i64) -> (r: Result<(), CmdError>)
    ensures
        match r {
            Ok(_) => code > 32,
            Err(e) => code <= 32 && e.says("no_browser"@, numbered(code as int)),
        },
{
    if code > 32 {
        Ok(())
    } else {
        Err(numbered_error("no_browser", code))
    }
}

/// The units in front of the first zero.
pub open spec fn up_to_zero(u: Seq<u16>) -> Seq<u16>
    decreases u.len(),
{
    if u.len() == 0 || u.first() == 0 {
        Seq::empty()
    } else {
        seq![u.first()] + up_to_zero(u.drop_first())
    }
}

/// The units in front of the first zero.
fn cut_at_zero(u: &[u16]) -> (r: &[u16])
    ensures
        r@ == up_to_zero(u@),
{
    let n: usize = u.len();
    let mut i: usize = 0;
    assert(u@.skip(0) =~= u@);
    while i < n && u[i] != 0
        invariant
            i <= n,
            n == u@.len(),
            up_to_zero(u@) =~= u@.take(i as int) + up_to_zero(u@.skip(i as int)),
        decreases n - i,
    {
        assert(u@.skip(i as int).drop_first() =~= u@.skip(i as int + 1));
        assert(u@.take(i as int + 1) =~= u@.take(i as int).push(u@[i as int]));
        i = i + 1;
    }
    let r = vstd::slice::slice_subrange(u, 0, i);
    assert(r@ =~= u@.take(i as int));
    assert(up_to_zero(u@.skip(i as int)) =~= Seq::<u16>::empty());
    r
}

/// The volume that a path belongs to, from the buffer that the system filled;
/// nothing where the system could not say.
pub fn volume_root(path: &str, answer: Option<Vec<u16>>) -> (r: Result<String, CmdError>)
    ensures
        match r {
            Ok(v) => answer matches Some(buf) && v@ == decoded(up_to_zero(buf@)),
            Err(e) => answer is None && e.says("disk_not_resolved"@, path@),
        },
{
    match answer {
        Some(buf) => Ok(narrow(cut_at_zero(&buf))),
        None => Err(CmdError::with_detail("disk_not_resolved", path.to_owned())),
    }
}

/// A volume without a physical disk behind it that this machine can ask about: a
/// share on the network, or no volume at all.
pub open spec fn no_disk(volume: Seq<char>) -> bool {
    let name = without_backslashes(volume);
    name.len() == 0 || (name.len() >= 2 && name[0] == '\\' && name[1] == '\\')
}

/// The name under which the disk of a volume is opened.
pub fn volume_device(volume: &str) -> (r: Result<String, CmdError>)
    ensures
        match r {
            Ok(name) => !no_disk(volume@) && name@ == "\\\\.\\"@ + without_backslashes(volume@),
            Err(e) => no_disk(volume@) && e.says("no_physical_disk"@, Seq::empty()),
        },
{
    let chars = chars_of(volume);
    let name = cut_backslashes(&chars);
    if name.len() == 0 || (name.len() >= 2 && name[0] == '\\' && name[1] == '\\') {
        return Err(CmdError::plain("no_physical_disk"));
    }
    let n = string_of(name);
    Ok(join2("\\\\.\\", &n))
}

/// The number of the first disk that a volume lies on, from the numbers that the
/// system gave; nothing where it could not be asked.
pub fn physical_drive_number(volume: &str, disks: Option<Vec<u32>>) -> (r: Result<u32, CmdError>)
    ensures
        match r {
            Ok(n) => !no_disk(volume@) && (disks matches Some(v) && v@.len() > 0 && n == v@[0]),
            Err(e) => if no_disk(volume@) {
                e.says("no_physical_disk"@, Seq::empty())
            } else {
                (disks matches Some(v) ==> v@.len() == 0) && e.says(
                    "disk_not_resolved"@,
                    without_backslashes(volume@),
                )
            },
        },
{
    match volume_device(volume) {
        Ok(_) => {},
        Err(e) => {
            return Err(e);
        },
    }
    match disks {
        Some(v) => {
            if v.len() > 0 {
                return Ok(v[0]);
            }
        },
        None => {},
    }
    let chars = chars_of(volume);
    Err(CmdError::with_detail("disk_not_resolved", string_of(cut_backslashes(&chars))))
}

/// The device that the health tool has to be pointed at for a path: the whole
/// physical disk, never the volume. It comes from what the system said of the
/// volume and of the disks under it.
pub fn device_for_path(path: &str, answer: Option<Vec<u16>>, disks: Option<Vec<u32>>) -> (r: Result<
    String,
    CmdError,
>)
    ensures
        match answer {
            None => r matches Err(e) && e.says("disk_not_resolved"@, path@),
            Some(buf) => {
                let volume = decoded(up_to_zero(buf@));
                if no_disk(volume) {
                    r matches Err(e) && e.says("no_physical_disk"@, Seq::empty())
                } else {
                    match disks {
                        Some(v) if v@.len() > 0 => r matches Ok(d) && d@
                            == "\\\\.\\PhysicalDrive"@ + decimal(v@[0] as nat),
                        _ => r matches Err(e) && e.says(
                            "disk_not_resolved"@,
                            without_backslashes(volume),
                        ),
                    }
                }
            },
        },
{
    let volume = match volume_root(path, answer) {
        Ok(v) => v,
        Err(e) => {
            return Err(e);
        },
    };
    match physical_drive_number(&volume, disks) {
        Ok(n) => {
            let number = decimal_string(n as u64);
            Ok(join2("\\\\.\\PhysicalDrive", &number))
        },
        Err(e) => Err(e),
    }
}

/// Where the installer of the health tool puts it, under the folder for
/// programs.
pub open spec fn installed_under(root: Seq<char>) -> Seq<char> {
    joined(joined(joined(root, "smartmontools"@), "bin"@), "smartctl.exe"@)
}

/// Where the installer of the health tool puts it.
pub fn smartctl_candidate(root: &str) -> (r: String)
    ensures
        r@ == installed_under(root@),
{
    let first = chars_of("smartmontools");
    let second = chars_of("bin");
    let third = chars_of("smartctl.exe");
    let a = join(root, &first);
    let b = join(&a, &second);
    join(&b, &third)
}

/// The first of the folders for programs that holds the health tool, where one
/// does.
pub open spec fn first_installed(roots: Seq<(String, bool)>) -> Option<Seq<char>>
    decreases roots.len(),
{
    if roots.len() == 0 {
        None
    } else if roots.first().1 {
        Some(installed_under(roots.first().0@))
    } else {
        first_installed(roots.drop_first())
    }
}

/// Where the health tool is, or nothing if it is not installed: where the search
/// path leads to, then the first of the folders for programs, given with whether
/// the tool is there.
pub fn smartctl_path(in_path: Option<String>, roots: Vec<(String, bool)>) -> (r: Option<String>)
    ensures
        opt_text(r) == match in_path {
            Some(found) => Some(found@),
            None => first_installed(roots@),
        },
{
    match in_path {
        Some(found) => Some(found),
        None => find_installed(&roots),
    }
}

/// The first of the folders for programs that holds the health tool.
fn find_installed(roots: &Vec<(String, bool)>) -> (r: Option<String>)
    ensures
        opt_text(r) == first_installed(roots@),
{
    let n: usize = roots.len();
    assert(roots@.skip(0) =~= roots@);
    for i in 0..n
        invariant
            n == roots@.len(),
            first_installed(roots@) == first_installed(roots@.skip(i as int)),
    {
        assert(roots@.skip(i as int).first() == roots@[i as int]);
        assert(roots@.skip(i as int).drop_first() =~= roots@.skip(i as int + 1));
        if roots[i].1 {
            return Some(smartctl_candidate(&roots[i].0));
        }
    }
    None
}

/// Why an operation failed, in the stable form that is turned into a sentence
/// later. The numbers come first: a file held open by another program arrives
/// already labelled as a matter of permission, and that label would lose the
/// only detail that tells the user what to do about it.
pub open spec fn cause(failure: IoFailure) -> Seq<char> {
    if failure.raw == Some(32i32) || failure.raw == Some(33i32) {
        "inuse"@
    } else if failure.raw == Some(112i32) {
        "nospace"@
    } else if failure.raw == Some(19i32) {
        "readonly"@
    } else if failure.raw == Some(21i32) || failure.raw == Some(433i32) || failure.raw == Some(1006i32)
        || failure.raw == Some(1167i32) {
        "device"@
    } else if failure.raw == Some(23i32) || failure.raw == Some(1117i32) {
        "io"@
    } else {
        match failure.kind {
            FailureKind::PermissionDenied => "permission"@,
            FailureKind::NotFound => "missing"@,
            FailureKind::Other => "other"@,
        }
    }
}

/// Why an operation failed, from its kind and number.
pub fn cause_of_failure(failure: IoFailure) -> (r: &'static str)
    ensures
        r@ == cause(failure),
{
    match failure.raw {
        Some(n) => {
            if n == 32 || n == 33 {
                return "inuse";
            }
            if n == 112 {
                return "nospace";
            }
            if n == 19 {
                return "readonly";
            }
            if n == 21 || n == 433 || n == 1006 || n == 1167 {
                return "device";
            }
            if n == 23 || n == 1117 {
                return "io";
            }
        },
        None => {},
    }
    match failure.kind {
        FailureKind::PermissionDenied => "permission",
        FailureKind::NotFound => "missing",
        FailureKind::Other => "other",
    }
}

/// Why an operation failed.
pub fn cause_of(e: &std::io::Error) -> (r: &'static str)
    ensures
        exists|failure: IoFailure|
            failure.raw == os_number(*e) && may_be_of(*e, failure.kind) && r@ == #[trigger] cause(
                failure,
            ),
{
    let failure = failure_of(e);
    cause_of_failure(failure)
}

/// A path that begins with the letter of a drive and a colon is on that drive, whatever
/// the case of the letter, and starts at its root where a separator follows.
pub proof fn law_a_drive_is_told_by_its_letter(letter: char, rest: Seq<char>)
    requires
        ('a' <= letter <= 'z') || ('A' <= letter <= 'Z'),
    ensures
        ({
            let path = seq![letter, ':'] + rest;
            &&& volume(path) matches Some(v) && v.len == 2 && !v.verbatim && !v.implied_root
                && v.letter == Some(
                if letter <= 'Z' {
                    letter
                } else {
                    (letter as u8 - 32) as u8 as char
                },
            )
            &&& has_root(path) <==> rest.len() > 0 && (rest[0] == '\\' || rest[0] == '/')
        }),
{
    let path = seq![letter, ':'] + rest;
    assert(path[0] == letter && path[1] == ':');
    if rest.len() > 0 {
        assert(path[2] == rest[0]);
    }
}

/// A share on the network is told by its server and its name, and what follows is in it.
pub proof fn law_a_share_is_told_by_server_and_name(
    server: Seq<char>,
    share: Seq<char>,
    rest: Seq<char>,
)
    requires
        server.len() > 0 && share.len() > 0,
        forall|i: int| 0 <= i < server.len() ==> server[i] != '\\' && #[trigger] server[i] != '/',
        forall|i: int| 0 <= i < share.len() ==> share[i] != '\\' && #[trigger] share[i] != '/',
        server[0] != '?' && server[0] != '.',
        rest.len() == 0 || rest[0] == '\\',
    ensures
        ({
            let root = seq!['\\', '\\'] + server + seq!['\\'] + share;
            &&& volume(root + rest) matches Some(v) && v.len == root.len() && v.letter is None
                && !v.verbatim && v.implied_root
            &&& has_root(root + rest) <==> rest.len() > 0
        }),
{
    let both = Separators::Both;
    let root = seq!['\\', '\\'] + server + seq!['\\'] + share;
    let s = root + rest;
    let a = s.skip(2);
    assert(a =~= server + (seq!['\\'] + share + rest));
    lemma_piece_in_front(server, seq!['\\'] + share + rest, both);
    let n = server.len() as int;
    assert(after_piece(a, both) =~= share + rest) by {
        assert(a.skip(n + 1) =~= share + rest);
    }
    lemma_piece_in_front(share, rest, both);
    assert(s[0] == '\\' && s[1] == '\\' && s[2] == server[0]);
    if rest.len() > 0 {
        assert(s[root.len() as int] == rest[0]);
    }
}

proof fn lemma_piece_in_front(piece: Seq<char>, rest: Seq<char>, seps: Separators)
    requires
        forall|i: int| 0 <= i < piece.len() ==> !separates(seps, #[trigger] piece[i]),
        rest.len() == 0 || separates(seps, rest[0]),
    ensures
        piece_len(piece + rest, seps) == piece.len(),
    decreases piece.len(),
{
    let s = piece + rest;
    if piece.len() > 0 {
        let less = piece.drop_first();
        assert(s.first() == piece[0]);
        assert(s.drop_first() =~= less + rest);
        assert forall|i: int| 0 <= i < less.len() implies !separates(seps, #[trigger] less[i]) by {
            assert(less[i] == piece[i + 1]);
        }
        lemma_piece_in_front(less, rest, seps);
    } else if s.len() > 0 {
        assert(s.first() == rest[0]);
    }
}

/// Up from a name on a drive is the folder that it is in, down to the root of the drive,
/// and nothing is above that.
#[verifier::rlimit(40)]
pub proof fn law_up_from_a_name(
    letter: char,
    before: Seq<char>,
    folder: Seq<char>,
    name: Seq<char>,
)
    requires
        is_drive_letter(letter),
        plain_name(name, Separators::Both),
        plain_name(folder, Separators::Both),
    ensures
        ({
            let root = seq![letter, ':', '\\'];
            let dir = root + before + seq!['\\'] + folder;
            &&& parent(root) is None && file_name(root) is None
            &&& parent(root + name) == Some(root)
            &&& parent(dir + seq!['\\'] + name) == Some(dir)
            &&& name != seq!['.', '.'] ==> file_name(root + name) == Some(name) && file_name(
                dir + seq!['\\'] + name,
            ) == Some(name)
        }),
{
    let seps = Separators::Both;
    let root = seq![letter, ':', '\\'];
    let sep = seq!['\\'];
    reveal_strlit("..");
    reveal_strlit(".");
    assert(".."@ =~= seq!['.', '.']);
    assert("."@ =~= seq!['.']);
    law_a_drive_is_told_by_its_letter(letter, sep);
    law_a_drive_is_told_by_its_letter(letter, sep + name);
    assert(seq![letter, ':'] + sep =~= root);
    assert(seq![letter, ':'] + (sep + name) =~= root + name);
    assert(tidy_end(root, 3, seps) == root);
    lemma_ends_with_name(root, 3, seps, name);
    let x = root + before + sep;
    let dir = x + folder;
    let y = dir + sep;
    let path = y + name;
    assert(dir =~= seq![letter, ':'] + (sep + before + sep + folder));
    assert(path =~= seq![letter, ':'] + (sep + before + sep + folder + sep + name));
    law_a_drive_is_told_by_its_letter(letter, sep + before + sep + folder);
    law_a_drive_is_told_by_its_letter(letter, sep + before + sep + folder + sep + name);
    assert(x.last() == '\\' && y.last() == '\\');
    lemma_ends_with_name(x, 3, seps, folder);
    lemma_ends_with_name(y, 3, seps, name);
    assert(y.drop_last() =~= dir);
}

/// The cause of a failure is what its number stands for, and without such a number what
/// the system calls it.
pub proof fn law_what_a_failure_is_called(failure: IoFailure)
    ensures
        failure.raw == Some(32i32) || failure.raw == Some(33i32) ==> cause(failure) == "inuse"@,
        failure.raw == Some(112i32) ==> cause(failure) == "nospace"@,
        failure.raw == Some(19i32) ==> cause(failure) == "readonly"@,
        failure.raw == Some(21i32) || failure.raw == Some(433i32) || failure.raw == Some(1006i32)
            || failure.raw == Some(1167i32) ==> cause(failure) == "device"@,
        failure.raw == Some(23i32) || failure.raw == Some(1117i32) ==> cause(failure) == "io"@,
        (failure.raw matches Some(n) ==> n != 32 && n != 33 && n != 112 && n != 19 && n != 21 && n
            != 433 && n != 1006 && n != 1167 && n != 23 && n != 1117) ==> cause(failure) == (
        match failure.kind {
            FailureKind::PermissionDenied => "permission"@,
            FailureKind::NotFound => "missing"@,
            FailureKind::Other => "other"@,
        }),
{
}

/// The drives that are listed are those that the mask has, in the order of their letters,
/// each with its root; and there are no others.
pub proof fn law_drives_come_by_letter(mask: u32, n: int, k: int)
    requires
        0 <= n <= 26,
        0 <= k < drives(mask, n).len(),
    ensures
        exists|i: int|
            0 <= i < n && mask & (1u32 << (i as u32)) != 0 && #[trigger] letter_of(i) == drives(
                mask,
                n,
            )[k].0[0],
        drives(mask, n)[k].0.len() == 2 && drives(mask, n)[k].0[1] == ':',
        drives(mask, n)[k].1 == drives(mask, n)[k].0 + seq!['\\'],
        'A' <= drives(mask, n)[k].0[0] <= 'Z',
        k > 0 ==> drives(mask, n)[k - 1].0[0] < drives(mask, n)[k].0[0],
    decreases n,
{
    let all = drives(mask, n);
    if n > 0 {
        let before = drives(mask, n - 1);
        if k < before.len() {
            assert(all[k] == before[k]);
            if k > 0 {
                assert(all[k - 1] == before[k - 1]);
            }
            law_drives_come_by_letter(mask, n - 1, k);
        } else {
            assert(all[k] == drive_root(letter_of(n - 1)));
            assert(letter_of(n - 1) == all[k].0[0]);
            assert(all[k].1 =~= all[k].0 + seq!['\\']);
            if k > 0 {
                law_drives_come_by_letter(mask, n - 1, k - 1);
                assert(all[k - 1] == before[k - 1]);
                let i = choose|i: int|
                    0 <= i < n - 1 && mask & (1u32 << (i as u32)) != 0 && #[trigger] letter_of(i)
                        == before[k - 1].0[0];
            }
        }
    }
}

/// The folders that the system keeps for itself are told by their whole names, whatever
/// the case of the letters.
pub proof fn law_the_systems_own_folders_are_told_by_name(name: Seq<char>)
    ensures
        kept_by_system("$RECYCLE.BIN"@),
        kept_by_system("System Volume Information"@),
        kept_by_system("Config.Msi"@),
        kept_by_system(name) ==> name.len() == 12 || name.len() == 25 || name.len() == 10,
        kept_by_system(name) <==> kept_by_system(Seq::new(name.len(), |i: int| small(name[i]))),
        forall|c: char| 'A' <= c <= 'Z' ==> #[trigger] small(c) == (c as u8 + 32) as u8 as char,
        forall|c: char| !('A' <= c <= 'Z') ==> #[trigger] small(c) == c,
{
    reveal_strlit("$RECYCLE.BIN");
    reveal_strlit("System Volume Information");
    reveal_strlit("Config.Msi");
    let low = Seq::new(name.len(), |i: int| small(name[i]));
    assert forall|word: Seq<char>| same_but_case(word, name) == #[trigger] same_but_case(
        word,
        low,
    ) by {
        if same_but_case(word, name) {
            assert forall|i: int| 0 <= i < word.len() implies small(#[trigger] word[i]) == small(
                low[i],
            ) by {}
        }
        if same_but_case(word, low) {
            assert forall|i: int| 0 <= i < word.len() implies small(#[trigger] word[i]) == small(
                name[i],
            ) by {
                assert(small(word[i]) == small(low[i]));
            }
        }
    }
    assert(same_but_case("$RECYCLE.BIN"@, low) == same_but_case("$RECYCLE.BIN"@, name));
    assert(same_but_case("System Volume Information"@, low) == same_but_case(
        "System Volume Information"@,
        name,
    ));
    assert(same_but_case("Config.Msi"@, low) == same_but_case("Config.Msi"@, name));
}

/// The trail behind a path ends with the path itself, and before that comes the trail
/// behind what is above it. A name is shown as it is, and the root of a volume without
/// the backslashes at its end.
pub proof fn law_the_trail_leads_to_the_path(path: Seq<char>)
    ensures
        trail(path).len() > 0,
        trail(path).last().1 == path,
        parent(path) is None ==> trail(path).len() == 1,
        parent(path) matches Some(p) ==> trail(path).drop_last() == trail(p),
        file_name(path) matches Some(name) ==> trail(path).last().0 == name,
        file_name(path) is None ==> trail(path).last().0.is_prefix_of(path) && !(trail(
            path,
        ).last().0.len() > 0 && trail(path).last().0.last() == '\\'),
{
    let label = |p: Seq<char>| crumb(p);
    let all = ancestors(path);
    assert(all.len() > 0 && all[0] == path);
    let shown = all.map_values(label).reverse();
    assert(shown.len() == all.len());
    assert(trail(path) =~= shown);
    assert(shown.last() == label(all[0]));
    lemma_backslashes_go(path);
    if let Some(p) = parent(path) {
        lemma_parent(path);
        let above = ancestors(p);
        assert(all =~= seq![path] + above);
        assert(shown.drop_last() =~= above.map_values(label).reverse());
        assert(trail(p) =~= above.map_values(label).reverse());
    }
}

proof fn lemma_backslashes_go(s: Seq<char>)
    ensures
        without_backslashes(s).is_prefix_of(s),
        without_backslashes(s).len() > 0 ==> without_backslashes(s).last() != '\\',
        forall|i: int| without_backslashes(s).len() <= i < s.len() ==> #[trigger] s[i] == '\\',
    decreases s.len(),
{
    if s.len() > 0 && s.last() == '\\' {
        let t = s.drop_last();
        lemma_backslashes_go(t);
        let r = without_backslashes(s);
        assert(s.take(r.len() as int) =~= t.take(r.len() as int));
        assert forall|i: int| r.len() <= i < s.len() implies #[trigger] s[i] == '\\' by {
            if i < t.len() {
                assert(t[i] == s[i]);
            }
        }
    } else {
        assert(s.take(s.len() as int) =~= s);
    }
}

/// A volume without a disk of its own is told apart: one without a name, and one on the
/// network.
pub proof fn law_the_network_has_no_disk(name: Seq<char>)
    requires
        name.len() > 0,
        name[name.len() - 1] != '\\',
    ensures
        no_disk(Seq::empty()),
        no_disk(seq!['\\']),
        no_disk(seq!['\\', '\\'] + name),
        name[0] != '\\' ==> !no_disk(name) && !no_disk(name + seq!['\\']),
{
    reveal_with_fuel(without_backslashes, 2);
    let net = seq!['\\', '\\'] + name;
    assert(net.last() == name[name.len() - 1]);
    assert(seq!['\\'].drop_last() =~= Seq::<char>::empty());
    let rooted = name + seq!['\\'];
    assert(rooted.last() == '\\');
    assert(rooted.drop_last() =~= name);
    assert(name.last() == name[name.len() - 1]);
}

/// The tool is looked for under every root in turn, and the first that has it counts.
pub proof fn law_the_first_installation_counts(before: Seq<(String, bool)>, at: String, after: Seq<(String, bool)>)
    requires
        forall|i: int| 0 <= i < before.len() ==> !(#[trigger] before[i]).1,
    ensures
        first_installed(before + seq![(at, true)] + after) == Some(
            joined(joined(joined(at@, "smartmontools"@), "bin"@), "smartctl.exe"@),
        ),
        first_installed(before) is None,
    decreases before.len(),
{
    let all = before + seq![(at, true)] + after;
    if before.len() == 0 {
        assert(all.first() == (at, true));
    } else {
        let less = before.drop_first();
        assert(all.first() == before[0] && before.first() == before[0]);
        assert(all.drop_first() =~= less + seq![(at, true)] + after);
        assert forall|i: int| 0 <= i < less.len() implies !(#[trigger] less[i]).1 by {
            assert(less[i] == before[i + 1]);
        }
        law_the_first_installation_counts(less, at, after);
    }
}

/// A path with a volume of its own stands for itself, wherever it is put, and one that
/// starts at a root keeps only the volume of where it is put.
pub proof fn law_a_rooted_path_keeps_the_volume(root: Seq<char>, rel: Seq<char>)
    requires
        !to_the_letter(root),
    ensures
        volume(rel) is Some ==> joined(root, rel) == rel,
        volume(rel) is None && has_root(rel) ==> joined(root, rel) == root.take(volume_len(root))
            + rel,
        placed_in(root, Seq::empty()) == root,
{
}

/// A failure that is known by its number alone is told by that number.
pub proof fn law_a_number_tells_the_failure(n: int)
    ensures
        n >= 0 ==> numbered(n) == "Windows error "@ + decimal(n as nat),
        n < 0 ==> numbered(n) == "Windows error -"@ + decimal((-n) as nat),
{
    reveal_strlit("Windows error ");
    reveal_strlit("Windows error -");
    if n < 0 {
        assert("Windows error -"@ =~= "Windows error "@ + seq!['-']);
        assert(numbered(n) =~= "Windows error -"@ + decimal((-n) as nat));
    }
}

/// A path that is to be taken to the letter starts from a share, a drive, or anything
/// else by its name, each behind the marker of four characters.
#[verifier::rlimit(40)]
pub proof fn law_a_path_to_the_letter_names_its_volume(
    server: Seq<char>,
    share: Seq<char>,
    letter: char,
    rest: Seq<char>,
)
    requires
        server.len() > 0 && share.len() > 0,
        forall|i: int| 0 <= i < server.len() ==> #[trigger] server[i] != '\\',
        forall|i: int| 0 <= i < share.len() ==> #[trigger] share[i] != '\\',
        ('a' <= letter <= 'z') || ('A' <= letter <= 'Z'),
        rest.len() == 0 || rest[0] == '\\',
    ensures
        ({
            let root = seq!['\\', '\\', '?', '\\', 'U', 'N', 'C', '\\'] + server + seq!['\\'] + share;
            &&& volume(root + rest) matches Some(v) && v.len == root.len() && v.letter is None
                && v.verbatim && v.implied_root
            &&& has_root(root + rest) <==> rest.len() > 0
        }),
        ({
            let root = seq!['\\', '\\', '?', '\\', letter, ':'];
            &&& volume(root + rest) matches Some(v) && v.len == 6 && v.verbatim && v.implied_root
                && v.letter == volume(seq![letter, ':'])->0.letter
            &&& has_root(root + rest) <==> rest.len() > 0
        }),
        ({
            let root = seq!['\\', '\\', '?', '\\'] + server;
            server.len() > 3 && !server.contains('/') ==> (volume(root + rest) matches Some(v) && v.len
                == root.len() && v.letter is None && v.verbatim && v.implied_root)
        }),
{
    let seps = Separators::Backslash;
    let mark = seq!['\\', '\\', '?', '\\', 'U', 'N', 'C', '\\'];
    let root = mark + server + seq!['\\'] + share;
    let s = root + rest;
    assert(forall|i: int| 0 <= i < 8 ==> s[i] == mark[i]);
    let a = s.skip(8);
    let more = seq!['\\'] + share + rest;
    assert(a =~= server + more);
    lemma_piece_in_front(server, more, seps);
    assert(after_piece(a, seps) =~= share + rest);
    lemma_piece_in_front(share, rest, seps);
    if rest.len() > 0 {
        assert(s[root.len() as int] == rest[0]);
    }
    let drive = seq!['\\', '\\', '?', '\\', letter, ':'];
    let d = drive + rest;
    assert(forall|i: int| 0 <= i < 6 ==> d[i] == drive[i]);
    if rest.len() > 0 {
        assert(d[6] == rest[0]);
    }
    let own = seq!['\\', '\\', '?', '\\'] + server;
    let o = own + rest;
    assert(forall|i: int| 0 <= i < server.len() ==> o[i + 4] == server[i]);
    assert(o[0] == '\\' && o[1] == '\\' && o[2] == '?' && o[3] == '\\');
    assert(o.skip(4) =~= server + rest);
    lemma_piece_in_front(server, rest, seps);
    if server.len() > 3 && !server.contains('/') {
        assert(o[6] == server[2] && o[7] == server[3]);
        assert(server.contains(server[2]) && server.contains(server[3]));
    }
}

/// In a path that is to be taken to the letter a step up takes the last real name away, at
/// the top it does nothing, and any other name is put behind.
pub proof fn law_a_step_up_takes_a_name_away(
    so_far: Seq<Seq<char>>,
    last: Seq<char>,
    name: Seq<char>,
)
    requires
        last != seq!['.', '.'] && last != seq!['.'],
        name != seq!['.', '.'],
    ensures
        stepped(so_far.push(last), seq!['.', '.']) == so_far,
        stepped(Seq::empty(), seq!['.', '.']) == Seq::<Seq<char>>::empty(),
        stepped(so_far, name) == so_far.push(name),
        walked(so_far, seq![last, seq!['.', '.']]) == so_far,
        written(so_far.push(name)) == written(so_far) + seq!['\\'] + name,
{
    reveal_strlit("..");
    reveal_strlit(".");
    reveal_strlit("\\");
    assert(".."@ =~= seq!['.', '.'] && "."@ =~= seq!['.'] && "\\"@ =~= seq!['\\']);
    let up = seq!['.', '.'];
    assert(so_far.push(last).drop_last() =~= so_far);
    let both = seq![last, up];
    assert(both.drop_last() =~= seq![last] && both.last() == up);
    assert(seq![last].drop_last() =~= Seq::<Seq<char>>::empty() && seq![last].last() == last);
    reveal_with_fuel(walked, 3);
    assert(so_far.push(name).drop_last() =~= so_far && so_far.push(name).last() == name);
}

/// Of the units that the system fills in, those in front of the first zero count.
pub proof fn law_a_text_ends_at_its_zero(front: Seq<u16>, rest: Seq<u16>)
    requires
        !front.contains(0),
    ensures
        up_to_zero(front) == front,
        up_to_zero(front + seq![0u16] + rest) == front,
    decreases front.len(),
{
    let all = front + seq![0u16] + rest;
    if front.len() == 0 {
        assert(all.first() == 0);
        assert(up_to_zero(front) =~= front);
    } else {
        let less = front.drop_first();
        assert(front.contains(front[0]));
        assert(!less.contains(0)) by {
            if less.contains(0) {
                let k = choose|k: int| 0 <= k < less.len() && less[k] == 0;
                assert(front[k + 1] == 0);
            }
        }
        law_a_text_ends_at_its_zero(less, rest);
        assert(all.first() == front[0]);
        assert(all.drop_first() =~= less + seq![0u16] + rest);
        assert(seq![front[0]] + less =~= front);
    }
}

/// A dot in front stands for the folder one is in, and above it there is only the empty
/// path.
pub proof fn law_up_from_here(name: Seq<char>)
    requires
        plain_name(name, Separators::Both),
        name != seq!['.', '.'],
    ensures
        parent(seq!['.', '\\'] + name) == Some(seq!['.']),
        file_name(seq!['.', '\\'] + name) == Some(name),
        parent(seq!['.']) == Some(Seq::<char>::empty()),
        file_name(seq!['.']) is None,
{
    let seps = Separators::Both;
    reveal_strlit("..");
    reveal_strlit(".");
    assert(".."@ =~= seq!['.', '.']);
    assert("."@ =~= seq!['.']);
    let here = seq!['.', '\\'];
    let path = here + name;
    assert(path[0] == '.' && path[1] == '\\');
    assert(volume(path) is None && has_here(path) && body_of(path) == 1);
    lemma_ends_with_name(here, 1, seps, name);
    assert(here.drop_last() =~= seq!['.']);
    assert(tidy_end(seq!['.'], 1, seps) == seq!['.']);
    let dot = seq!['.'];
    assert(volume(dot) is None && has_here(dot) && body_of(dot) == 1);
}

/// Behind the marker for the network a server alone is a volume too, and a separator with
/// nothing behind it does not belong to it.
pub proof fn law_a_server_alone_is_a_volume(server: Seq<char>)
    requires
        forall|i: int| 0 <= i < server.len() ==> #[trigger] server[i] != '\\',
    ensures
        ({
            let root = seq!['\\', '\\', '?', '\\', 'U', 'N', 'C', '\\'] + server;
            &&& volume_len(root) == root.len()
            &&& volume_len(root + seq!['\\']) == root.len()
        }),
{
    let seps = Separators::Backslash;
    let mark = seq!['\\', '\\', '?', '\\', 'U', 'N', 'C', '\\'];
    let none = Seq::<char>::empty();
    let root = mark + server;
    let more = root + seq!['\\'];
    assert(forall|i: int| 0 <= i < 8 ==> root[i] == mark[i]);
    assert(forall|i: int| 0 <= i < 8 ==> more[i] == mark[i]);
    assert(root.skip(8) =~= server + none);
    assert(more.skip(8) =~= server + seq!['\\']);
    lemma_piece_in_front(server, none, seps);
    lemma_piece_in_front(server, seq!['\\'], seps);
    assert(after_piece(root.skip(8), seps) =~= none);
    assert(after_piece(more.skip(8), seps) =~= none);
}

} // verus!
