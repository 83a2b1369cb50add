//! Text in the sixteen-bit form that the calls of one of the systems want.
use vstd::prelude::*;
use vstd::slice::slice_subrange;

use super::{chars_of, string_of};

verus! {

/// `char::from_u32`: the character with the given number, where there is one.
/// The numbers between 0xd800 and 0xdfff are those of half a pair and of no
/// character.
pub assume_specification[ char::from_u32 ](i: u32) -> (r: Option<char>)
    ensures
        r == (if i < 0xd800 || 0xe000 <= i < 0x110000 {
            Some(i as char)
        } else {
            None
        }),
;

/// The units of one character: one, or a pair of surrogates.
pub open spec fn units(c: char) -> Seq<u16> {
    let n = c as int;
    if n < 0x10000 {
        seq![n as u16]
    } else {
        seq![(0xd800 + (n - 0x10000) / 0x400) as u16, (0xdc00 + (n - 0x10000) % 0x400) as u16]
    }
}

/// A text in sixteen-bit units.
pub open spec fn encoded(s: Seq<char>) -> Seq<u16>
    decreases s.len(),
{
    if s.len() == 0 {
        Seq::empty()
    } else {
        encoded(s.drop_last()) + units(s.last())
    }
}

/// The first half of a pair.
pub open spec fn leads(u: u16) -> bool {
    0xd800 <= u < 0xdc00
}

/// The second half of a pair.
pub open spec fn trails(u: u16) -> bool {
    0xdc00 <= u < 0xe000
}

/// The character of a pair.
pub open spec fn paired(lead: u16, trail: u16) -> char {
    (0x10000 + (lead - 0xd800) * 0x400 + (trail - 0xdc00)) as char
}

/// The text behind sixteen-bit units; half a pair without the other half becomes
/// the character that stands for what cannot be read.
pub open spec fn decoded(u: Seq<u16>) -> Seq<char>
    decreases u.len(),
{
    if u.len() == 0 {
        Seq::empty()
    } else if !leads(u[0]) && !trails(u[0]) {
        seq![u[0] as char] + decoded(u.skip(1))
    } else if leads(u[0]) && u.len() > 1 && trails(u[1]) {
        seq![paired(u[0], u[1])] + decoded(u.skip(2))
    } else {
        seq!['\u{fffd}'] + decoded(u.skip(1))
    }
}

/// The numbers of characters.
proof fn lemma_char_number(c: char)
    ensures
        0 <= c as int && ((c as int) < 0xd800 || 0xe000 <= c as int) && (c as int) < 0x110000,
        (c as u32) as int == c as int,
{
}

/// A text in the form that the calls want: sixteen-bit units with a zero at the
/// end.
pub fn wide(s: &str) -> (r: Vec<u16>)
    ensures
        r@ == encoded(s@).push(0),
{
    let chars = chars_of(s);
    let n: usize = chars.len();
    let mut out: Vec<u16> = Vec::new();
    for i in 0..n
        invariant
            n == chars@.len(),
            out@ == encoded(chars@.take(i as int)),
    {
        let ghost front = chars@.take(i as int + 1);
        assert(front.drop_last() =~= chars@.take(i as int));
        assert(front.last() == chars@[i as int]);
        let ghost before = out@;
        let ch: char = chars[i];
        let c: u32 = ch as u32;
        proof {
            lemma_char_number(chars@[i as int]);
        }
        if c < 0x10000 {
            out.push(c as u16);
            assert(out@ =~= before + units(chars@[i as int]));
        } else {
            let rest: u32 = c - 0x10000;
            out.push((0xd800 + rest / 0x400) as u16);
            out.push((0xdc00 + rest % 0x400) as u16);
            assert(out@ =~= before + units(chars@[i as int]));
        }
    }
    assert(chars@.take(n as int) =~= chars@);
    out.push(0);
    out
}

/// The character with the given number.
fn char_with(n: u32) -> (r: char)
    requires
        n < 0xd800 || 0xe000 <= n < 0x110000,
    ensures
        r == n as char,
{
    match char::from_u32(n) {
        Some(c) => c,
        None => '\u{fffd}',
    }
}

/// The text behind sixteen-bit units.
pub fn narrow(u: &[u16]) -> (r: String)
    ensures
        r@ == decoded(u@),
{
    let mut out: Vec<char> = Vec::new();
    let mut rest: &[u16] = u;
    assert(decoded(u@) =~= out@ + decoded(rest@));
    while rest.len() > 0
        invariant
            decoded(u@) =~= out@ + decoded(rest@),
        decreases rest@.len(),
    {
        let ghost whole = rest@;
        let n: usize = rest.len();
        let a: u16 = rest[0];
        if a < 0xd800 || a >= 0xe000 {
            out.push(char_with(a as u32));
            rest = slice_subrange(rest, 1, n);
            assert(rest@ =~= whole.skip(1));
        } else if a < 0xdc00 && n > 1 && 0xdc00 <= rest[1] && rest[1] < 0xe000 {
            let b: u16 = rest[1];
            let c: u32 = 0x10000 + (a as u32 - 0xd800) * 0x400 + (b as u32 - 0xdc00);
            out.push(char_with(c));
            rest = slice_subrange(rest, 2, n);
            assert(rest@ =~= whole.skip(2));
        } else {
            out.push('\u{fffd}');
            rest = slice_subrange(rest, 1, n);
            assert(rest@ =~= whole.skip(1));
        }
    }
    assert(decoded(rest@) =~= Seq::<char>::empty());
    string_of(&out)
}

/// What was written in sixteen-bit units reads as it was written.
pub proof fn law_wide_text_reads_back(s: Seq<char>)
    ensures
        decoded(encoded(s)) == s,
    decreases s.len(),
{
    lemma_decoded_after(s, Seq::empty());
    assert(encoded(s) + Seq::<u16>::empty() =~= encoded(s));
    assert(decoded(Seq::<u16>::empty()) =~= Seq::<char>::empty());
}

proof fn lemma_decoded_after(s: Seq<char>, rest: Seq<u16>)
    ensures
        decoded(encoded(s) + rest) =~= s + decoded(rest),
    decreases s.len(),
{
    if s.len() == 0 {
        assert(encoded(s) + rest =~= rest);
    } else {
        let c = s.last();
        let n = c as int;
        lemma_char_number(c);
        let more = units(c) + rest;
        assert(encoded(s) + rest =~= encoded(s.drop_last()) + more);
        lemma_decoded_after(s.drop_last(), more);
        if n < 0x10000 {
            assert(more.skip(1) =~= rest);
            assert(more[0] == n);
        } else {
            assert(more.skip(2) =~= rest);
            assert(0 <= (n - 0x10000) / 0x400 < 0x400);
            assert(more[0] == 0xd800 + (n - 0x10000) / 0x400);
            assert(more[1] == 0xdc00 + (n - 0x10000) % 0x400);
            assert(paired(more[0], more[1]) == c);
        }
        assert(decoded(more) =~= seq![c] + decoded(rest));
    }
}

/// A unit that stands for no character by itself, and has not its other half behind it, is
/// read as the character for what cannot be read, and what follows is read on.
pub proof fn law_half_a_character_is_replaced(u: u16, rest: Seq<u16>)
    requires
        0xd800 <= u < 0xe000,
        u < 0xdc00 ==> rest.len() == 0 || !(0xdc00 <= rest[0] < 0xe000),
    ensures
        decoded(seq![u] + rest) == seq!['\u{fffd}'] + decoded(rest),
{
    let all = seq![u] + rest;
    assert(all[0] == u);
    if rest.len() > 0 {
        assert(all[1] == rest[0]);
    }
    assert(all.skip(1) =~= rest);
}

} // verus!
