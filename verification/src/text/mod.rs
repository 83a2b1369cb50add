//! Text as sequences of characters.
//!
//! Strings are taken apart into characters at the edge of a function, worked
//! on as slices, and put together again at the end. The specifications speak
//! of `Seq<char>` throughout.
use vstd::prelude::*;
use vstd::string::StringExecFns;

pub mod number;
pub mod order;
pub mod search;
pub mod utf16;

verus! {

/// `String::push`: appends one character at the end.
pub assume_specification[ String::push ](s: &mut String, c: char)
    ensures
        final(s)@ == old(s)@.push(c),
;

/// The lower-case form of a text, as `str::to_lowercase` gives it.
pub uninterp spec fn lowercase(s: Seq<char>) -> Seq<char>;

/// `str::to_lowercase`. The Unicode case tables decide the result, which
/// depends on the text alone.
#[verifier::external_body]
pub(crate) fn to_lower(s: &str) -> (r: String)
    ensures
        r@ == lowercase(s@),
{
    s.to_lowercase()
}

/// What `String::from_utf8_lossy` makes of a sequence of bytes.
pub uninterp spec fn lossy_text(bytes: Seq<u8>) -> Seq<char>;

/// `String::from_utf8_lossy`. Bytes that already are UTF-8 come back as the
/// text that they encode; what stands in for the rest is left to the name.
#[verifier::external_body]
pub(crate) fn utf8_lossy(bytes: &[u8]) -> (r: String)
    ensures
        r@ == lossy_text(bytes@),
        vstd::utf8::valid_utf8(bytes@) ==> r@ == vstd::utf8::decode_utf8(bytes@),
{
    String::from_utf8_lossy(bytes).into_owned()
}

/// The characters of a string, in order.
pub fn chars_of(s: &str) -> (r: Vec<char>)
    ensures
        r@ == s@,
{
    let mut r: Vec<char> = Vec::new();
    for c in it: s.chars()
        invariant
            r@ == it.seq().take(it.index()),
            it.seq() == s@,
    {
        r.push(c);
    }
    r
}

/// A string made of the given characters.
pub fn string_of(v: &[char]) -> (r: String)
    ensures
        r@ == v@,
{
    let mut r = String::new();
    let n: usize = v.len();
    for i in 0..n
        invariant
            n == v@.len(),
            r@ == v@.take(i as int),
    {
        r.push(v[i]);
    }
    r
}

/// Whether two slices hold the same characters.
pub fn same(a: &[char], b: &[char]) -> (r: bool)
    ensures
        r == (a@ == b@),
{
    if a.len() != b.len() {
        return false;
    }
    let n: usize = a.len();
    for i in 0..n
        invariant
            n == a@.len(),
            n == b@.len(),
            forall|j: int| 0 <= j < i ==> a@[j] == b@[j],
    {
        if a[i] != b[i] {
            assert(a@[i as int] != b@[i as int]);
            return false;
        }
    }
    assert(a@ =~= b@);
    true
}

/// Whether two strings hold the same text.
pub fn same_str(a: &str, b: &str) -> (r: bool)
    ensures
        r == (a@ == b@),
{
    let x = chars_of(a);
    let y = chars_of(b);
    same(&x, &y)
}

/// Whether a slice holds the text of a string.
pub fn reads(s: &[char], word: &str) -> (r: bool)
    ensures
        r == (s@ == word@),
{
    let w = chars_of(word);
    same(s, &w)
}

/// One text after the other.
pub fn join2(a: &str, b: &str) -> (r: String)
    ensures
        r@ == a@ + b@,
{
    let mut s = a.to_owned();
    s.append(b);
    s
}

/// Three texts, one after the other.
pub fn join3(a: &str, b: &str, c: &str) -> (r: String)
    ensures
        r@ == a@ + b@ + c@,
{
    let mut s = join2(a, b);
    s.append(c);
    s
}

/// Four texts, one after the other.
pub fn join4(a: &str, b: &str, c: &str, d: &str) -> (r: String)
    ensures
        r@ == a@ + b@ + c@ + d@,
{
    let mut s = join3(a, b, c);
    s.append(d);
    s
}

/// Appends the characters of a slice to a vector.
pub fn push_all(v: &mut Vec<char>, more: &[char])
    ensures
        final(v)@ == old(v)@ + more@,
{
    let n: usize = more.len();
    let ghost before = v@;
    for i in 0..n
        invariant
            n == more@.len(),
            v@ == before + more@.take(i as int),
    {
        v.push(more[i]);
        assert(more@.take(i as int + 1) =~= more@.take(i as int).push(more@[i as int]));
    }
    assert(more@.take(n as int) =~= more@);
}

/// The texts behind a list of slices.
pub open spec fn views(v: Seq<&[char]>) -> Seq<Seq<char>> {
    Seq::new(v.len(), |i: int| v[i]@)
}

/// The texts behind a list of strings.
pub open spec fn texts(v: Seq<String>) -> Seq<Seq<char>> {
    Seq::new(v.len(), |i: int| v[i]@)
}

/// Whether a list of strings holds a text.
pub fn listed(v: &Vec<String>, s: &[char]) -> (r: bool)
    ensures
        r == texts(v@).contains(s@),
{
    let n: usize = v.len();
    for i in 0..n
        invariant
            n == v@.len(),
            forall|k: int| 0 <= k < i ==> #[trigger] v@[k]@ != s@,
    {
        if reads(s, &v[i]) {
            assert(texts(v@)[i as int] == s@);
            return true;
        }
    }
    assert forall|k: int| 0 <= k < texts(v@).len() implies texts(v@)[k] != s@ by {
        assert(v@[k]@ != s@);
    }
    false
}

/// The text behind an optional string.
pub open spec fn opt_text(s: Option<String>) -> Option<Seq<char>> {
    match s {
        Some(t) => Some(t@),
        None => None,
    }
}

/// Characters that carry the Unicode property White_Space.
pub open spec fn is_space(c: char) -> bool {
    let n = c as int;
    ||| 0x9 <= n <= 0xd
    ||| n == 0x20
    ||| n == 0x85
    ||| n == 0xa0
    ||| n == 0x1680
    ||| 0x2000 <= n <= 0x200a
    ||| n == 0x2028
    ||| n == 0x2029
    ||| n == 0x202f
    ||| n == 0x205f
    ||| n == 0x3000
}

/// Whether a character is white space.
pub fn is_space_char(c: char) -> (r: bool)
    ensures
        r == is_space(c),
{
    let n: u32 = c as u32;
    (0x9 <= n && n <= 0xd) || n == 0x20 || n == 0x85 || n == 0xa0 || n == 0x1680 || (0x2000 <= n
        && n <= 0x200a) || n == 0x2028 || n == 0x2029 || n == 0x202f || n == 0x205f || n == 0x3000
}

/// ASCII letters and digits.
pub open spec fn is_alphanumeric(c: char) -> bool {
    ('0' <= c <= '9') || ('a' <= c <= 'z') || ('A' <= c <= 'Z')
}

/// Whether a character is an ASCII letter or digit.
pub fn is_alphanumeric_char(c: char) -> (r: bool)
    ensures
        r == is_alphanumeric(c),
{
    ('0' <= c && c <= '9') || ('a' <= c && c <= 'z') || ('A' <= c && c <= 'Z')
}

/// White space is what Unicode calls so: of the plain characters the space and the five
/// control characters from the tab to the carriage return, and no letter or digit.
pub proof fn law_what_white_space_is(c: char)
    ensures
        (c as int) < 0x80 ==> (is_space(c) <==> c == ' ' || 9 <= c as int <= 13),
        0x80 <= (c as int) ==> (is_space(c) <==> c as int == 0x85 || c as int == 0xa0 || c as int
            == 0x1680 || 0x2000 <= c as int <= 0x200a || c as int == 0x2028 || c as int == 0x2029
            || c as int == 0x202f || c as int == 0x205f || c as int == 0x3000),
        is_alphanumeric(c) ==> !is_space(c),
{
}

} // verus!
