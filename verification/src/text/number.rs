//! Numbers written in text.
use vstd::prelude::*;
use vstd::slice::slice_subrange;

verus! {

/// Decimal digits.
pub open spec fn is_digit(c: char) -> bool {
    '0' <= c <= '9'
}

/// Hexadecimal digits, in either case.
pub open spec fn is_hex_digit(c: char) -> bool {
    ('0' <= c <= '9') || ('a' <= c <= 'f') || ('A' <= c <= 'F')
}

/// What a hexadecimal digit counts for; decimal digits are the first ten.
pub open spec fn digit_value(c: char) -> nat {
    if '0' <= c <= '9' {
        (c as int - '0' as int) as nat
    } else if 'a' <= c <= 'f' {
        (c as int - 'a' as int + 10) as nat
    } else if 'A' <= c <= 'F' {
        (c as int - 'A' as int + 10) as nat
    } else {
        0
    }
}

/// How many decimal digits stand in front.
pub open spec fn digit_run(s: Seq<char>) -> nat
    decreases s.len(),
{
    if s.len() == 0 || !is_digit(s.first()) {
        0
    } else {
        1 + digit_run(s.drop_first())
    }
}

/// How many hexadecimal digits stand in front.
pub open spec fn hex_run(s: Seq<char>) -> nat
    decreases s.len(),
{
    if s.len() == 0 || !is_hex_digit(s.first()) {
        0
    } else {
        1 + hex_run(s.drop_first())
    }
}

/// The number that a row of digits writes, most significant digit first.
pub open spec fn value_of(s: Seq<char>, radix: nat) -> nat
    decreases s.len(),
{
    if s.len() == 0 {
        0
    } else {
        value_of(s.drop_last(), radix) * radix + digit_value(s.last())
    }
}

/// The number written by the decimal digits in front of a text, if there are
/// any and it does not exceed `max`.
pub open spec fn leading_number(s: Seq<char>, max: nat) -> Option<nat> {
    let d = s.take(digit_run(s) as int);
    if d.len() > 0 && value_of(d, 10) <= max {
        Some(value_of(d, 10))
    } else {
        None
    }
}

/// The number written by the hexadecimal digits in front of a text, if there
/// are any and it does not exceed `max`.
pub open spec fn leading_hex(s: Seq<char>, max: nat) -> Option<nat> {
    let d = s.take(hex_run(s) as int);
    if d.len() > 0 && value_of(d, 16) <= max {
        Some(value_of(d, 16))
    } else {
        None
    }
}

/// The number that a whole text writes: decimal digits, with a plus sign in
/// front or none, and no more than `max`.
pub open spec fn whole_number(s: Seq<char>, max: nat) -> Option<nat> {
    let d = if s.len() > 0 && s.first() == '+' {
        s.drop_first()
    } else {
        s
    };
    if d.len() > 0 && digit_run(d) == d.len() && value_of(d, 10) <= max {
        Some(value_of(d, 10))
    } else {
        None
    }
}

/// Whether a character is a decimal digit.
pub fn is_digit_char(c: char) -> (r: bool)
    ensures
        r == is_digit(c),
{
    '0' <= c && c <= '9'
}

/// Whether a character is a hexadecimal digit.
pub fn is_hex_digit_char(c: char) -> (r: bool)
    ensures
        r == is_hex_digit(c),
{
    ('0' <= c && c <= '9') || ('a' <= c && c <= 'f') || ('A' <= c && c <= 'F')
}

/// What a digit counts for.
fn digit_of(c: char) -> (r: u64)
    ensures
        r == digit_value(c),
        r < 16,
        is_digit(c) ==> r < 10,
{
    if '0' <= c && c <= '9' {
        (c as u32 - '0' as u32) as u64
    } else if 'a' <= c && c <= 'f' {
        (c as u32 - 'a' as u32 + 10) as u64
    } else if 'A' <= c && c <= 'F' {
        (c as u32 - 'A' as u32 + 10) as u64
    } else {
        0
    }
}

/// A run of digits is no longer than the text, and all of it is digits.
pub proof fn lemma_digit_run(s: Seq<char>)
    ensures
        digit_run(s) <= s.len(),
        forall|i: int| 0 <= i < digit_run(s) ==> is_digit(#[trigger] s[i]),
        digit_run(s) < s.len() ==> !is_digit(s[digit_run(s) as int]),
    decreases s.len(),
{
    if s.len() > 0 && is_digit(s.first()) {
        let t = s.drop_first();
        lemma_digit_run(t);
        assert forall|i: int| 0 <= i < digit_run(s) implies is_digit(#[trigger] s[i]) by {
            if i > 0 {
                assert(s[i] == t[i - 1]);
            }
        }
    }
}

/// A run of hexadecimal digits is no longer than the text.
pub proof fn lemma_hex_run(s: Seq<char>)
    ensures
        hex_run(s) <= s.len(),
    decreases s.len(),
{
    if s.len() > 0 && is_hex_digit(s.first()) {
        lemma_hex_run(s.drop_first());
    }
}

/// The decimal digits in front of a slice.
pub fn digits_in_front(s: &[char]) -> (r: &[char])
    ensures
        r@ == s@.take(digit_run(s@) as int),
        r@.len() == digit_run(s@),
        forall|i: int| 0 <= i < r@.len() ==> is_digit(#[trigger] r@[i]),
{
    let mut i: usize = 0;
    assert(s@.skip(0) =~= s@);
    while i < s.len() && is_digit_char(s[i])
        invariant
            i <= s@.len(),
            digit_run(s@) == i + digit_run(s@.skip(i as int)),
        decreases s@.len() - i,
    {
        assert(s@.skip(i as int).drop_first() =~= s@.skip(i as int + 1));
        i = i + 1;
    }
    proof {
        lemma_digit_run(s@);
    }
    slice_subrange(s, 0, i)
}

/// The hexadecimal digits in front of a slice.
pub fn hex_in_front(s: &[char]) -> (r: &[char])
    ensures
        r@ == s@.take(hex_run(s@) as int),
{
    let mut i: usize = 0;
    assert(s@.skip(0) =~= s@);
    while i < s.len() && is_hex_digit_char(s[i])
        invariant
            i <= s@.len(),
            hex_run(s@) == i + hex_run(s@.skip(i as int)),
        decreases s@.len() - i,
    {
        assert(s@.skip(i as int).drop_first() =~= s@.skip(i as int + 1));
        i = i + 1;
    }
    proof {
        lemma_hex_run(s@);
    }
    slice_subrange(s, 0, i)
}

/// The number that digits write never shrinks as more digits follow.
proof fn lemma_value_grows(s: Seq<char>, radix: nat, n: int)
    requires
        radix >= 1,
        0 <= n <= s.len(),
    ensures
        value_of(s.take(n), radix) <= value_of(s, radix),
    decreases s.len() - n,
{
    if n < s.len() {
        lemma_value_grows(s, radix, n + 1);
        let t = s.take(n + 1);
        assert(t.drop_last() =~= s.take(n));
        let v = value_of(s.take(n), radix);
        assert(v * radix >= v) by (nonlinear_arith)
            requires
                radix >= 1,
        ;
    } else {
        assert(s.take(n) =~= s);
    }
}

/// The number that digits write, unless it exceeds `max`.
pub fn read_digits(s: &[char], radix: u64, max: u64) -> (r: Option<u64>)
    requires
        1 <= radix <= 16,
    ensures
        match r {
            Some(n) => n == value_of(s@, radix as nat) && n <= max,
            None => value_of(s@, radix as nat) > max,
        },
{
    let n: usize = s.len();
    let mut acc: u64 = 0;
    for i in 0..n
        invariant
            1 <= radix <= 16,
            n == s@.len(),
            acc == value_of(s@.take(i as int), radix as nat),
            acc <= max,
    {
        proof {
            assert(s@.take(i as int + 1).drop_last() =~= s@.take(i as int));
            lemma_value_grows(s@, radix as nat, i as int + 1);
        }
        let d: u64 = digit_of(s[i]);
        assert(acc * radix <= u64::MAX * 16) by (nonlinear_arith)
            requires
                0 <= acc <= u64::MAX,
                1 <= radix <= 16,
        ;
        let wide: u128 = acc as u128 * radix as u128 + d as u128;
        assert(wide == value_of(s@.take(i as int + 1), radix as nat));
        if wide > max as u128 {
            return None;
        }
        acc = wide as u64;
    }
    assert(s@.take(n as int) =~= s@);
    Some(acc)
}

/// The number in front of a slice, up to `max`.
pub fn number_in_front(s: &[char], max: u64) -> (r: Option<u64>)
    ensures
        match r {
            Some(n) => leading_number(s@, max as nat) == Some(n as nat),
            None => leading_number(s@, max as nat) is None,
        },
{
    let d = digits_in_front(s);
    if d.len() == 0 {
        return None;
    }
    read_digits(d, 10, max)
}

/// The hexadecimal number in front of a slice, up to `max`.
pub fn hex_number_in_front(s: &[char], max: u64) -> (r: Option<u64>)
    ensures
        match r {
            Some(n) => leading_hex(s@, max as nat) == Some(n as nat),
            None => leading_hex(s@, max as nat) is None,
        },
{
    let d = hex_in_front(s);
    if d.len() == 0 {
        return None;
    }
    read_digits(d, 16, max)
}

/// The number that a whole slice writes, up to `max`.
pub fn number_of(s: &[char], max: u64) -> (r: Option<u64>)
    ensures
        match r {
            Some(n) => whole_number(s@, max as nat) == Some(n as nat),
            None => whole_number(s@, max as nat) is None,
        },
{
    let d = if s.len() > 0 && s[0] == '+' {
        let t = slice_subrange(s, 1, s.len());
        assert(t@ =~= s@.drop_first());
        t
    } else {
        s
    };
    proof {
        lemma_digit_run(d@);
    }
    let front = digits_in_front(d);
    if d.len() == 0 || front.len() != d.len() {
        return None;
    }
    read_digits(d, 10, max)
}

/// The digit that stands for a number below sixteen, in lower case.
pub open spec fn digit_char(n: nat) -> char {
    if n < 10 {
        ('0' as int + n) as char
    } else {
        ('a' as int + n - 10) as char
    }
}

/// The digit for a number below sixteen.
fn char_of_digit(n: u64) -> (r: char)
    requires
        n < 16,
    ensures
        r == digit_char(n as nat),
{
    if n < 10 {
        (48u8 + n as u8) as char
    } else {
        (97u8 + (n - 10) as u8) as char
    }
}

/// A number in decimal, without leading zeros.
pub open spec fn decimal(n: nat) -> Seq<char>
    decreases n,
{
    if n < 10 {
        seq![digit_char(n)]
    } else {
        decimal(n / 10).push(digit_char(n % 10))
    }
}

/// A decimal has at least one digit, and nothing but digits.
pub proof fn lemma_decimal_digits(n: nat)
    ensures
        decimal(n).len() >= 1,
        forall|i: int| 0 <= i < decimal(n).len() ==> is_digit(#[trigger] decimal(n)[i]),
    decreases n,
{
    if n >= 10 {
        lemma_decimal_digits(n / 10);
    }
}

/// A decimal writes its number.
pub proof fn lemma_decimal_value(n: nat)
    ensures
        value_of(decimal(n), 10) == n,
    decreases n,
{
    if n < 10 {
        assert(decimal(n).drop_last() =~= Seq::<char>::empty());
        assert(value_of(Seq::<char>::empty(), 10) == 0);
    } else {
        lemma_decimal_value(n / 10);
        assert(decimal(n).drop_last() =~= decimal(n / 10));
    }
}

/// Two numbers with the same decimal are the same number.
pub proof fn lemma_decimal_injective(a: nat, b: nat)
    requires
        decimal(a) == decimal(b),
    ensures
        a == b,
{
    lemma_decimal_value(a);
    lemma_decimal_value(b);
}

/// A number in decimal.
pub fn decimal_chars(n: u64) -> (r: Vec<char>)
    ensures
        r@ == decimal(n as nat),
    decreases n,
{
    if n < 10 {
        let mut v: Vec<char> = Vec::new();
        v.push(char_of_digit(n));
        assert(v@ =~= decimal(n as nat));
        v
    } else {
        let mut v = decimal_chars(n / 10);
        v.push(char_of_digit(n % 10));
        v
    }
}

/// A number in decimal, as a string.
pub fn decimal_string(n: u64) -> (r: String)
    ensures
        r@ == decimal(n as nat),
{
    let v = decimal_chars(n);
    super::string_of(&v)
}

/// A signed number in decimal, with a minus sign in front where it is negative.
pub open spec fn signed_decimal(n: int) -> Seq<char> {
    if n < 0 {
        seq!['-'] + decimal((-n) as nat)
    } else {
        decimal(n as nat)
    }
}

/// A signed number in decimal, as a string.
pub fn signed_string(n: i64) -> (r: String)
    ensures
        r@ == signed_decimal(n as int),
{
    if n < 0 {
        let m: u64 = (-(n as i128)) as u64;
        let v = decimal_chars(m);
        let mut out: Vec<char> = Vec::new();
        out.push('-');
        super::push_all(&mut out, &v);
        assert(out@ =~= signed_decimal(n as int));
        super::string_of(&out)
    } else {
        decimal_string(n as u64)
    }
}

/// A number in a fixed count of hexadecimal digits, most significant first.
pub open spec fn hex_fixed(n: nat, width: nat) -> Seq<char>
    decreases width,
{
    if width == 0 {
        Seq::empty()
    } else {
        hex_fixed(n / 16, (width - 1) as nat).push(digit_char(n % 16))
    }
}

/// A number in a fixed count of hexadecimal digits.
pub fn hex_chars(n: u64, width: u64) -> (r: Vec<char>)
    ensures
        r@ == hex_fixed(n as nat, width as nat),
    decreases width,
{
    if width == 0 {
        Vec::new()
    } else {
        let mut v = hex_chars(n / 16, width - 1);
        v.push(char_of_digit(n % 16));
        v
    }
}

/// A number in decimal, filled with zeros in front to at least `width` digits.
pub open spec fn padded(n: nat, width: nat) -> Seq<char> {
    let d = decimal(n);
    if d.len() < width {
        Seq::new((width - d.len()) as nat, |i: int| '0') + d
    } else {
        d
    }
}

/// A number in decimal, with leading zeros.
pub fn padded_chars(n: u64, width: usize) -> (r: Vec<char>)
    ensures
        r@ == padded(n as nat, width as nat),
{
    let d = decimal_chars(n);
    let mut out: Vec<char> = Vec::new();
    if d.len() < width {
        let fill: usize = width - d.len();
        for i in 0..fill
            invariant
                out@ == Seq::new(i as nat, |j: int| '0'),
        {
            out.push('0');
            assert(out@ =~= Seq::new((i + 1) as nat, |j: int| '0'));
        }
    }
    super::push_all(&mut out, &d);
    assert(out@ =~= padded(n as nat, width as nat));
    out
}

/// A number reads back from its decimal, whatever follows that is no digit, up to the
/// greatest number that is wanted; a greater one is not read at all.
pub proof fn law_a_decimal_reads_back(n: nat, rest: Seq<char>, max: nat)
    requires
        rest.len() > 0 ==> !('0' <= rest[0] <= '9'),
    ensures
        leading_number(decimal(n) + rest, max) == (if n <= max {
            Some(n)
        } else {
            None
        }),
        whole_number(decimal(n), max) == (if n <= max {
            Some(n)
        } else {
            None
        }),
        whole_number(seq!['+'] + decimal(n), max) == whole_number(decimal(n), max),
        rest.len() > 0 ==> whole_number(decimal(n) + rest, max) is None,
        leading_number(rest, max) is None,
{
    let d = decimal(n);
    let s = d + rest;
    lemma_decimal_digits(n);
    lemma_decimal_value(n);
    lemma_run_in_front(d, rest);
    assert(s.take(d.len() as int) =~= d);
    lemma_run_in_front(d, Seq::empty());
    assert(d + Seq::<char>::empty() =~= d);
    assert(is_digit(d[0]));
    let plus = seq!['+'] + d;
    assert(plus.first() == '+');
    assert(plus.drop_first() =~= d);
    assert(s.first() == d[0]);
    assert(rest.take(0) =~= Seq::<char>::empty());
}

proof fn lemma_run_in_front(d: Seq<char>, rest: Seq<char>)
    requires
        forall|i: int| 0 <= i < d.len() ==> is_digit(#[trigger] d[i]),
        rest.len() > 0 ==> !is_digit(rest[0]),
    ensures
        digit_run(d + rest) == d.len(),
    decreases d.len(),
{
    let s = d + rest;
    if d.len() > 0 {
        let less = d.drop_first();
        assert(s.first() == d[0]);
        assert(s.drop_first() =~= less + rest);
        assert forall|i: int| 0 <= i < less.len() implies is_digit(#[trigger] less[i]) by {
            assert(less[i] == d[i + 1]);
        }
        lemma_run_in_front(less, rest);
    } else if s.len() > 0 {
        assert(s.first() == rest[0]);
    }
}

/// Hexadecimal flags are nought exactly where every digit in front is: a single raised
/// flag anywhere shows.
pub proof fn law_a_raised_flag_shows(s: Seq<char>, max: nat)
    requires
        s.len() > 0,
        forall|i: int|
            0 <= i < s.len() ==> ('0' <= #[trigger] s[i] <= '9') || ('a' <= s[i] <= 'f') || ('A'
                <= s[i] <= 'F'),
    ensures
        leading_hex(s, max) is Some ==> (leading_hex(s, max)->0 == 0 <==> forall|i: int|
            0 <= i < s.len() ==> #[trigger] s[i] == '0'),
        leading_hex(s, max) is None ==> exists|i: int| 0 <= i < s.len() && #[trigger] s[i] != '0',
{
    lemma_hex_all(s);
    assert(s.take(s.len() as int) =~= s);
    lemma_nought(s);
}

proof fn lemma_hex_all(s: Seq<char>)
    requires
        forall|i: int| 0 <= i < s.len() ==> is_hex_digit(#[trigger] s[i]),
    ensures
        hex_run(s) == s.len(),
    decreases s.len(),
{
    if s.len() > 0 {
        let rest = s.drop_first();
        assert forall|i: int| 0 <= i < rest.len() implies is_hex_digit(#[trigger] rest[i]) by {
            assert(rest[i] == s[i + 1]);
        }
        lemma_hex_all(rest);
        assert(is_hex_digit(s[0]));
    }
}

proof fn lemma_nought(s: Seq<char>)
    requires
        forall|i: int| 0 <= i < s.len() ==> is_hex_digit(#[trigger] s[i]),
    ensures
        value_of(s, 16) == 0 <==> forall|i: int| 0 <= i < s.len() ==> #[trigger] s[i] == '0',
    decreases s.len(),
{
    if s.len() > 0 {
        let front = s.drop_last();
        assert forall|i: int| 0 <= i < front.len() implies is_hex_digit(#[trigger] front[i]) by {
            assert(front[i] == s[i]);
        }
        lemma_nought(front);
        assert(is_hex_digit(s[s.len() - 1]));
        assert(digit_value(s.last()) == 0 <==> s.last() == '0');
        if value_of(s, 16) == 0 {
            assert forall|i: int| 0 <= i < s.len() implies #[trigger] s[i] == '0' by {
                if i < front.len() {
                    assert(front[i] == s[i]);
                }
            }
        }
        if forall|i: int| 0 <= i < s.len() ==> #[trigger] s[i] == '0' {
            assert forall|i: int| 0 <= i < front.len() implies #[trigger] front[i] == '0' by {
                assert(front[i] == s[i]);
            }
            assert(s[s.len() - 1] == '0');
        }
    }
}

/// A number padded to a width keeps its value, has at least that many digits, and no more
/// than it needs beyond.
pub proof fn law_padding_keeps_the_number(n: nat, width: nat)
    ensures
        value_of(padded(n, width), 10) == n,
        padded(n, width).len() >= width,
        padded(n, width).len() > width ==> padded(n, width) == decimal(n),
{
    let d = decimal(n);
    lemma_decimal_value(n);
    if d.len() < width {
        lemma_noughts_in_front((width - d.len()) as nat, d);
    }
}

proof fn lemma_noughts_in_front(k: nat, d: Seq<char>)
    ensures
        value_of(Seq::new(k, |i: int| '0') + d, 10) == value_of(d, 10),
    decreases k + d.len(),
{
    let zeros = Seq::new(k, |i: int| '0');
    let s = zeros + d;
    if d.len() > 0 {
        lemma_noughts_in_front(k, d.drop_last());
        assert(s.drop_last() =~= zeros + d.drop_last());
        assert(s.last() == d.last());
    } else if k > 0 {
        let fewer = Seq::new((k - 1) as nat, |i: int| '0');
        lemma_noughts_in_front((k - 1) as nat, d);
        assert(s.drop_last() =~= fewer + d);
        assert(s.last() == '0');
    } else {
        assert(s =~= d);
    }
}

/// A negative number has a minus sign in front of the digits of the number without it.
pub proof fn law_the_sign_stands_in_front(n: int)
    ensures
        n >= 0 ==> signed_decimal(n) == decimal(n as nat),
        n < 0 ==> signed_decimal(n) == seq!['-'] + decimal((-n) as nat),
{
}

/// Hexadecimal digits of a fixed width are as many as that, and one more digit behind them
/// stands for sixteen times the number and what the digit is worth.
pub proof fn law_hexadecimal_digits_stand_for_the_number(n: nat, d: nat, width: nat)
    requires
        d < 16,
    ensures
        hex_fixed(n, width).len() == width,
        hex_fixed(16 * n + d, width + 1) == hex_fixed(n, width).push(digit_char(d)),
        d < 10 ==> digit_char(d) as int == '0' as int + d,
        d >= 10 ==> digit_char(d) as int == 'a' as int + d - 10,
    decreases width,
{
    assert((16 * n + d) / 16 == n && (16 * n + d) % 16 == d) by (nonlinear_arith)
        requires
            d < 16,
    ;
    if width > 0 {
        law_hexadecimal_digits_stand_for_the_number(n / 16, n % 16, (width - 1) as nat);
    }
}

/// What a digit counts for: its distance from the first of its row, and the letters go on
/// where the decimal digits end, in either case.
pub proof fn law_what_a_digit_counts_for(c: char)
    ensures
        is_digit(c) <==> 48 <= c as int <= 57,
        is_hex_digit(c) <==> 48 <= c as int <= 57 || 65 <= c as int <= 70 || 97 <= c as int <= 102,
        48 <= c as int <= 57 ==> digit_value(c) == c as int - 48,
        65 <= c as int <= 70 ==> digit_value(c) == c as int - 55,
        97 <= c as int <= 102 ==> digit_value(c) == c as int - 87,
{
}

} // verus!
