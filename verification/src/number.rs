//! Numbers as text: decimal reading and writing, hexadecimal writing.

use vstd::prelude::*;

use crate::text::chars_of;

verus! {

/// Whether a character is an ASCII digit.
pub open spec fn is_digit(c: char) -> bool {
    '0' <= c <= '9'
}

/// Whether a text holds ASCII digits only.
pub open spec fn all_digits(s: Seq<char>) -> bool {
    forall|i: int| 0 <= i < s.len() ==> is_digit(#[trigger] s[i])
}

/// The value of a run of decimal digits.
pub open spec fn digits_value(s: Seq<char>) -> nat
    decreases s.len(),
{
    if s.len() == 0 {
        0
    } else {
        digits_value(s.drop_last()) * 10 + (s.last() as nat - '0' as nat) as nat
    }
}

/// The digits after an optional plus sign.
pub open spec fn after_plus(s: Seq<char>) -> Seq<char> {
    if s.len() > 0 && s.first() == '+' {
        s.skip(1)
    } else {
        s
    }
}

/// The unsigned number a text stands for: an optional plus sign and at least
/// one digit, with a value of at most `max`.
pub open spec fn unsigned_value(s: Seq<char>, max: nat) -> Option<nat> {
    let body = after_plus(s);
    if body.len() > 0 && all_digits(body) && digits_value(body) <= max {
        Some(digits_value(body))
    } else {
        None
    }
}

/// The signed number a text stands for: an optional sign and at least one
/// digit, with a value from `min` to `max`.
pub open spec fn signed_value(s: Seq<char>, min: int, max: int) -> Option<int> {
    let negative = s.len() > 0 && s.first() == '-';
    let body = if negative {
        s.skip(1)
    } else {
        after_plus(s)
    };
    let value = if negative {
        -(digits_value(body) as int)
    } else {
        digits_value(body) as int
    };
    if body.len() > 0 && all_digits(body) && min <= value <= max {
        Some(value)
    } else {
        None
    }
}

/// The decimal digits of a number, without leading zeros.
pub open spec fn dec(n: nat) -> Seq<char>
    decreases n,
{
    if n < 10 {
        seq![digit_char(n)]
    } else {
        dec(n / 10).push(digit_char(n % 10))
    }
}

/// The character of a decimal digit.
pub open spec fn digit_char(d: nat) -> char {
    ('0' as nat + d) as char
}

/// The lower-case hexadecimal character of a number under 16.
pub open spec fn hex_char(d: nat) -> char {
    if d < 10 {
        ('0' as nat + d) as char
    } else {
        ('a' as nat + (d - 10)) as char
    }
}

/// Two lower-case hexadecimal characters for each byte.
pub open spec fn hex(bytes: Seq<u8>) -> Seq<char>
    decreases bytes.len(),
{
    if bytes.len() == 0 {
        Seq::empty()
    } else {
        hex(bytes.drop_last()).push(hex_char((bytes.last() / 16) as nat)).push(
            hex_char((bytes.last() % 16) as nat),
        )
    }
}

/// Hexadecimal text is twice as long as the bytes.
pub proof fn lemma_hex_len(bytes: Seq<u8>)
    ensures
        hex(bytes).len() == 2 * bytes.len(),
    decreases bytes.len(),
{
    if bytes.len() > 0 {
        lemma_hex_len(bytes.drop_last());
    }
}

/// Different bytes never share their hexadecimal text.
pub proof fn lemma_hex_injective(a: Seq<u8>, b: Seq<u8>)
    requires
        hex(a) == hex(b),
    ensures
        a == b,
    decreases a.len(),
{
    lemma_hex_len(a);
    lemma_hex_len(b);
    if a.len() > 0 {
        let n = 2 * a.len() as int;
        let x = a.last();
        let y = b.last();
        assert(hex(a)[n - 2] == hex_char((x / 16) as nat));
        assert(hex(a)[n - 1] == hex_char((x % 16) as nat));
        assert(hex(b)[n - 2] == hex_char((y / 16) as nat));
        assert(hex(b)[n - 1] == hex_char((y % 16) as nat));
        assert(x == y);
        assert(hex(a).take(n - 2) =~= hex(a.drop_last()));
        assert(hex(b).take(n - 2) =~= hex(b.drop_last()));
        lemma_hex_injective(a.drop_last(), b.drop_last());
        assert(a =~= a.drop_last().push(x));
        assert(b =~= b.drop_last().push(y));
    } else {
        assert(a =~= b);
    }
}

proof fn lemma_digits_prefix(s: Seq<char>, n: int)
    requires
        0 <= n <= s.len(),
        all_digits(s),
    ensures
        digits_value(s.take(n)) <= digits_value(s),
    decreases s.len() - n,
{
    if n < s.len() {
        lemma_digits_prefix(s, n + 1);
        assert(s.take(n + 1).drop_last() =~= s.take(n));
    } else {
        assert(s.take(n) =~= s);
    }
}

/// A number written in decimal is not empty and holds digits only.
pub proof fn lemma_dec_digits(n: nat)
    ensures
        dec(n).len() > 0,
        all_digits(dec(n)),
        digits_value(dec(n)) == n,
    decreases n,
{
    if n < 10 {
        assert(dec(n).drop_last() =~= Seq::<char>::empty());
        assert(dec(n).last() == digit_char(n));
        assert(digits_value(dec(n).drop_last()) == 0);
        assert(digits_value(dec(n)) == n);
    } else {
        lemma_dec_digits(n / 10);
        assert(dec(n).drop_last() =~= dec(n / 10));
        assert(dec(n).last() == digit_char(n % 10));
        assert(digits_value(dec(n)) == (n / 10) * 10 + n % 10);
    }
}

/// Reading a written number gives the number back.
pub proof fn number_round_trip(n: nat, max: nat)
    requires
        n <= max,
    ensures
        unsigned_value(dec(n), max) == Some(n),
{
    lemma_dec_digits(n);
    assert(is_digit(dec(n)[0]));
}

/// Different numbers are written differently.
pub proof fn decimal_injective(a: nat, b: nat)
    requires
        dec(a) == dec(b),
    ensures
        a == b,
{
    lemma_dec_digits(a);
    lemma_dec_digits(b);
}

/// Reads `chars[from..]` as digits, up to `max`.
fn parse_digits(chars: &Vec<char>, from: usize, max: u128) -> (r: Option<u128>)
    requires
        from <= chars@.len(),
    ensures
        ({
            let body = chars@.skip(from as int);
            match r {
                Some(v) => body.len() > 0 && all_digits(body) && digits_value(body) == v
                    && v <= max,
                None => !(body.len() > 0 && all_digits(body) && digits_value(body) <= max),
            }
        }),
{
    let ghost body = chars@.skip(from as int);
    if from == chars.len() {
        return None;
    }
    let mut value: u128 = 0;
    let mut i: usize = from;
    assert(body.take(0) =~= Seq::<char>::empty());
    while i < chars.len()
        invariant
            from <= i <= chars@.len(),
            body == chars@.skip(from as int),
            forall|k: int| 0 <= k < i - from ==> is_digit(#[trigger] body[k]),
            value == digits_value(body.take(i - from)),
            value <= max,
        decreases chars@.len() - i,
    {
        let c = chars[i];
        assert(c == body[i - from]);
        if c < '0' || c > '9' {
            assert(!is_digit(body[i - from]));
            return None;
        }
        let d: u128 = (c as u32 - '0' as u32) as u128;
        let ghost next = body.take(i - from + 1);
        assert(next.drop_last() =~= body.take(i - from));
        assert(digits_value(next) == value * 10 + d);
        if d > max || value > (max - d) / 10 {
            proof {
                if all_digits(body) {
                    lemma_digits_prefix(body, i - from + 1);
                }
            }
            return None;
        }
        value = value * 10 + d;
        i += 1;
    }
    assert(body.take(i - from) =~= body);
    Some(value)
}

/// Reads an unsigned number of at most `max`: std's `parse` for the unsigned
/// integer types.
pub fn parse_unsigned(s: &str, max: u128) -> (r: Option<u128>)
    ensures
        r is Some <==> unsigned_value(s@, max as nat) is Some,
        r matches Some(v) ==> unsigned_value(s@, max as nat) == Some(v as nat),
{
    let chars = chars_of(s);
    if chars.len() > 0 && chars[0] == '+' {
        parse_digits(&chars, 1, max)
    } else {
        assert(chars@.skip(0) =~= chars@);
        parse_digits(&chars, 0, max)
    }
}

/// Reads a `u16`.
pub fn parse_u16(s: &str) -> (r: Option<u16>)
    ensures
        r is Some <==> unsigned_value(s@, u16::MAX as nat) is Some,
        r matches Some(v) ==> unsigned_value(s@, u16::MAX as nat) == Some(v as nat),
{
    match parse_unsigned(s, u16::MAX as u128) {
        Some(v) => Some(v as u16),
        None => None,
    }
}

/// Reads a `u32`.
pub fn parse_u32(s: &str) -> (r: Option<u32>)
    ensures
        r is Some <==> unsigned_value(s@, u32::MAX as nat) is Some,
        r matches Some(v) ==> unsigned_value(s@, u32::MAX as nat) == Some(v as nat),
{
    match parse_unsigned(s, u32::MAX as u128) {
        Some(v) => Some(v as u32),
        None => None,
    }
}

/// Reads a `u64`.
pub fn parse_u64(s: &str) -> (r: Option<u64>)
    ensures
        r is Some <==> unsigned_value(s@, u64::MAX as nat) is Some,
        r matches Some(v) ==> unsigned_value(s@, u64::MAX as nat) == Some(v as nat),
{
    match parse_unsigned(s, u64::MAX as u128) {
        Some(v) => Some(v as u64),
        None => None,
    }
}

/// Reads a `usize`.
pub fn parse_usize(s: &str) -> (r: Option<usize>)
    ensures
        r is Some <==> unsigned_value(s@, usize::MAX as nat) is Some,
        r matches Some(v) ==> unsigned_value(s@, usize::MAX as nat) == Some(v as nat),
{
    match parse_unsigned(s, usize::MAX as u128) {
        Some(v) => Some(v as usize),
        None => None,
    }
}

/// Reads a `u128`.
pub fn parse_u128(s: &str) -> (r: Option<u128>)
    ensures
        r is Some <==> unsigned_value(s@, u128::MAX as nat) is Some,
        r matches Some(v) ==> unsigned_value(s@, u128::MAX as nat) == Some(v as nat),
{
    parse_unsigned(s, u128::MAX)
}

/// Reads an `i64`.
pub fn parse_i64(s: &str) -> (r: Option<i64>)
    ensures
        r is Some <==> signed_value(s@, i64::MIN as int, i64::MAX as int) is Some,
        r matches Some(v) ==> signed_value(s@, i64::MIN as int, i64::MAX as int) == Some(v as int),
{
    let chars = chars_of(s);
    if chars.len() > 0 && chars[0] == '-' {
        match parse_digits(&chars, 1, 9223372036854775808) {
            Some(v) => Some((-(v as i128)) as i64),
            None => None,
        }
    } else if chars.len() > 0 && chars[0] == '+' {
        match parse_digits(&chars, 1, 9223372036854775807) {
            Some(v) => Some(v as i64),
            None => None,
        }
    } else {
        assert(chars@.skip(0) =~= chars@);
        match parse_digits(&chars, 0, 9223372036854775807) {
            Some(v) => Some(v as i64),
            None => None,
        }
    }
}

/// Writes a number in decimal.
pub fn decimal(n: u128) -> (r: String)
    ensures
        r@ == dec(n as nat),
    decreases n,
{
    if n < 10 {
        let mut out = String::new();
        out.push((48u8 + n as u8) as char);
        assert(out@ =~= dec(n as nat));
        out
    } else {
        let mut out = decimal(n / 10);
        out.push((48u8 + (n % 10) as u8) as char);
        out
    }
}

/// The lower-case hexadecimal character of a number under 16.
fn hex_digit(d: u8) -> (r: char)
    requires
        d < 16,
    ensures
        r == hex_char(d as nat),
{
    if d < 10 {
        (48u8 + d) as char
    } else {
        (97u8 + (d - 10)) as char
    }
}

/// Writes each byte as two lower-case hexadecimal characters.
pub fn to_hex(bytes: &[u8]) -> (r: String)
    ensures
        r@ == hex(bytes@),
{
    let mut out = String::new();
    let mut i: usize = 0;
    assert(bytes@.take(0) =~= Seq::<u8>::empty());
    while i < bytes.len()
        invariant
            i <= bytes@.len(),
            out@ == hex(bytes@.take(i as int)),
        decreases bytes@.len() - i,
    {
        let b: u8 = bytes[i];
        assert(bytes@.take(i + 1).drop_last() =~= bytes@.take(i as int));
        out.push(hex_digit(b / 16));
        out.push(hex_digit(b % 16));
        i += 1;
    }
    assert(bytes@.take(i as int) =~= bytes@);
    out
}

/// A text reads as a number exactly where it is digits, after a plus sign at
/// most, and not over the limit: one more digit counts ten times what stood
/// before, a plus sign in front changes nothing, and anything that is no digit
/// spoils it.
pub proof fn unsigned_reads_digits(s: Seq<char>, d: nat, c: char, max: nat)
    requires
        d < 10,
        s.len() > 0,
        all_digits(s),
    ensures
        unsigned_value(s, max) matches Some(n) ==> n <= max,
        unsigned_value(s.push(digit_char(d)), digits_value(s) * 10 + d) == Some(
            digits_value(s) * 10 + d,
        ),
        digits_value(s) * 10 + d > max ==> unsigned_value(s.push(digit_char(d)), max) is None,
        unsigned_value(seq!['+'] + s, max) == unsigned_value(s, max),
        !is_digit(c) ==> unsigned_value(s.push(c), max) is None,
        unsigned_value(Seq::empty(), max) is None,
        unsigned_value(seq!['+'], max) is None,
        unsigned_value(seq!['-'] + s, max) is None,
{
    let t = s.push(digit_char(d));
    assert(is_digit(s[0]));
    assert(t.first() == s[0]);
    assert(t.drop_last() =~= s);
    assert(all_digits(t)) by {
        assert forall|i: int| 0 <= i < t.len() implies is_digit(#[trigger] t[i]) by {
            if i < s.len() {
                assert(is_digit(s[i]));
            }
        }
    }
    let p = seq!['+'] + s;
    assert(p.first() == '+');
    assert(p.skip(1) =~= s);
    let m = seq!['-'] + s;
    assert(m.first() == '-');
    assert(!is_digit(m[0]));
    assert(seq!['+'].skip(1).len() == 0);
    if !is_digit(c) {
        let u = s.push(c);
        assert(u.first() == s[0]);
        assert(u[s.len() as int] == c);
    }
}

/// A negative number reads back with its sign, one without a sign as it is.
pub proof fn signed_reads_sign(n: nat, min: int, max: int)
    requires
        min <= -(n as int),
        n <= max,
    ensures
        signed_value(seq!['-'] + dec(n), min, max) == Some(-(n as int)),
        signed_value(dec(n), min, max) == Some(n as int),
        signed_value(seq!['+'] + dec(n), min, max) == Some(n as int),
        signed_value(Seq::empty(), min, max) is None,
        signed_value(seq!['-'], min, max) is None,
        signed_value(dec(n), min, n - 1) is None,
        signed_value(seq!['-'] + dec(n), 1 - n as int, max) is None,
{
    lemma_dec_digits(n);
    let d = dec(n);
    assert(is_digit(d[0]));
    let m = seq!['-'] + d;
    assert(m.first() == '-');
    assert(m.skip(1) =~= d);
    let p = seq!['+'] + d;
    assert(p.first() == '+');
    assert(p.skip(1) =~= d);
    assert(seq!['-'].skip(1).len() == 0);
}

/// A number is written without leading zeros, and ends in its last digit.
pub proof fn decimal_is_shortest(n: nat)
    ensures
        n > 0 ==> dec(n)[0] != '0',
        n == 0 ==> dec(n) == seq!['0'],
        dec(n).last() as nat == '0' as nat + n % 10,
        all_digits(dec(n)),
    decreases n,
{
    lemma_dec_digits(n);
    if n >= 10 {
        decimal_is_shortest(n / 10);
    }
}

/// Each byte is two characters in its place, the higher half first, and the
/// characters are digits and the small letters up to f.
pub proof fn hex_is_two_digits_a_byte(bytes: Seq<u8>, i: int, d: nat)
    requires
        0 <= i < bytes.len(),
        d < 16,
    ensures
        hex(bytes).len() == 2 * bytes.len(),
        hex(bytes)[2 * i] == hex_char((bytes[i] / 16) as nat),
        hex(bytes)[2 * i + 1] == hex_char((bytes[i] % 16) as nat),
        hex_char(d) as nat == if d < 10 {
            48 + d
        } else {
            87 + d
        },
    decreases bytes.len(),
{
    lemma_hex_len(bytes);
    lemma_hex_len(bytes.drop_last());
    if i < bytes.len() - 1 {
        hex_is_two_digits_a_byte(bytes.drop_last(), i, d);
    }
}

} // verus!
