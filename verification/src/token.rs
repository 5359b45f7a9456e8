//! Access tokens and enrollment codes.

use vstd::prelude::*;
use vstd::utf8::{encode_utf8, encode_utf8_decode_utf8, is_ascii_chars};

use crate::ids::new_id;
use crate::number::{hex, to_hex};
use crate::protocol::be_bytes;
use crate::text::{chars_of, lemma_trimmed_same, trim, trimmed, white_space};

verus! {

/// Characters in an enrollment code.
pub const ENROLL_CODE_LEN: usize = 8;

/// Minutes an enrollment code is valid.
pub const ENROLL_TTL_MINUTES: i64 = 15;

/// The SHA-256 digest of bytes.
pub uninterp spec fn sha256(data: Seq<u8>) -> Seq<u8>;

/// The digest from `sha2::Sha256::digest`, which is 32 bytes long.
#[verifier::external_body]
fn sha256_digest(data: &[u8]) -> (r: Vec<u8>)
    ensures
        r@ == sha256(data@),
        r@.len() == 32,
{
    <sha2::Sha256 as sha2::Digest>::digest(data).to_vec()
}

/// Random bytes from the system, by `rand_core::OsRng`.
#[verifier::external_body]
fn random_bytes() -> (r: Vec<u8>)
    ensures
        r@.len() == 32,
{
    let mut bytes = [0_u8; 32];
    rand_core::RngCore::fill_bytes(&mut rand_core::OsRng, &mut bytes);
    bytes.to_vec()
}

/// What `str::to_uppercase` makes of a text.
pub uninterp spec fn upper_case(s: Seq<char>) -> Seq<char>;

/// The upper-case form of an ASCII character.
pub open spec fn ascii_upper(c: char) -> char {
    if 'a' <= c <= 'z' {
        (c as int - 32) as char
    } else {
        c
    }
}

/// The upper-case form of a text, by `str::to_uppercase`. ASCII letters become
/// the ASCII capitals and other ASCII characters stay; what becomes of other
/// letters is left open.
#[verifier::external_body]
pub(crate) fn to_upper(s: &str) -> (r: String)
    ensures
        r@ == upper_case(s@),
        is_ascii_chars(s@) ==> r@ == s@.map_values(|c: char| ascii_upper(c)),
{
    s.to_uppercase()
}

/// The hash under which a token is stored.
pub open spec fn token_hash(token: Seq<char>) -> Seq<char> {
    hex(sha256(encode_utf8(token)))
}

/// The hash under which a token is stored: its SHA-256 digest in hexadecimal.
pub fn hash_token(token: &str) -> (r: String)
    ensures
        r@ == token_hash(token@),
{
    let digest = sha256_digest(token.as_bytes());
    to_hex(digest.as_slice())
}

/// A fresh access token: 32 random bytes in hexadecimal.
pub fn new_device_token() -> (r: String)
    ensures
        r@.len() == 64,
        exists|bytes: Seq<u8>| bytes.len() == 32 && r@ == #[trigger] hex(bytes),
{
    let bytes = random_bytes();
    proof {
        crate::number::lemma_hex_len(bytes@);
    }
    to_hex(bytes.as_slice())
}

proof fn lemma_or_xor(acc: u8, x: u8, y: u8)
    ensures
        (acc | (x ^ y)) == 0 <==> acc == 0 && x == y,
{
    assert((acc | (x ^ y)) == 0 <==> acc == 0 && x == y) by (bit_vector);
}

/// Whether two texts are equal, found without stopping at the first
/// difference.
pub fn constant_time_eq(a: &str, b: &str) -> (r: bool)
    ensures
        r == (a@ == b@),
{
    let x = a.as_bytes();
    let y = b.as_bytes();
    proof {
        encode_utf8_decode_utf8(a@);
        encode_utf8_decode_utf8(b@);
    }
    if x.len() != y.len() {
        return false;
    }
    let mut acc: u8 = 0;
    let mut i: usize = 0;
    assert(x@.take(0) =~= y@.take(0));
    while i < x.len()
        invariant
            i <= x@.len(),
            x@.len() == y@.len(),
            acc == 0 <==> x@.take(i as int) == y@.take(i as int),
        decreases x.len() - i,
    {
        proof {
            lemma_or_xor(acc, x@[i as int], y@[i as int]);
            assert(x@.take(i + 1) =~= x@.take(i as int).push(x@[i as int]));
            assert(y@.take(i + 1) =~= y@.take(i as int).push(y@[i as int]));
            if x@.take(i + 1) == y@.take(i + 1) {
                assert(x@.take(i as int) =~= x@.take(i + 1).drop_last());
                assert(y@.take(i as int) =~= y@.take(i + 1).drop_last());
                assert(x@.take(i + 1).last() == y@.take(i + 1).last());
            }
        }
        acc = acc | (x[i] ^ y[i]);
        i += 1;
    }
    assert(x@.take(x@.len() as int) =~= x@);
    assert(y@.take(y@.len() as int) =~= y@);
    acc == 0
}

/// The characters of an enrollment code: digits and capitals without those
/// that look alike.
pub open spec fn enroll_char(c: char) -> bool {
    "23456789ABCDEFGHJKMNPQRSTUVWXYZ"@.contains(c)
}

/// Whether a text is an enrollment code.
pub open spec fn valid_code(s: Seq<char>) -> bool {
    s.len() == ENROLL_CODE_LEN && forall|i: int| 0 <= i < s.len() ==> enroll_char(#[trigger] s[i])
}

/// What an operator typed, without surrounding white space and in capitals.
pub open spec fn normal_code(s: Seq<char>) -> Seq<char> {
    upper_case(trimmed(s))
}

/// Whether a character may stand in an enrollment code.
fn is_enroll_char(c: char) -> (r: bool)
    ensures
        r == enroll_char(c),
{
    let alphabet = chars_of("23456789ABCDEFGHJKMNPQRSTUVWXYZ");
    let mut i: usize = 0;
    while i < alphabet.len()
        invariant
            i <= alphabet.len(),
            alphabet@ == "23456789ABCDEFGHJKMNPQRSTUVWXYZ"@,
            forall|j: int| 0 <= j < i ==> alphabet@[j] != c,
        decreases alphabet.len() - i,
    {
        if alphabet[i] == c {
            return true;
        }
        i += 1;
    }
    false
}

/// Whether a text is an enrollment code.
pub fn is_enroll_code(code: &str) -> (r: bool)
    ensures
        r == valid_code(code@),
{
    let chars = chars_of(code);
    if chars.len() != ENROLL_CODE_LEN {
        return false;
    }
    let mut i: usize = 0;
    while i < chars.len()
        invariant
            i <= chars.len(),
            chars@ == code@,
            forall|j: int| 0 <= j < i ==> enroll_char(#[trigger] code@[j]),
        decreases chars.len() - i,
    {
        if !is_enroll_char(chars[i]) {
            return false;
        }
        i += 1;
    }
    true
}

/// What an operator typed, without surrounding white space and in capitals.
pub fn normalize_code(code: &str) -> (r: String)
    ensures
        r@ == normal_code(code@),
        is_ascii_chars(trimmed(code@)) ==> r@ == trimmed(code@).map_values(
            |c: char| ascii_upper(c),
        ),
        valid_code(trimmed(code@)) ==> r@ == trimmed(code@),
{
    let inner = trim(code);
    let r = to_upper(inner.as_str());
    proof {
        if valid_code(inner@) {
            lemma_code_ascii(inner@);
            assert(r@ =~= inner@);
        }
    }
    r
}

/// Enrollment codes are ASCII and in capitals already.
proof fn lemma_code_ascii(s: Seq<char>)
    requires
        forall|i: int| 0 <= i < s.len() ==> enroll_char(#[trigger] s[i]),
    ensures
        is_ascii_chars(s),
        s.map_values(|c: char| ascii_upper(c)) == s,
{
    reveal_strlit("23456789ABCDEFGHJKMNPQRSTUVWXYZ");
    assert forall|i: int| 0 <= i < s.len() implies s[i] as nat <= 0x7f && ascii_upper(s[i])
        == s[i] by {
        assert(enroll_char(s[i]));
        let a = "23456789ABCDEFGHJKMNPQRSTUVWXYZ"@;
        let j = choose|j: int| 0 <= j < a.len() && a[j] == s[i];
        assert(a.len() == 31);
        assert(0 <= j < 31);
    }
    assert(s.map_values(|c: char| ascii_upper(c)) =~= s);
}

/// The code that random bytes stand for.
pub open spec fn code_of(bytes: Seq<u8>) -> Seq<char> {
    Seq::new(
        ENROLL_CODE_LEN as nat,
        |i: int| "23456789ABCDEFGHJKMNPQRSTUVWXYZ"@[(bytes[i] % 31) as int],
    )
}

/// The enrollment code that an identifier's leading bytes stand for.
pub fn code_from_id(id: u128) -> (r: String)
    ensures
        r@ == code_of(be_bytes(id as nat, 16)),
        valid_code(r@),
{
    let mut bytes: Vec<u8> = Vec::new();
    crate::protocol::push_id(&mut bytes, id, 16);
    let alphabet = chars_of("23456789ABCDEFGHJKMNPQRSTUVWXYZ");
    proof {
        reveal_strlit("23456789ABCDEFGHJKMNPQRSTUVWXYZ");
        crate::protocol::lemma_be_bytes(id as nat, 16);
        assert(bytes@ =~= be_bytes(id as nat, 16));
    }
    let mut out: String = String::new();
    let mut i: usize = 0;
    assert(out@ =~= code_of(bytes@).take(0));
    while i < ENROLL_CODE_LEN
        invariant
            i <= ENROLL_CODE_LEN,
            bytes@.len() == 16,
            alphabet@ == "23456789ABCDEFGHJKMNPQRSTUVWXYZ"@,
            alphabet@.len() == 31,
            out@ == code_of(bytes@).take(i as int),
        decreases ENROLL_CODE_LEN - i,
    {
        let c: char = alphabet[(bytes[i] % 31) as usize];
        out.push(c);
        i += 1;
        assert(out@ =~= code_of(bytes@).take(i as int));
    }
    assert(out@ =~= code_of(bytes@));
    assert(valid_code(out@)) by {
        assert forall|j: int| 0 <= j < out@.len() implies enroll_char(#[trigger] out@[j]) by {
            assert(alphabet@[(bytes@[j] % 31) as int] == out@[j]);
        }
    }
    out
}

/// A fresh enrollment code.
pub fn generate_enroll_code() -> (r: String)
    ensures
        valid_code(r@),
        exists|id: u128| r@ == code_of(#[trigger] be_bytes(id as nat, 16)),
{
    let id: u128 = new_id();
    code_from_id(id)
}

/// The enrollment code an agent presents: the stored one if it has the length
/// of a code, else a fresh one. Says whether it is fresh and has to be stored.
pub fn enrollment_code(stored: Option<&str>) -> (r: (String, bool))
    ensures
        match stored {
            Some(code) => if encode_utf8(code@).len() == ENROLL_CODE_LEN {
                r.0@ == code@ && !r.1
            } else {
                valid_code(r.0@) && r.1
            },
            None => valid_code(r.0@) && r.1,
        },
{
    match stored {
        Some(code) => {
            if code.as_bytes().len() == ENROLL_CODE_LEN {
                return (code.to_owned(), false);
            }
        },
        None => {},
    }
    (generate_enroll_code(), true)
}

/// An enrollment code has the length that a stored code is kept for, so an
/// agent shows the same code until it is used up.
pub proof fn code_is_kept(code: Seq<char>)
    requires
        valid_code(code),
    ensures
        encode_utf8(code).len() == ENROLL_CODE_LEN,
{
    lemma_code_ascii(code);
    vstd::utf8::is_ascii_chars_encode_utf8(code);
}

/// An enrollment code has no white space around it, so trimming leaves it.
pub proof fn code_is_trimmed(code: Seq<char>)
    requires
        valid_code(code),
    ensures
        trimmed(code) == code,
{
    reveal_strlit("23456789ABCDEFGHJKMNPQRSTUVWXYZ");
    assert forall|i: int| 0 <= i < code.len() implies !white_space(#[trigger] code[i]) by {
        assert(enroll_char(code[i]));
        let a = "23456789ABCDEFGHJKMNPQRSTUVWXYZ"@;
        let j = choose|j: int| 0 <= j < a.len() && a[j] == code[i];
        assert(a.len() == 31);
        assert(0 <= j < 31);
    }
    lemma_trimmed_same(code);
}

/// A code is made of digits and capital letters, without those that are easily
/// taken for another: no zero or one, no I, L or O.
pub proof fn code_letters_are_clear(c: char)
    ensures
        enroll_char(c) <==> ('2' <= c <= '9' || 'A' <= c <= 'Z') && c != 'I' && c != 'L' && c
            != 'O',
{
    reveal_strlit("23456789ABCDEFGHJKMNPQRSTUVWXYZ");
    let all = "23456789ABCDEFGHJKMNPQRSTUVWXYZ"@;
    if ('2' <= c <= '9' || 'A' <= c <= 'Z') && c != 'I' && c != 'L' && c != 'O' {
        let n = c as int;
        let i = if n <= 57 {
            n - 50
        } else if n <= 72 {
            n - 57
        } else if n <= 75 {
            n - 58
        } else if n <= 78 {
            n - 59
        } else {
            n - 60
        };
        assert(all[i] == c);
    }
}

/// A code has eight letters, each picked by its own byte alone, and every
/// letter is picked by some byte.
pub proof fn code_letters_follow_bytes(a: Seq<u8>, b: Seq<u8>, i: int, c: char)
    requires
        0 <= i < 8,
        a.len() >= 8,
        b.len() >= 8,
    ensures
        valid_code(code_of(a)),
        code_of(a).len() == 8,
        code_of(a)[i] == code_of(b)[i] <==> a[i] % 31 == b[i] % 31,
        enroll_char(c) ==> exists|n: u8| n < 31 && #[trigger] code_of(a.update(i, n))[i] == c,
{
    reveal_strlit("23456789ABCDEFGHJKMNPQRSTUVWXYZ");
    let all = "23456789ABCDEFGHJKMNPQRSTUVWXYZ"@;
    assert forall|j: int| 0 <= j < 8 implies enroll_char(#[trigger] code_of(a)[j]) by {
        assert(all[(a[j] % 31) as int] == code_of(a)[j]);
    }
    if enroll_char(c) {
        let k = choose|k: int| 0 <= k < all.len() && all[k] == c;
        let n = k as u8;
        assert(n % 31 == n);
        assert(code_of(a.update(i, n))[i] == c);
    }
}

/// Two tokens are stored under one hash exactly where their digests are the
/// same.
pub proof fn hash_stands_for_digest(a: Seq<char>, b: Seq<char>)
    ensures
        token_hash(a) == token_hash(b) <==> sha256(encode_utf8(a)) == sha256(encode_utf8(b)),
        token_hash(a).len() == 2 * sha256(encode_utf8(a)).len(),
{
    if token_hash(a) == token_hash(b) {
        crate::number::lemma_hex_injective(sha256(encode_utf8(a)), sha256(encode_utf8(b)));
    }
    crate::number::lemma_hex_len(sha256(encode_utf8(a)));
}

/// Small ASCII letters become the capitals, and everything else stays.
pub proof fn capitals_of_letters(c: char)
    ensures
        'a' <= c <= 'z' ==> ascii_upper(c) as int == c as int - 32 && 'A' <= ascii_upper(c) <= 'Z',
        !('a' <= c <= 'z') ==> ascii_upper(c) == c,
{
}

} // verus!
