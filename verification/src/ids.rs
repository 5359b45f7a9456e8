//! Identifiers: 128-bit numbers drawn at random, written as UUIDs.

use vstd::prelude::*;

use crate::number::{hex, lemma_hex_injective, lemma_hex_len};
use crate::protocol::{be_bytes, lemma_be_bytes, stream_frames_distinct};

verus! {

/// The hyphenated form of an identifier: its 32 lower-case hexadecimal digits
/// in groups of 8, 4, 4, 4 and 12.
pub open spec fn uuid_text(id: u128) -> Seq<char> {
    let h = hex(be_bytes(id as nat, 16));
    h.subrange(0, 8) + "-"@ + h.subrange(8, 12) + "-"@ + h.subrange(12, 16) + "-"@ + h.subrange(
        16,
        20,
    ) + "-"@ + h.subrange(20, 32)
}

/// What `uuid::Uuid::parse_str` reads in a text.
pub uninterp spec fn parsed_uuid(s: Seq<char>) -> Option<u128>;

/// A new identifier from `uuid::Uuid::new_v4`. The bits are random but for the
/// version, which is 4, and the variant, which is 2.
#[verifier::external_body]
pub(crate) fn random_uuid() -> (r: u128)
    ensures
        (r / 75557863725914323419136) % 16 == 4,
        (r / 4611686018427387904) % 4 == 2,
{
    uuid::Uuid::new_v4().as_u128()
}

/// The text of an identifier, from `uuid::Uuid`'s `Display`: the hyphenated
/// lower-case form.
#[verifier::external_body]
pub(crate) fn display_uuid(id: u128) -> (r: String)
    ensures
        r@ == uuid_text(id),
{
    uuid::Uuid::from_u128(id).to_string()
}

/// The identifier that `uuid::Uuid::parse_str` reads in a text. Which texts it
/// takes is left open, but for the hyphenated lower-case form, which it reads
/// back as the identifier it was written for.
#[verifier::external_body]
pub(crate) fn read_uuid(s: &str) -> (r: Option<u128>)
    ensures
        r == parsed_uuid(s@),
        forall|id: u128| s@ == #[trigger] uuid_text(id) ==> r == Some(id),
{
    uuid::Uuid::parse_str(s).ok().map(|id| id.as_u128())
}

/// A new random identifier.
pub fn new_id() -> (r: u128)
    ensures
        (r / 75557863725914323419136) % 16 == 4,
        (r / 4611686018427387904) % 4 == 2,
{
    random_uuid()
}

/// The text of an identifier.
pub fn id_text(id: u128) -> (r: String)
    ensures
        r@ == uuid_text(id),
{
    display_uuid(id)
}

/// Reads an identifier.
pub fn parse_id(s: &str) -> (r: Option<u128>)
    ensures
        r == parsed_uuid(s@),
        forall|id: u128| s@ == #[trigger] uuid_text(id) ==> r == Some(id),
{
    read_uuid(s)
}

/// Two identifiers never share a text.
pub proof fn id_texts_distinct(a: u128, b: u128)
    requires
        uuid_text(a) == uuid_text(b),
    ensures
        a == b,
{
    let s = be_bytes(a as nat, 16);
    let t = be_bytes(b as nat, 16);
    lemma_be_bytes(a as nat, 16);
    lemma_be_bytes(b as nat, 16);
    lemma_hex_len(s);
    lemma_hex_len(t);
    let x = hex(s);
    let y = hex(t);
    let u = uuid_text(a);
    let v = uuid_text(b);
    reveal_strlit("-");
    assert forall|i: int| 0 <= i < 32 implies x[i] == y[i] by {
        let j = if i < 8 {
            i
        } else if i < 12 {
            i + 1
        } else if i < 16 {
            i + 2
        } else if i < 20 {
            i + 3
        } else {
            i + 4
        };
        assert(u[j] == x[i]);
        assert(v[j] == y[i]);
    }
    assert(x =~= y);
    lemma_hex_injective(s, t);
    assert(s + Seq::<u8>::empty() =~= s);
    assert(t + Seq::<u8>::empty() =~= t);
    stream_frames_distinct(a, Seq::empty(), b, Seq::empty());
}

/// An identifier is written as thirty-six characters: its sixteen bytes in
/// hexadecimal, the first byte first, with hyphens after the fourth, sixth,
/// eighth and tenth byte.
pub proof fn id_text_shape(id: u128)
    ensures
        uuid_text(id).len() == 36,
        uuid_text(id)[8] == '-' && uuid_text(id)[13] == '-' && uuid_text(id)[18] == '-'
            && uuid_text(id)[23] == '-',
        uuid_text(id).subrange(0, 8) + uuid_text(id).subrange(9, 13) + uuid_text(id).subrange(
            14,
            18,
        ) + uuid_text(id).subrange(19, 23) + uuid_text(id).subrange(24, 36) == hex(
            be_bytes(id as nat, 16),
        ),
{
    reveal_strlit("-");
    crate::protocol::lemma_be_bytes(id as nat, 16);
    crate::number::lemma_hex_len(be_bytes(id as nat, 16));
    let h = hex(be_bytes(id as nat, 16));
    let t = uuid_text(id);
    assert(t.subrange(0, 8) =~= h.subrange(0, 8));
    assert(t.subrange(9, 13) =~= h.subrange(8, 12));
    assert(t.subrange(14, 18) =~= h.subrange(12, 16));
    assert(t.subrange(19, 23) =~= h.subrange(16, 20));
    assert(t.subrange(24, 36) =~= h.subrange(20, 32));
    assert(h.subrange(0, 8) + h.subrange(8, 12) + h.subrange(12, 16) + h.subrange(16, 20)
        + h.subrange(20, 32) =~= h);
}

} // verus!
