//! The library's general laws, stated over the identifier model.
//!
//! Each law is proved once and for all here; the scenario tests exercise
//! the same claims on concrete values. The textual round trip is stated
//! directly on [`crate::USID::as_string`]'s contract.

use vstd::prelude::*;
use vstd::std_specs::cmp::PartialEqSpec;
use vstd::utf8::decode_utf8;
use vstd::utf8::encode_utf8;
use vstd::utf8::is_ascii_chars;
use vstd::utf8::valid_utf8;

use crate::interop::uuid_byte_seq;
use crate::model::all_zero;
use crate::model::plain_ascii_bytes;
use crate::model::round_trip_safe;
use crate::model::zero_bytes;
use crate::usid::USID;

verus! {

/// The empty identifier is empty: sixteen zero bytes are all zero.
pub proof fn lemma_new_is_empty()
    ensures
        all_zero(zero_bytes(16)),
{
}

/// An identifier holding a nonzero byte anywhere is not empty.
pub proof fn lemma_nonzero_not_empty(b: Seq<u8>, i: int)
    requires
        0 <= i < b.len(),
        b[i] != 0u8,
    ensures
        !all_zero(b),
{
}

/// Equality between identifiers is equality of their byte content: two
/// identifiers built from identical bytes are equal, two built from
/// differing bytes are unequal.
pub proof fn lemma_eq_is_byte_eq(x: USID, y: USID)
    ensures
        x.eq_spec(&y) <==> x@ == y@,
{
}

/// Byte content made of ASCII characters other than `-` and `:` is safe
/// for the textual round trip: such bytes are valid UTF-8, and their
/// characters include no `-` and no `:`.
pub proof fn lemma_plain_ascii_round_trip_safe(b: Seq<u8>)
    requires
        plain_ascii_bytes(b),
    ensures
        round_trip_safe(b),
{
    let cs = Seq::new(b.len(), |i: int| b[i] as char);
    assert forall|i: int|
        0 <= i < b.len() implies '\0' <= #[trigger] cs[i] <= '\u{7f}' && cs[i] as u8 == b[i]
        && cs[i] != '-' && cs[i] != ':' by {
        assert(b[i] < 0x80u8 && b[i] != 0x2du8 && b[i] != 0x3au8);
    }
    assert(is_ascii_chars(cs));
    vstd::utf8::is_ascii_chars_encode_utf8(cs);
    assert(encode_utf8(cs) =~= b);
    vstd::utf8::encode_utf8_valid_utf8(cs);
    assert(valid_utf8(b));
    vstd::utf8::encode_utf8_decode_utf8(cs);
    assert(decode_utf8(b) == cs);
}

/// Taking a UUID's bytes into an identifier and reading them back out as
/// a UUID preserves the byte content unchanged.
pub proof fn lemma_uuid_round_trip(u: uuid::Uuid, x: USID, v: uuid::Uuid)
    requires
        x@ == uuid_byte_seq(u),
        uuid_byte_seq(v) == x@,
    ensures
        uuid_byte_seq(v) == uuid_byte_seq(u),
{
}

} // verus!
