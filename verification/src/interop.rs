//! Trusted declarations for the outside code the library relies on: the
//! `uuid` crate's value type and std's lossy UTF-8 decoding.

use vstd::prelude::*;
use vstd::utf8::decode_utf8;
use vstd::utf8::valid_utf8;

verus! {

#[verifier::external_type_specification]
#[verifier::external_body]
pub struct ExUuid(uuid::Uuid);

/// The 16 bytes that a `uuid::Uuid` holds.
pub uninterp spec fn uuid_byte_seq(u: uuid::Uuid) -> Seq<u8>;

/// Relies on `uuid::Uuid::into_bytes`: it hands back the UUID's 16
/// underlying bytes verbatim.
#[verifier::external_body]
pub(crate) fn uuid_to_bytes(u: uuid::Uuid) -> (r: [u8; 16])
    ensures
        r@ == uuid_byte_seq(u),
{
    u.into_bytes()
}

/// Relies on `uuid::Uuid::from_slice`: on a slice of exactly 16 bytes it
/// always returns `Ok` of a UUID holding those bytes, so the fallback to
/// `uuid::Uuid::nil` is never taken.
#[verifier::external_body]
pub(crate) fn uuid_from_bytes16(b: &[u8; 16]) -> (r: uuid::Uuid)
    ensures
        uuid_byte_seq(r) == b@,
{
    uuid::Uuid::from_slice(b.as_slice()).unwrap_or(uuid::Uuid::nil())
}

/// What std's `String::from_utf8_lossy` returns for the given bytes: the
/// bytes decoded as UTF-8, with invalid sequences replaced by U+FFFD. A
/// function of the bytes alone.
pub uninterp spec fn lossy_decode_of(b: Seq<u8>) -> Seq<char>;

/// Relies on std's `String::from_utf8_lossy`: the result depends on the
/// bytes alone, and valid UTF-8 input is decoded unchanged.
#[verifier::external_body]
pub(crate) fn lossy_decode(b: &[u8]) -> (r: String)
    ensures
        r@ == lossy_decode_of(b@),
        valid_utf8(b@) ==> r@ == decode_utf8(b@),
{
    String::from_utf8_lossy(b).into_owned()
}

} // verus!
