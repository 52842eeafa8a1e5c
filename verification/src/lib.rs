//! A fixed-size 128-bit identifier ("USID") with a dashed, `usid:`-prefixed
//! textual form, binary interop with standard UUIDs, and a zero-value
//! "empty" sentinel.
//!
//! The identifier holds 16 raw bytes. Its textual form decodes those bytes
//! as UTF-8 (lossily) and inserts a `-` before every character whose 0-based
//! index is a positive multiple of four, after the literal prefix `usid:`.

mod interop;
mod laws;
mod model;
mod usid;

pub use interop::{lossy_decode_of, uuid_byte_seq};
pub use laws::{lemma_eq_is_byte_eq, lemma_new_is_empty, lemma_nonzero_not_empty,
    lemma_plain_ascii_round_trip_safe, lemma_uuid_round_trip};
pub use model::{all_zero, colon_end, dashed, denoted_bytes, has_prefix, keeps_byte, keeps_char,
    parses, payload_of, plain_ascii_bytes, prefix_chars, rendered, round_trip_safe, undashed,
    undashed_bytes, zero_bytes};
pub use usid::{USID, UsidError};
