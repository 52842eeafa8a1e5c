use std::collections::hash_map::DefaultHasher;
use std::hash::Hash;
use std::hash::Hasher;

use usid::{USID, UsidError};
use uuid::Uuid;

fn hash_of(x: &USID) -> u64 {
    let mut h = DefaultHasher::new();
    x.hash(&mut h);
    h.finish()
}

#[test]
fn new_is_empty() {
    assert!(USID::new().is_empty());
}

#[test]
fn default_is_empty() {
    assert!(USID::default().is_empty());
}

#[test]
fn nonzero_bytes_not_empty() {
    let mut b = [0u8; 16];
    b[7] = 1;
    assert!(!USID::from_bytes(&b).is_empty());
}

#[test]
fn byte_round_trip_via_equality() {
    let b = *b"abcdefghijklmnop";
    assert_eq!(USID::from_bytes(&b), USID::from_bytes(&b));
}

#[test]
fn equal_bytes_equal_ids_and_hashes() {
    let b = [0x41u8; 16];
    let x = USID::from_bytes(&b);
    let y = USID::from_bytes(&b);
    assert_eq!(x, y);
    assert_eq!(hash_of(&x), hash_of(&y));
}

#[test]
fn differing_bytes_unequal_ids() {
    let mut b = [0x41u8; 16];
    let x = USID::from_bytes(&b);
    b[15] = 0x42;
    let y = USID::from_bytes(&b);
    assert_ne!(x, y);
}

#[test]
fn uuid_round_trip() {
    let u = Uuid::from_bytes([
        0xa1, 0xa2, 0xa3, 0xa4, 0xb1, 0xb2, 0xc1, 0xc2, 0xd1, 0xd2, 0xd3, 0xd4, 0xd5, 0xd6, 0xd7,
        0xd8,
    ]);
    assert_eq!(USID::from_uuid(u).as_uuid(), u);
}

#[test]
fn from_uuid_copies_bytes_verbatim() {
    let u = Uuid::from_bytes(*b"abcdefghijklmnop");
    assert_eq!(USID::from_uuid(u), USID::from_bytes(u.as_bytes()));
}

#[test]
fn as_uuid_exposes_bytes_verbatim() {
    let b = *b"abcdefghijklmnop";
    assert_eq!(USID::from_bytes(&b).as_uuid().as_bytes(), &b);
}

#[test]
fn string_round_trip_for_plain_ascii() {
    let x = USID::from_bytes(b"abcdefghijklmnop");
    let s = x.as_string();
    let y = USID::from_string(&s).unwrap();
    assert_eq!(x, y);
}

#[test]
fn string_round_trip_for_multibyte_utf8() {
    let text = "éèêëàâîï";
    assert_eq!(text.len(), 16);
    let mut b = [0u8; 16];
    b.copy_from_slice(text.as_bytes());
    let x = USID::from_bytes(&b);
    let s = x.as_string();
    assert_eq!(s, "usid:éèêë-àâîï");
    assert_eq!(USID::from_string(&s).unwrap(), x);
}

#[test]
fn dashed_literal_parses_and_renders_back() {
    let x = USID::from_string("usid:abcd-efgh-ijkl-mnop").unwrap();
    assert_eq!(x.as_string(), "usid:abcd-efgh-ijkl-mnop");
}

#[test]
fn short_input_is_a_format_error() {
    assert_eq!(USID::from_string("short"), Err(UsidError::Format));
}

#[test]
fn empty_payload_is_a_format_error() {
    assert_eq!(USID::from_string("usid:"), Err(UsidError::Format));
}

#[test]
fn unprefixed_input_is_the_payload() {
    let x = USID::from_string("abcdefghijklmnopqrst").unwrap();
    assert_eq!(x, USID::from_bytes(b"abcdefghijklmnop"));
}

#[test]
fn unprefixed_dashes_are_removed() {
    let x = USID::from_string("ab-cd-ef-gh-ij-kl-mn-op").unwrap();
    assert_eq!(x, USID::from_bytes(b"abcdefghijklmnop"));
}

#[test]
fn prefixed_payload_stops_at_next_colon() {
    let x = USID::from_string("usid:abcdefghijklmnop:ignored").unwrap();
    assert_eq!(x, USID::from_bytes(b"abcdefghijklmnop"));
}

#[test]
fn prefixed_payload_too_short_after_colon_split() {
    assert_eq!(
        USID::from_string("usid:abcd:efghijklmnopqrstuv"),
        Err(UsidError::Format)
    );
}

#[test]
fn zero_id_renders_as_dashed_zero_chars() {
    let x = USID::from_bytes(&[0u8; 16]);
    assert!(x.is_empty());
    let mut expected = String::from("usid:");
    for i in 0..16 {
        if i > 0 && i % 4 == 0 {
            expected.push('-');
        }
        expected.push('\u{0}');
    }
    assert_eq!(x.as_string(), expected);
}

#[test]
fn ascii_rendering_groups_by_four() {
    let x = USID::from_bytes(b"0123456789ABCDEF");
    assert_eq!(x.as_string(), "usid:0123-4567-89AB-CDEF");
}

#[test]
fn non_utf8_bytes_render_lossily() {
    let b = [0xffu8; 16];
    let x = USID::from_bytes(&b);
    let decoded = String::from_utf8_lossy(&b);
    let mut expected = String::from("usid:");
    for (i, c) in decoded.chars().enumerate() {
        if i > 0 && i % 4 == 0 {
            expected.push('-');
        }
        expected.push(c);
    }
    assert_eq!(x.as_string(), expected);
}
