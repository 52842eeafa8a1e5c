//! The mathematical model of the identifier and of its textual form.
//!
//! Everything here is specification-level: byte sequences stand for the
//! identifier's content, character sequences for its textual form.

use vstd::prelude::*;
use vstd::utf8::decode_utf8;
use vstd::utf8::encode_scalar;
use vstd::utf8::encode_utf8;
use vstd::utf8::has_width_1_encoding;
use vstd::utf8::is_scalar;
use vstd::utf8::valid_utf8;

use crate::interop::lossy_decode_of;

verus! {

/// The all-zero byte sequence of the given length.
pub open spec fn zero_bytes(n: nat) -> Seq<u8> {
    Seq::new(n, |i: int| 0u8)
}

/// True when every byte of the sequence is zero.
pub open spec fn all_zero(b: Seq<u8>) -> bool {
    forall|i: int| 0 <= i < b.len() ==> b[i] == 0u8
}

/// The characters of the literal prefix `usid:`.
pub open spec fn prefix_chars() -> Seq<char> {
    seq!['u', 's', 'i', 'd', ':']
}

/// A sequence with a `-` inserted before every character whose 0-based
/// index in the input is a positive multiple of four: groups of four,
/// separated by dashes, the last group possibly shorter.
pub open spec fn dashed(s: Seq<char>) -> Seq<char>
    decreases s.len(),
{
    if s.len() <= 4 {
        s
    } else {
        s.take(4) + seq!['-'] + dashed(s.skip(4))
    }
}

/// The textual form of the given bytes: the literal prefix `usid:`, then
/// the bytes decoded as UTF-8 (lossily) with dashes inserted.
pub open spec fn rendered(b: Seq<u8>) -> Seq<char> {
    prefix_chars() + dashed(lossy_decode_of(b))
}

/// True when the sequence starts with the literal prefix `usid:`.
pub open spec fn has_prefix(s: Seq<char>) -> bool {
    s.len() >= 5 && s.take(5) == prefix_chars()
}

/// The index of the first `:` at or after `from`, or the sequence's length
/// when there is none.
pub open spec fn colon_end(s: Seq<char>, from: int) -> int
    recommends
        0 <= from <= s.len(),
    decreases s.len() - from,
{
    if from >= s.len() {
        s.len() as int
    } else if s[from] == ':' {
        from
    } else {
        colon_end(s, from + 1)
    }
}

/// The payload of a textual identifier: with the `usid:` prefix, the
/// characters between the first `:` and the next `:` or the end; without
/// the prefix, the whole input.
pub open spec fn payload_of(s: Seq<char>) -> Seq<char> {
    if has_prefix(s) {
        s.subrange(5, colon_end(s, 5))
    } else {
        s
    }
}

/// True of the characters dash removal keeps: everything but `-`.
pub open spec fn keeps_char(c: char) -> bool {
    c != '-'
}

/// True of the bytes dash removal keeps: everything but the `-` byte.
pub open spec fn keeps_byte(b: u8) -> bool {
    b != 0x2du8
}

/// The sequence with every `-` character removed.
pub open spec fn undashed(p: Seq<char>) -> Seq<char> {
    p.filter(|c: char| keeps_char(c))
}

/// The sequence with every `-` byte removed.
pub open spec fn undashed_bytes(b: Seq<u8>) -> Seq<u8> {
    b.filter(|x: u8| keeps_byte(x))
}

/// The bytes a textual identifier denotes: the UTF-8 encoding of its
/// payload once every `-` is removed.
pub open spec fn denoted_bytes(s: Seq<char>) -> Seq<u8> {
    encode_utf8(undashed(payload_of(s)))
}

/// True when the text holds at least the 16 bytes an identifier needs.
pub open spec fn parses(s: Seq<char>) -> bool {
    denoted_bytes(s).len() >= 16
}

/// Byte content made of ASCII characters other than `-` and `:`.
pub open spec fn plain_ascii_bytes(b: Seq<u8>) -> bool {
    forall|i: int| 0 <= i < b.len() ==> (#[trigger] b[i]) < 0x80u8 && b[i] != 0x2du8 && b[i]
        != 0x3au8
}

/// Byte content whose textual form survives the round trip: valid UTF-8
/// whose characters include no `-` and no `:`.
pub open spec fn round_trip_safe(b: Seq<u8>) -> bool {
    valid_utf8(b) && forall|i: int|
        0 <= i < decode_utf8(b).len() ==> (#[trigger] decode_utf8(b)[i]) != '-' && decode_utf8(
            b,
        )[i] != ':'
}

/// Extending a dash-grouped sequence by one more group: for a group
/// boundary `i` and a chunk of at most four characters reaching `j`, the
/// grouping of `s.take(j)` is the grouping of `s.take(i)`, a dash when a
/// group precedes, and the chunk itself.
pub(crate) proof fn lemma_dashed_chunk(s: Seq<char>, i: int, j: int)
    requires
        0 <= i < j <= s.len(),
        i % 4 == 0,
        j == i + 4 || j == s.len(),
        j - i <= 4,
    ensures
        dashed(s.take(j)) == dashed(s.take(i)) + (if i > 0 {
            seq!['-']
        } else {
            Seq::<char>::empty()
        }) + s.subrange(i, j),
    decreases i,
{
    if i == 0 {
        assert(dashed(s.take(j)) == s.take(j));
        assert(dashed(s.take(0)) == s.take(0));
        assert(dashed(s.take(0)) + Seq::<char>::empty() + s.subrange(0, j) =~= s.take(j));
    } else {
        let t = s.skip(4);
        assert(s.take(j).take(4) =~= s.take(4));
        assert(s.take(j).skip(4) =~= t.take(j - 4));
        assert(dashed(s.take(j)) == s.take(4) + seq!['-'] + dashed(t.take(j - 4)));
        lemma_dashed_chunk(t, i - 4, j - 4);
        assert(t.subrange(i - 4, j - 4) =~= s.subrange(i, j));
        if i == 4 {
            assert(dashed(s.take(4)) == s.take(4));
            assert(dashed(t.take(0)) =~= Seq::<char>::empty());
            assert(dashed(t.take(j - 4)) =~= t.subrange(0, j - 4));
            assert(dashed(s.take(j)) =~= dashed(s.take(i)) + seq!['-'] + s.subrange(i, j));
        } else {
            assert(s.take(i).take(4) =~= s.take(4));
            assert(s.take(i).skip(4) =~= t.take(i - 4));
            assert(dashed(s.take(i)) == s.take(4) + seq!['-'] + dashed(t.take(i - 4)));
            assert(dashed(s.take(j)) =~= dashed(s.take(i)) + seq!['-'] + s.subrange(i, j));
        }
    }
}

/// UTF-8 encoding distributes over concatenation.
pub(crate) proof fn lemma_encode_concat(a: Seq<char>, b: Seq<char>)
    ensures
        encode_utf8(a + b) == encode_utf8(a) + encode_utf8(b),
    decreases a.len(),
{
    if a.len() == 0 {
        assert(a + b =~= b);
        assert(encode_utf8(a) + encode_utf8(b) =~= encode_utf8(b));
    } else {
        assert((a + b)[0] == a[0]);
        assert((a + b).drop_first() =~= a.drop_first() + b);
        lemma_encode_concat(a.drop_first(), b);
        assert(encode_utf8(a + b) =~= encode_utf8(a) + encode_utf8(b));
    }
}

/// The `-` character is the only one whose UTF-8 encoding holds the `-`
/// byte: one-byte encodings are the character's own value, and every byte
/// of a longer encoding has its high bit set.
pub(crate) proof fn lemma_scalar_dash(c: char)
    ensures
        c == '-' ==> encode_scalar(c as u32) == seq![0x2du8],
        c != '-' ==> forall|k: int|
            0 <= k < encode_scalar(c as u32).len() ==> #[trigger] encode_scalar(c as u32)[k]
                != 0x2du8,
{
    broadcast use vstd::utf8::char_is_scalar;

    let v = c as u32;
    assert(is_scalar(v));
    assert('-' as u32 == 0x2du32);
    if c == '-' {
        assert(v == 0x2du32);
        assert((0x2du32 & 0x7F) as u8 == 0x2du8) by (bit_vector);
        assert(encode_scalar(v) =~= seq![0x2du8]);
    } else {
        if v == 0x2du32 {
            vstd::utf8::char_u32_cast(c, v);
            vstd::utf8::char_u32_cast('-', 0x2du32);
            assert(false);
        }
        if has_width_1_encoding(v) {
            assert((v & 0x7F) as u8 != 0x2du8) by (bit_vector)
                requires
                    v <= 0x7F,
                    v != 0x2du32,
            ;
        } else {
            assert(forall|x: u8|
                (0x80u8 | x) != 0x2du8 && (0xC0u8 | x) != 0x2du8 && (0xE0u8 | x) != 0x2du8 && (
                0xF0u8 | x) != 0x2du8) by (bit_vector);
        }
    }
}

/// Removing dashes from a byte sequence that holds none leaves it as it is.
pub(crate) proof fn lemma_undashed_bytes_all_kept(s: Seq<u8>)
    requires
        forall|k: int| 0 <= k < s.len() ==> s[k] != 0x2du8,
    ensures
        undashed_bytes(s) == s,
    decreases s.len(),
{
    reveal(Seq::filter);
    if s.len() == 0 {
        assert(undashed_bytes(s) =~= s);
    } else {
        lemma_undashed_bytes_all_kept(s.drop_last());
        assert(undashed_bytes(s) =~= s.drop_last().push(s.last()));
        assert(undashed_bytes(s) =~= s);
    }
}

/// Dash removal on characters distributes over concatenation.
pub(crate) proof fn lemma_undashed_add(a: Seq<char>, b: Seq<char>)
    ensures
        undashed(a + b) == undashed(a) + undashed(b),
    decreases b.len(),
{
    reveal(Seq::filter);
    if b.len() == 0 {
        assert(a + b =~= a);
        assert(undashed(b) =~= Seq::<char>::empty());
        assert(undashed(a) + undashed(b) =~= undashed(a));
    } else {
        lemma_undashed_add(a, b.drop_last());
        assert((a + b).drop_last() =~= a + b.drop_last());
        assert((a + b).last() == b.last());
        assert(undashed(a + b) =~= undashed(a) + undashed(b));
    }
}

/// Dash removal on bytes distributes over concatenation.
pub(crate) proof fn lemma_undashed_bytes_add(a: Seq<u8>, b: Seq<u8>)
    ensures
        undashed_bytes(a + b) == undashed_bytes(a) + undashed_bytes(b),
    decreases b.len(),
{
    reveal(Seq::filter);
    if b.len() == 0 {
        assert(a + b =~= a);
        assert(undashed_bytes(b) =~= Seq::<u8>::empty());
        assert(undashed_bytes(a) + undashed_bytes(b) =~= undashed_bytes(a));
    } else {
        lemma_undashed_bytes_add(a, b.drop_last());
        assert((a + b).drop_last() =~= a + b.drop_last());
        assert((a + b).last() == b.last());
        assert(undashed_bytes(a + b) =~= undashed_bytes(a) + undashed_bytes(b));
    }
}

/// Dash removal on a single character keeps or drops it.
pub(crate) proof fn lemma_undashed_singleton(c: char)
    ensures
        undashed(seq![c]) == (if keeps_char(c) {
            seq![c]
        } else {
            Seq::<char>::empty()
        }),
{
    reveal(Seq::filter);
    assert(seq![c].drop_last() =~= Seq::<char>::empty());
    assert(undashed(Seq::<char>::empty()) =~= Seq::<char>::empty());
    assert(seq![c].last() == c);
    if keeps_char(c) {
        assert(undashed(seq![c]) =~= Seq::<char>::empty().push(c));
        assert(Seq::<char>::empty().push(c) =~= seq![c]);
    } else {
        assert(undashed(seq![c]) =~= Seq::<char>::empty());
    }
}

/// Dash removal on a single byte keeps or drops it.
pub(crate) proof fn lemma_undashed_bytes_singleton(b: u8)
    ensures
        undashed_bytes(seq![b]) == (if keeps_byte(b) {
            seq![b]
        } else {
            Seq::<u8>::empty()
        }),
{
    reveal(Seq::filter);
    assert(seq![b].drop_last() =~= Seq::<u8>::empty());
    assert(undashed_bytes(Seq::<u8>::empty()) =~= Seq::<u8>::empty());
    assert(seq![b].last() == b);
    if keeps_byte(b) {
        assert(undashed_bytes(seq![b]) =~= Seq::<u8>::empty().push(b));
        assert(Seq::<u8>::empty().push(b) =~= seq![b]);
    } else {
        assert(undashed_bytes(seq![b]) =~= Seq::<u8>::empty());
    }
}

/// Removing the `-` bytes from a UTF-8 encoding is the same as encoding
/// once the `-` characters are removed: dashes encode as single bytes, and
/// no other character's encoding holds the `-` byte.
pub(crate) proof fn lemma_encode_undash(p: Seq<char>)
    ensures
        undashed_bytes(encode_utf8(p)) == encode_utf8(undashed(p)),
    decreases p.len(),
{
    reveal(Seq::filter);
    if p.len() == 0 {
        assert(undashed(p) =~= p);
        assert(undashed_bytes(encode_utf8(p)) =~= encode_utf8(p));
    } else {
        let c = p[0];
        let rest = p.drop_first();
        let cb = encode_scalar(c as u32);
        assert(p =~= seq![c] + rest);
        assert(encode_utf8(p) == cb + encode_utf8(rest));
        lemma_undashed_bytes_add(cb, encode_utf8(rest));
        lemma_encode_undash(rest);
        lemma_undashed_add(seq![c], rest);
        lemma_encode_concat(undashed(seq![c]), undashed(rest));
        lemma_scalar_dash(c);
        lemma_undashed_singleton(c);
        if c == '-' {
            lemma_undashed_bytes_singleton(0x2du8);
            assert(undashed_bytes(cb) =~= Seq::<u8>::empty());
            assert(encode_utf8(undashed(seq![c])) =~= Seq::<u8>::empty());
        } else {
            lemma_undashed_bytes_all_kept(cb);
            assert(seq![c].drop_first() =~= Seq::<char>::empty());
            assert(seq![c][0] == c);
            assert(encode_utf8(Seq::<char>::empty()) =~= Seq::<u8>::empty());
            assert(encode_utf8(seq![c]) =~= cb + encode_utf8(seq![c].drop_first()));
            assert(encode_utf8(seq![c]) =~= cb);
        }
        assert(undashed_bytes(encode_utf8(p)) =~= encode_utf8(undashed(p)));
    }
}

/// Every character of a dash-grouped sequence is a `-` or one of the
/// original characters.
pub(crate) proof fn lemma_dashed_elems(s: Seq<char>, k: int)
    requires
        0 <= k < dashed(s).len(),
    ensures
        dashed(s)[k] == '-' || s.contains(dashed(s)[k]),
    decreases s.len(),
{
    if s.len() <= 4 {
        assert(s.contains(s[k])) by {
            assert(s[k] == s[k]);
        }
    } else {
        let x = dashed(s)[k];
        if k < 4 {
            assert(x == s[k]);
            assert(s.contains(x)) by {
                assert(s[k] == x);
            }
        } else if k == 4 {
            assert(x == '-');
        } else {
            assert(x == dashed(s.skip(4))[k - 5]);
            lemma_dashed_elems(s.skip(4), k - 5);
            if x != '-' {
                let i = choose|i: int| 0 <= i < s.skip(4).len() && s.skip(4)[i] == x;
                assert(s[i + 4] == x);
                assert(s.contains(x));
            }
        }
    }
}

/// When no `:` stands at or after `from`, the scan for one reaches the end.
pub(crate) proof fn lemma_colon_end_none(s: Seq<char>, from: int)
    requires
        0 <= from <= s.len(),
        forall|k: int| from <= k < s.len() ==> s[k] != ':',
    ensures
        colon_end(s, from) == s.len(),
    decreases s.len() - from,
{
    if from < s.len() {
        lemma_colon_end_none(s, from + 1);
    }
}

/// Removing dashes from a character sequence that holds none leaves it as
/// it is.
pub(crate) proof fn lemma_undashed_all_kept(s: Seq<char>)
    requires
        forall|k: int| 0 <= k < s.len() ==> s[k] != '-',
    ensures
        undashed(s) == s,
    decreases s.len(),
{
    reveal(Seq::filter);
    if s.len() == 0 {
        assert(undashed(s) =~= s);
    } else {
        lemma_undashed_all_kept(s.drop_last());
        assert(undashed(s) =~= s.drop_last().push(s.last()));
        assert(undashed(s) =~= s);
    }
}

/// Removing the dashes that grouping inserted gives back the original
/// characters, as long as they held no dash themselves.
pub(crate) proof fn lemma_undashed_dashed(s: Seq<char>)
    requires
        forall|i: int| 0 <= i < s.len() ==> s[i] != '-',
    ensures
        undashed(dashed(s)) == s,
    decreases s.len(),
{
    if s.len() <= 4 {
        lemma_undashed_all_kept(s);
    } else {
        let head = s.take(4);
        let tail = s.skip(4);
        lemma_undashed_add(head, seq!['-']);
        lemma_undashed_add(head + seq!['-'], dashed(tail));
        assert(head + seq!['-'] + dashed(tail) =~= (head + seq!['-']) + dashed(tail));
        lemma_undashed_all_kept(head);
        lemma_undashed_singleton('-');
        lemma_undashed_dashed(tail);
        assert(undashed(dashed(s)) =~= head + tail);
        s.lemma_split_at(4);
        assert(head + tail =~= s);
    }
}

/// Parsing the rendering of dash-free, colon-free characters whose UTF-8
/// form holds 16 bytes gives back exactly those bytes.
pub(crate) proof fn lemma_parse_rendering(cs: Seq<char>, b: Seq<u8>)
    requires
        b.len() == 16,
        forall|i: int| 0 <= i < cs.len() ==> (#[trigger] cs[i]) != '-' && cs[i] != ':',
        encode_utf8(cs) == b,
    ensures
        parses(prefix_chars() + dashed(cs)),
        denoted_bytes(prefix_chars() + dashed(cs)).take(16) == b,
{
    let t = prefix_chars() + dashed(cs);
    assert(t.take(5) =~= prefix_chars());
    assert(has_prefix(t));
    assert forall|k: int| 5 <= k < t.len() implies t[k] != ':' by {
        assert(t[k] == dashed(cs)[k - 5]);
        lemma_dashed_elems(cs, k - 5);
        if cs.contains(t[k]) {
            let i = choose|i: int| 0 <= i < cs.len() && cs[i] == t[k];
            assert(cs[i] != ':');
        }
    }
    lemma_colon_end_none(t, 5);
    assert(payload_of(t) =~= dashed(cs));
    lemma_undashed_dashed(cs);
    assert(undashed(payload_of(t)) == cs);
    assert(denoted_bytes(t) == b);
    assert(denoted_bytes(t).take(16) =~= b);
}

} // verus!
