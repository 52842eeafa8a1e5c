//! The identifier type itself: 16 raw bytes with value semantics.

use vstd::prelude::*;
use vstd::string::StrSliceExecFns;
use vstd::string::StringExecFns;
use vstd::utf8::decode_utf8;

use crate::interop::lossy_decode;
use crate::interop::lossy_decode_of;
use crate::interop::uuid_byte_seq;
use crate::interop::uuid_from_bytes16;
use crate::interop::uuid_to_bytes;
use crate::model::all_zero;
use crate::model::colon_end;
use crate::model::dashed;
use crate::model::denoted_bytes;
use crate::model::has_prefix;
use crate::model::keeps_byte;
use crate::model::lemma_dashed_chunk;
use crate::model::lemma_encode_undash;
use crate::model::lemma_parse_rendering;
use crate::model::parses;
use crate::model::payload_of;
use crate::model::prefix_chars;
use crate::model::rendered;
use crate::model::round_trip_safe;
use crate::model::undashed_bytes;
use crate::model::zero_bytes;

verus! {

/// A 128-bit identifier held as 16 raw bytes.
///
/// The all-zero value is the canonical "empty" identifier. Equality and
/// hashing go by the raw bytes alone.
#[derive(Clone, Copy, Debug, Eq, Hash)]
pub struct USID {
    bytes: [u8; 16],
}

/// The error returned when a textual identifier cannot be parsed.
#[derive(Clone, Copy, Debug, PartialEq, Eq, Structural)]
pub enum UsidError {
    /// The input is not a well-formed textual identifier: its payload holds
    /// fewer than 16 bytes once dashes are removed.
    Format,
}

/// True exactly when the string starts with the literal prefix `usid:`.
fn has_usid_prefix(s: &str, n: usize) -> (r: bool)
    requires
        s@.len() == n as nat,
    ensures
        r == has_prefix(s@),
{
    if n < 5 {
        proof {
            assert(prefix_chars().len() == 5);
        }
        return false;
    }
    let r = s.get_char(0) == 'u' && s.get_char(1) == 's' && s.get_char(2) == 'i' && s.get_char(3)
        == 'd' && s.get_char(4) == ':';
    proof {
        if r {
            assert(s@.take(5) =~= prefix_chars());
        } else {
            if s@.take(5) == prefix_chars() {
                assert(forall|k: int| 0 <= k < 5 ==> s@.take(5)[k] == s@[k]);
                assert(s@[0] == 'u' && s@[1] == 's' && s@[2] == 'i' && s@[3] == 'd' && s@[4]
                    == ':');
            }
        }
    }
    r
}

/// The index of the first `:` at or after `from`, or the string's length
/// when there is none.
fn find_colon(s: &str, from: usize, n: usize) -> (j: usize)
    requires
        s@.len() == n as nat,
        from <= n,
    ensures
        j as int == colon_end(s@, from as int),
        from <= j <= n,
{
    let mut j: usize = from;
    while j < n
        invariant
            from <= j <= n,
            s@.len() == n as nat,
            colon_end(s@, from as int) == colon_end(s@, j as int),
        decreases n - j,
    {
        if s.get_char(j) == ':' {
            return j;
        }
        j = j + 1;
    }
    j
}

impl View for USID {
    type V = Seq<u8>;

    closed spec fn view(&self) -> Seq<u8> {
        self.bytes@
    }
}

impl USID {
    /// The empty identifier: 16 zero bytes.
    pub fn new() -> (r: Self)
        ensures
            r@ == zero_bytes(16),
    {
        let r = USID { bytes: [0u8; 16] };
        proof {
            assert(r@ =~= zero_bytes(16));
        }
        r
    }

    /// An identifier holding the given 16 bytes verbatim.
    pub fn from_bytes(bytes: &[u8; 16]) -> (r: Self)
        ensures
            r@ == bytes@,
    {
        USID { bytes: *bytes }
    }

    /// Every identifier holds exactly 16 bytes.
    pub proof fn lemma_len(self)
        ensures
            self@.len() == 16,
    {
    }

    /// An identifier holding the given UUID's 16 bytes verbatim.
    pub fn from_uuid(uuid: uuid::Uuid) -> (r: Self)
        ensures
            r@ == uuid_byte_seq(uuid),
    {
        USID { bytes: uuid_to_bytes(uuid) }
    }

    /// The identifier's 16 bytes reinterpreted as a standard UUID.
    pub fn as_uuid(&self) -> (r: uuid::Uuid)
        ensures
            uuid_byte_seq(r) == self@,
    {
        uuid_from_bytes16(&self.bytes)
    }

    /// An identifier parsed from its textual form.
    ///
    /// With the `usid:` prefix the payload is the second colon-delimited
    /// segment; without it the whole input is the payload. Every `-` is
    /// removed, and the first 16 bytes of the payload's UTF-8 form become
    /// the identifier. Fails with a format error exactly when fewer than 16
    /// bytes remain; a prefixed input always has a second colon-delimited
    /// segment, since the prefix itself ends in `:`.
    pub fn from_string(s: &str) -> (r: Result<Self, UsidError>)
        ensures
            parses(s@) ==> r is Ok && r->Ok_0@ == denoted_bytes(s@).take(16),
            !parses(s@) ==> r is Err && r->Err_0 == UsidError::Format,
    {
        let n: usize = s.unicode_len();
        let payload: &str = if has_usid_prefix(s, n) {
            let j = find_colon(s, 5, n);
            s.substring_char(5, j)
        } else {
            s
        };
        proof {
            assert(payload@ == payload_of(s@));
        }
        let pbytes: Vec<u8> = payload.as_bytes_vec();
        let mut clean: Vec<u8> = Vec::new();
        let mut i: usize = 0;
        while i < pbytes.len()
            invariant
                i <= pbytes.len(),
                clean@ == undashed_bytes(pbytes@.take(i as int)),
            decreases pbytes.len() - i,
        {
            let b = pbytes[i];
            proof {
                reveal(Seq::filter);
                assert(pbytes@.take(i + 1).drop_last() =~= pbytes@.take(i as int));
                assert(pbytes@.take(i + 1).last() == pbytes@[i as int]);
            }
            if b != 0x2du8 {
                clean.push(b);
                proof {
                    assert(keeps_byte(b));
                }
            } else {
                proof {
                    assert(!keeps_byte(b));
                }
            }
            i = i + 1;
        }
        proof {
            assert(pbytes@.take(pbytes@.len() as int) =~= pbytes@);
            lemma_encode_undash(payload@);
            assert(clean@ == denoted_bytes(s@));
        }
        if clean.len() < 16 {
            return Err(UsidError::Format);
        }
        let mut arr: [u8; 16] = [0u8; 16];
        let mut k: usize = 0;
        while k < 16
            invariant
                k <= 16,
                clean@.len() >= 16,
                clean@ == denoted_bytes(s@),
                forall|t: int| 0 <= t < k ==> arr@[t] == clean@[t],
            decreases 16 - k,
        {
            arr[k] = clean[k];
            k = k + 1;
        }
        proof {
            assert(arr@ =~= denoted_bytes(s@).take(16));
        }
        Ok(USID { bytes: arr })
    }

    /// The identifier's textual form: the prefix `usid:`, then the 16 bytes
    /// decoded as UTF-8 (lossily) with a `-` inserted before every
    /// character whose 0-based index is a positive multiple of four.
    ///
    /// For byte content that is valid UTF-8 whose characters include no
    /// `-` and no `:`, the result parses back to the same identifier:
    /// together with [`USID::from_string`]'s contract, the second clause
    /// below says that `from_string` on this result succeeds and returns
    /// these bytes.
    pub fn as_string(&self) -> (r: String)
        ensures
            r@ == rendered(self@),
            round_trip_safe(self@) ==> parses(r@) && denoted_bytes(r@).take(16) == self@,
    {
        let decoded = lossy_decode(self.bytes.as_slice());
        let dstr: &str = decoded.as_str();
        let n: usize = dstr.unicode_len();
        let mut out: String = "usid:".to_owned();
        proof {
            reveal_strlit("usid:");
            assert(out@ =~= prefix_chars());
            assert(dstr@.take(0) =~= Seq::<char>::empty());
        }
        let mut i: usize = 0;
        while i < n
            invariant
                i <= n,
                dstr@.len() == n as nat,
                i % 4 == 0 || i == n,
                out@ == prefix_chars() + dashed(dstr@.take(i as int)),
            decreases n - i,
        {
            if i > 0 {
                out.append("-");
            }
            let j: usize = if n - i < 4 {
                n
            } else {
                i + 4
            };
            let chunk = dstr.substring_char(i, j);
            out.append(chunk);
            proof {
                reveal_strlit("-");
                assert("-"@ =~= seq!['-']);
                lemma_dashed_chunk(dstr@, i as int, j as int);
                assert(out@ =~= prefix_chars() + dashed(dstr@.take(j as int)));
            }
            i = j;
        }
        proof {
            assert(dstr@.take(n as int) =~= dstr@);
            if round_trip_safe(self@) {
                let cs = decode_utf8(self@);
                vstd::utf8::decode_utf8_encode_utf8(self@);
                assert(dstr@ == cs);
                lemma_parse_rendering(cs, self@);
            }
        }
        out
    }

    /// True exactly when every byte of the identifier is zero.
    pub fn is_empty(&self) -> (r: bool)
        ensures
            r == all_zero(self@),
    {
        let mut i: usize = 0;
        while i < 16
            invariant
                0 <= i <= 16,
                forall|j: int| 0 <= j < i ==> self@[j] == 0u8,
            decreases 16 - i,
        {
            if self.bytes[i] != 0 {
                return false;
            }
            i = i + 1;
        }
        true
    }
}

impl PartialEq for USID {
    fn eq(&self, other: &Self) -> (r: bool) {
        let mut i: usize = 0;
        while i < 16
            invariant
                0 <= i <= 16,
                forall|j: int| 0 <= j < i ==> self@[j] == other@[j],
            decreases 16 - i,
        {
            if self.bytes[i] != other.bytes[i] {
                return false;
            }
            i = i + 1;
        }
        proof {
            assert(self@ =~= other@);
        }
        true
    }
}

impl vstd::std_specs::cmp::PartialEqSpecImpl for USID {
    open spec fn obeys_eq_spec() -> bool {
        true
    }

    open spec fn eq_spec(&self, other: &Self) -> bool {
        self@ == other@
    }
}

impl Default for USID {
    /// The default identifier is the empty one.
    fn default() -> (r: Self)
        ensures
            r@ == zero_bytes(16),
    {
        USID::new()
    }
}

} // verus!
