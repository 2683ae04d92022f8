//! The 32-byte header that opens every archive entry.

use vstd::prelude::*;

use crate::bytes::{
    le16_at,
    le16_bytes,
    le32_at,
    le32_bytes,
    push_tag,
    push_u16,
    push_u32,
    read_tag,
    read_u16,
    read_u32,
};
use crate::wav_header::{low32, WavHeader};
use crate::PacError;

verus! {

/// Size in bytes of an archive entry header.
pub const PAC_HEADER_SIZE: usize = 32;

/// An archive entry header. Fields are stored in this order, little-endian,
/// with no gaps. The meaning of the fields named `field_*` and
/// `payload_size_primary` is not known; they are carried as they are.
#[derive(Debug, Clone, Copy)]
pub struct PacItemHeader {
    pub field_a: u16,
    pub field_b: u16,
    pub field_c: u32,
    /// Twice the playback sample rate.
    pub sample_rate_doubled: u32,
    /// Bytes per sample frame.
    pub sample_size: u16,
    pub bit_depth: u16,
    /// Entry type tag; `"JU"` padded with zero bytes marks an entry whose
    /// payload starts two bytes after the header.
    pub magic: [u8; 4],
    pub payload_size_primary: u32,
    pub field_unk6: u16,
    pub field_unk7: u16,
    /// Exact length of the entry's payload.
    pub payload_size: u32,
}

/// The sample rate field (doubled) of the header stored at `at`.
pub open spec fn stored_rate_doubled(s: Seq<u8>, at: int) -> u32 {
    le32_at(s, at + 8)
}

/// The sample size field of the header stored at `at`.
pub open spec fn stored_sample_size(s: Seq<u8>, at: int) -> u16 {
    le16_at(s, at + 12)
}

/// The tag of the header stored at `at`.
pub open spec fn stored_magic(s: Seq<u8>, at: int) -> Seq<u8> {
    s.subrange(at + 16, at + 20)
}

/// The payload size field of the header stored at `at`.
pub open spec fn stored_payload_size(s: Seq<u8>, at: int) -> u32 {
    le32_at(s, at + 28)
}

/// The tag that delays an entry's payload by two bytes: `"JU"` and two zero
/// bytes.
pub open spec fn ju_tag() -> Seq<u8> {
    seq![0x4Au8, 0x55u8, 0u8, 0u8]
}

/// Bytes between an entry's header and its payload.
pub open spec fn payload_gap(magic: Seq<u8>) -> int {
    if magic == ju_tag() {
        2
    } else {
        0
    }
}

/// The header written for a WAV file with sample rate `rate`, bit depth
/// `bit_depth` and `payload_size` bytes of audio: constant identifiers, the
/// rate both as it is and doubled (low 32 bits), a zero tag, and the frame
/// size in whole bytes.
pub open spec fn wav_pac_header(rate: u32, bit_depth: u16, payload_size: u32) -> PacItemHeader {
    PacItemHeader {
        field_a: 1,
        field_b: 1,
        field_c: rate,
        sample_rate_doubled: low32(rate * 2),
        sample_size: bit_depth / 8,
        bit_depth,
        magic: [0u8, 0u8, 0u8, 0u8],
        payload_size_primary: 0,
        field_unk6: 0,
        field_unk7: 0,
        payload_size,
    }
}

impl PacItemHeader {
    /// The header for a WAV file whose header is `w` and whose audio is
    /// `payload_size` bytes long.
    pub fn for_wav(w: &WavHeader, payload_size: u32) -> (r: PacItemHeader)
        ensures
            r == wav_pac_header(w.sample_rate, w.bit_depth, payload_size),
    {
        PacItemHeader {
            field_a: 1,
            field_b: 1,
            field_c: w.sample_rate,
            sample_rate_doubled: w.sample_rate.wrapping_mul(2),
            sample_size: w.bit_depth / 8,
            bit_depth: w.bit_depth,
            magic: [0u8, 0u8, 0u8, 0u8],
            payload_size_primary: 0,
            field_unk6: 0,
            field_unk7: 0,
            payload_size,
        }
    }

    /// The header's 32 bytes.
    pub open spec fn spec_bytes(self) -> Seq<u8> {
        le16_bytes(self.field_a) + le16_bytes(self.field_b) + le32_bytes(self.field_c)
            + le32_bytes(self.sample_rate_doubled) + le16_bytes(self.sample_size) + le16_bytes(
            self.bit_depth,
        ) + self.magic@ + le32_bytes(self.payload_size_primary) + le16_bytes(self.field_unk6)
            + le16_bytes(self.field_unk7) + le32_bytes(self.payload_size)
    }

    /// The header is the one stored at `at` in `s`.
    pub open spec fn is_stored_at(self, s: Seq<u8>, at: int) -> bool {
        &&& self.field_a == le16_at(s, at)
        &&& self.field_b == le16_at(s, at + 2)
        &&& self.field_c == le32_at(s, at + 4)
        &&& self.sample_rate_doubled == stored_rate_doubled(s, at)
        &&& self.sample_size == stored_sample_size(s, at)
        &&& self.bit_depth == le16_at(s, at + 14)
        &&& self.magic@ == stored_magic(s, at)
        &&& self.payload_size_primary == le32_at(s, at + 20)
        &&& self.field_unk6 == le16_at(s, at + 24)
        &&& self.field_unk7 == le16_at(s, at + 26)
        &&& self.payload_size == stored_payload_size(s, at)
    }

    /// Reads the header stored at `at`; fails when fewer than
    /// `PAC_HEADER_SIZE` bytes remain there.
    pub fn parse(s: &[u8], at: usize) -> (r: Result<PacItemHeader, PacError>)
        ensures
            at + PAC_HEADER_SIZE <= s@.len() <==> r is Ok,
            r is Err ==> r == Err::<PacItemHeader, PacError>(PacError::TruncatedHeader),
            r matches Ok(h) ==> h.is_stored_at(s@, at as int),
    {
        if at > s.len() || s.len() - at < PAC_HEADER_SIZE {
            return Err(PacError::TruncatedHeader);
        }
        Ok(
            PacItemHeader {
                field_a: read_u16(s, at),
                field_b: read_u16(s, at + 2),
                field_c: read_u32(s, at + 4),
                sample_rate_doubled: read_u32(s, at + 8),
                sample_size: read_u16(s, at + 12),
                bit_depth: read_u16(s, at + 14),
                magic: read_tag(s, at + 16),
                payload_size_primary: read_u32(s, at + 20),
                field_unk6: read_u16(s, at + 24),
                field_unk7: read_u16(s, at + 26),
                payload_size: read_u32(s, at + 28),
            },
        )
    }

    /// Appends the header's bytes to `out`.
    pub fn write_to(&self, out: &mut Vec<u8>)
        ensures
            final(out)@ == old(out)@ + self.spec_bytes(),
    {
        push_u16(out, self.field_a);
        push_u16(out, self.field_b);
        push_u32(out, self.field_c);
        push_u32(out, self.sample_rate_doubled);
        push_u16(out, self.sample_size);
        push_u16(out, self.bit_depth);
        push_tag(out, self.magic);
        push_u32(out, self.payload_size_primary);
        push_u16(out, self.field_unk6);
        push_u16(out, self.field_unk7);
        push_u32(out, self.payload_size);
    }
}

/// A header written into a buffer is read back unchanged from where it was
/// written.
pub proof fn lemma_pac_header_round_trip(h: PacItemHeader, s: Seq<u8>, at: int)
    requires
        0 <= at,
        at + 32 <= s.len(),
        s.subrange(at, at + 32) == h.spec_bytes(),
    ensures
        h.is_stored_at(s, at),
{
    let b = h.spec_bytes();
    assert(b.len() == 32);
    assert forall|i: int| 0 <= i < 32 implies s[at + i] == #[trigger] b[i] by {
        assert(s.subrange(at, at + 32)[i] == s[at + i]);
    }
    assert(b.subrange(0, 2) =~= le16_bytes(h.field_a));
    assert(b.subrange(2, 4) =~= le16_bytes(h.field_b));
    assert(b.subrange(4, 8) =~= le32_bytes(h.field_c));
    assert(b.subrange(8, 12) =~= le32_bytes(h.sample_rate_doubled));
    assert(b.subrange(12, 14) =~= le16_bytes(h.sample_size));
    assert(b.subrange(14, 16) =~= le16_bytes(h.bit_depth));
    assert(b.subrange(16, 20) =~= h.magic@);
    assert(b.subrange(20, 24) =~= le32_bytes(h.payload_size_primary));
    assert(b.subrange(24, 26) =~= le16_bytes(h.field_unk6));
    assert(b.subrange(26, 28) =~= le16_bytes(h.field_unk7));
    assert(b.subrange(28, 32) =~= le32_bytes(h.payload_size));
    lemma_le16_at(s, at, 0, b, h.field_a);
    lemma_le16_at(s, at, 2, b, h.field_b);
    lemma_le32_at(s, at, 4, b, h.field_c);
    lemma_le32_at(s, at, 8, b, h.sample_rate_doubled);
    lemma_le16_at(s, at, 12, b, h.sample_size);
    lemma_le16_at(s, at, 14, b, h.bit_depth);
    lemma_le32_at(s, at, 20, b, h.payload_size_primary);
    lemma_le16_at(s, at, 24, b, h.field_unk6);
    lemma_le16_at(s, at, 26, b, h.field_unk7);
    lemma_le32_at(s, at, 28, b, h.payload_size);
    assert(stored_magic(s, at) =~= b.subrange(16, 20));
}

/// A 16-bit value whose bytes stand at `at + k` in `s` is read back there.
proof fn lemma_le16_at(s: Seq<u8>, at: int, k: int, b: Seq<u8>, x: u16)
    requires
        0 <= at,
        0 <= k,
        k + 2 <= b.len(),
        at + b.len() <= s.len(),
        forall|i: int| 0 <= i < b.len() ==> s[at + i] == #[trigger] b[i],
        b.subrange(k, k + 2) == le16_bytes(x),
    ensures
        le16_at(s, at + k) == x,
{
    crate::bytes::lemma_le16_round_trip(x);
    assert(s[at + k] == b[k]);
    assert(s[at + k + 1] == b[k + 1]);
    assert(b.subrange(k, k + 2)[0] == b[k]);
    assert(b.subrange(k, k + 2)[1] == b[k + 1]);
}

/// A 32-bit value whose bytes stand at `at + k` in `s` is read back there.
proof fn lemma_le32_at(s: Seq<u8>, at: int, k: int, b: Seq<u8>, x: u32)
    requires
        0 <= at,
        0 <= k,
        k + 4 <= b.len(),
        at + b.len() <= s.len(),
        forall|i: int| 0 <= i < b.len() ==> s[at + i] == #[trigger] b[i],
        b.subrange(k, k + 4) == le32_bytes(x),
    ensures
        le32_at(s, at + k) == x,
{
    crate::bytes::lemma_le32_round_trip(x);
    assert(s[at + k] == b[k]);
    assert(s[at + k + 1] == b[k + 1]);
    assert(s[at + k + 2] == b[k + 2]);
    assert(s[at + k + 3] == b[k + 3]);
    assert(b.subrange(k, k + 4)[0] == b[k]);
    assert(b.subrange(k, k + 4)[1] == b[k + 1]);
    assert(b.subrange(k, k + 4)[2] == b[k + 2]);
    assert(b.subrange(k, k + 4)[3] == b[k + 3]);
}

} // verus!
