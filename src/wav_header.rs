//! The canonical 44-byte header of a PCM WAV file.

use vstd::prelude::*;

use crate::bytes::{
    le16_at,
    le16_bytes,
    le32_at,
    le32_bytes,
    push_tag,
    push_u16,
    push_u32,
    read_tag,
    read_u16,
    read_u32,
};
use crate::PacError;

verus! {

/// Size in bytes of a WAV header.
pub const WAV_HEADER_SIZE: usize = 44;

/// A WAV header: a RIFF chunk holding one `fmt ` chunk and the start of the
/// `data` chunk. Fields are stored in this order, little-endian, with no gaps.
#[derive(Debug, Clone, Copy)]
pub struct WavHeader {
    pub riff_tag: [u8; 4],
    /// Length of the whole file minus 8.
    pub wave_size: u32,
    pub wave_tag: [u8; 4],
    pub fmt_tag: [u8; 4],
    pub fmt_chunk_size: u32,
    /// 1 for uncompressed PCM.
    pub audio_format: u16,
    pub num_channels: u16,
    pub sample_rate: u32,
    pub byte_rate: u32,
    /// Bytes per sample frame.
    pub block_align: u16,
    pub bit_depth: u16,
    pub data_tag: [u8; 4],
    /// Length of the audio data that follows the header.
    pub data_size: u32,
}

/// `"RIFF"`.
pub open spec fn riff_tag() -> [u8; 4] {
    [0x52u8, 0x49u8, 0x46u8, 0x46u8]
}

/// `"WAVE"`.
pub open spec fn wave_tag() -> [u8; 4] {
    [0x57u8, 0x41u8, 0x56u8, 0x45u8]
}

/// `"fmt "`.
pub open spec fn fmt_tag() -> [u8; 4] {
    [0x66u8, 0x6Du8, 0x74u8, 0x20u8]
}

/// `"data"`.
pub open spec fn data_tag() -> [u8; 4] {
    [0x64u8, 0x61u8, 0x74u8, 0x61u8]
}

/// The sample rate field of the WAV header at the start of `s`.
pub open spec fn stored_wav_rate(s: Seq<u8>) -> u32 {
    le32_at(s, 24)
}

/// The bit depth field of the WAV header at the start of `s`.
pub open spec fn stored_wav_bit_depth(s: Seq<u8>) -> u16 {
    le16_at(s, 34)
}

/// `x` kept to its low 32 bits, as a 32-bit field stores it.
pub open spec fn low32(x: int) -> u32 {
    (x % 0x1_0000_0000) as u32
}

/// The mono, 16-bit PCM header written for an archive entry whose stored
/// (doubled) sample rate is `rate_doubled`, whose frames are `sample_size`
/// bytes, and whose payload is `payload_len` bytes long. Products and sums
/// that exceed 32 bits keep their low 32 bits.
pub open spec fn entry_wav_header(rate_doubled: u32, sample_size: u16, payload_len: u32) -> WavHeader {
    let rate = rate_doubled / 2;
    WavHeader {
        riff_tag: riff_tag(),
        wave_size: low32(WAV_HEADER_SIZE + payload_len - 8),
        wave_tag: wave_tag(),
        fmt_tag: fmt_tag(),
        fmt_chunk_size: 16,
        audio_format: 1,
        num_channels: 1,
        sample_rate: rate as u32,
        byte_rate: low32(rate * sample_size * 1),
        block_align: (sample_size * 1) as u16,
        bit_depth: 16,
        data_tag: data_tag(),
        data_size: payload_len,
    }
}

impl WavHeader {
    /// The header's 44 bytes.
    pub open spec fn spec_bytes(self) -> Seq<u8> {
        self.riff_tag@ + le32_bytes(self.wave_size) + self.wave_tag@ + self.fmt_tag@ + le32_bytes(
            self.fmt_chunk_size,
        ) + le16_bytes(self.audio_format) + le16_bytes(self.num_channels) + le32_bytes(
            self.sample_rate,
        ) + le32_bytes(self.byte_rate) + le16_bytes(self.block_align) + le16_bytes(
            self.bit_depth,
        ) + self.data_tag@ + le32_bytes(self.data_size)
    }

    /// The header is the one stored at the start of `s`.
    pub open spec fn is_stored_in(self, s: Seq<u8>) -> bool {
        &&& self.riff_tag@ == s.subrange(0, 4)
        &&& self.wave_size == le32_at(s, 4)
        &&& self.wave_tag@ == s.subrange(8, 12)
        &&& self.fmt_tag@ == s.subrange(12, 16)
        &&& self.fmt_chunk_size == le32_at(s, 16)
        &&& self.audio_format == le16_at(s, 20)
        &&& self.num_channels == le16_at(s, 22)
        &&& self.sample_rate == stored_wav_rate(s)
        &&& self.byte_rate == le32_at(s, 28)
        &&& self.block_align == le16_at(s, 32)
        &&& self.bit_depth == stored_wav_bit_depth(s)
        &&& self.data_tag@ == s.subrange(36, 40)
        &&& self.data_size == le32_at(s, 40)
    }

    /// Reads the header at the start of `s`; fails when `s` is shorter than
    /// `WAV_HEADER_SIZE`. The tags and sizes are not checked.
    pub fn parse(s: &[u8]) -> (r: Result<WavHeader, PacError>)
        ensures
            WAV_HEADER_SIZE <= s@.len() <==> r is Ok,
            r is Err ==> r == Err::<WavHeader, PacError>(PacError::TruncatedHeader),
            r matches Ok(h) ==> h.is_stored_in(s@),
    {
        if s.len() < WAV_HEADER_SIZE {
            return Err(PacError::TruncatedHeader);
        }
        Ok(
            WavHeader {
                riff_tag: read_tag(s, 0),
                wave_size: read_u32(s, 4),
                wave_tag: read_tag(s, 8),
                fmt_tag: read_tag(s, 12),
                fmt_chunk_size: read_u32(s, 16),
                audio_format: read_u16(s, 20),
                num_channels: read_u16(s, 22),
                sample_rate: read_u32(s, 24),
                byte_rate: read_u32(s, 28),
                block_align: read_u16(s, 32),
                bit_depth: read_u16(s, 34),
                data_tag: read_tag(s, 36),
                data_size: read_u32(s, 40),
            },
        )
    }

    /// The header for an archive entry: mono, 16-bit PCM at half the stored
    /// sample rate, with `payload_len` bytes of data.
    pub fn for_entry(rate_doubled: u32, sample_size: u16, payload_len: u32) -> (r: WavHeader)
        ensures
            r == entry_wav_header(rate_doubled, sample_size, payload_len),
    {
        let num_channels: u16 = 1;
        let sample_rate = rate_doubled / 2;
        let byte_rate = sample_rate.wrapping_mul(sample_size as u32).wrapping_mul(
            num_channels as u32,
        );
        proof {
            assert(((sample_rate * sample_size) % 0x1_0000_0000) * 1 % 0x1_0000_0000 == (
            sample_rate * sample_size * 1) % 0x1_0000_0000);
        }
        let r = WavHeader {
            riff_tag: [0x52u8, 0x49u8, 0x46u8, 0x46u8],
            wave_size: payload_len.wrapping_add((WAV_HEADER_SIZE - 8) as u32),
            wave_tag: [0x57u8, 0x41u8, 0x56u8, 0x45u8],
            fmt_tag: [0x66u8, 0x6Du8, 0x74u8, 0x20u8],
            fmt_chunk_size: 16,
            audio_format: 1,
            num_channels,
            sample_rate,
            byte_rate,
            block_align: sample_size * num_channels,
            bit_depth: 16,
            data_tag: [0x64u8, 0x61u8, 0x74u8, 0x61u8],
            data_size: payload_len,
        };
        r
    }

    /// Appends the header's bytes to `out`.
    pub fn write_to(&self, out: &mut Vec<u8>)
        ensures
            final(out)@ == old(out)@ + self.spec_bytes(),
    {
        push_tag(out, self.riff_tag);
        push_u32(out, self.wave_size);
        push_tag(out, self.wave_tag);
        push_tag(out, self.fmt_tag);
        push_u32(out, self.fmt_chunk_size);
        push_u16(out, self.audio_format);
        push_u16(out, self.num_channels);
        push_u32(out, self.sample_rate);
        push_u32(out, self.byte_rate);
        push_u16(out, self.block_align);
        push_u16(out, self.bit_depth);
        push_tag(out, self.data_tag);
        push_u32(out, self.data_size);
    }
}

} // verus!
