//! Byte-buffer helpers: little-endian integers, 4-byte tags, copied ranges.

use vstd::prelude::*;

verus! {

/// The two bytes that store `x`, low byte first.
pub open spec fn le16_bytes(x: u16) -> Seq<u8> {
    seq![(x % 256) as u8, (x / 256) as u8]
}

/// The four bytes that store `x`, low byte first.
pub open spec fn le32_bytes(x: u32) -> Seq<u8> {
    seq![
        (x % 256) as u8,
        ((x / 256) % 256) as u8,
        ((x / 65536) % 256) as u8,
        (x / 16777216) as u8,
    ]
}

/// The 16-bit value stored at `at` in `s`.
pub open spec fn le16_at(s: Seq<u8>, at: int) -> u16 {
    (s[at] + 256 * s[at + 1]) as u16
}

/// The 32-bit value stored at `at` in `s`.
pub open spec fn le32_at(s: Seq<u8>, at: int) -> u32 {
    (s[at] + 256 * s[at + 1] + 65536 * s[at + 2] + 16777216 * s[at + 3]) as u32
}

/// Reading back the bytes that store a value gives that value.
pub proof fn lemma_le16_round_trip(x: u16)
    ensures
        le16_at(le16_bytes(x), 0) == x,
{
}

/// Reading back the bytes that store a value gives that value.
pub proof fn lemma_le32_round_trip(x: u32)
    ensures
        le32_at(le32_bytes(x), 0) == x,
{
    let s = le32_bytes(x);
    assert(s[0] + 256 * s[1] + 65536 * s[2] + 16777216 * s[3] == x);
}

/// Reads the 16-bit value stored at `at`.
pub fn read_u16(s: &[u8], at: usize) -> (r: u16)
    requires
        at + 2 <= s@.len(),
    ensures
        r == le16_at(s@, at as int),
{
    s[at] as u16 + 256 * (s[at + 1] as u16)
}

/// Reads the 32-bit value stored at `at`.
pub fn read_u32(s: &[u8], at: usize) -> (r: u32)
    requires
        at + 4 <= s@.len(),
    ensures
        r == le32_at(s@, at as int),
{
    s[at] as u32 + 256 * (s[at + 1] as u32) + 65536 * (s[at + 2] as u32) + 16777216 * (
    s[at + 3] as u32)
}

/// Appends the two bytes that store `x`.
pub fn push_u16(out: &mut Vec<u8>, x: u16)
    ensures
        final(out)@ == old(out)@ + le16_bytes(x),
{
    out.push((x % 256) as u8);
    out.push((x / 256) as u8);
}

/// Appends the four bytes that store `x`.
pub fn push_u32(out: &mut Vec<u8>, x: u32)
    ensures
        final(out)@ == old(out)@ + le32_bytes(x),
{
    out.push((x % 256) as u8);
    out.push(((x / 256) % 256) as u8);
    out.push(((x / 65536) % 256) as u8);
    out.push((x / 16777216) as u8);
}

/// Appends the bytes of `tag`.
pub fn push_tag(out: &mut Vec<u8>, tag: [u8; 4])
    ensures
        final(out)@ == old(out)@ + tag@,
{
    out.push(tag[0]);
    out.push(tag[1]);
    out.push(tag[2]);
    out.push(tag[3]);
}

/// Reads the four bytes at `at` as a tag.
pub fn read_tag(s: &[u8], at: usize) -> (r: [u8; 4])
    requires
        at + 4 <= s@.len(),
    ensures
        r@ == s@.subrange(at as int, at + 4),
{
    let r = [s[at], s[at + 1], s[at + 2], s[at + 3]];
    r
}

/// Appends `s[start..end]` to `out`.
pub fn push_range(out: &mut Vec<u8>, s: &[u8], start: usize, end: usize)
    requires
        start <= end <= s@.len(),
    ensures
        final(out)@ == old(out)@ + s@.subrange(start as int, end as int),
{
    let ghost before = out@;
    let mut i: usize = start;
    while i < end
        invariant
            start <= i <= end <= s@.len(),
            out@ == before + s@.subrange(start as int, i as int),
        decreases end - i,
    {
        out.push(s[i]);
        i = i + 1;
        assert(out@ =~= before + s@.subrange(start as int, i as int));
    }
}

} // verus!
