//! The archive reader: one WAV file for every archive entry.

use vstd::prelude::*;

use crate::align::{align_up, lemma_align_up_bounds, lemma_align_up_past_usize, spec_align_up, ITEM_ALIGN};
use crate::bytes::{push_range, read_tag};
use crate::pac_header::{
    payload_gap,
    stored_magic,
    stored_payload_size,
    stored_rate_doubled,
    stored_sample_size,
    PacItemHeader,
    PAC_HEADER_SIZE,
};
use crate::text::{is_utf8_text, tag_is_text};
use crate::wav_header::{entry_wav_header, WavHeader};
use crate::PacError;

verus! {

/// The WAV file made from an entry: its header, then the payload unchanged.
pub open spec fn entry_wav(rate_doubled: u32, sample_size: u16, payload: Seq<u8>) -> Seq<u8> {
    entry_wav_header(rate_doubled, sample_size, payload.len() as u32).spec_bytes() + payload
}

/// Where the payload of the entry whose header is at `off` begins.
pub open spec fn payload_start(s: Seq<u8>, off: int) -> int {
    off + PAC_HEADER_SIZE + payload_gap(stored_magic(s, off))
}

/// Where the payload of the entry whose header is at `off` ends.
pub open spec fn payload_end(s: Seq<u8>, off: int) -> int {
    payload_start(s, off) + stored_payload_size(s, off)
}

/// The payload of the entry whose header is at `off`.
pub open spec fn entry_payload(s: Seq<u8>, off: int) -> Seq<u8> {
    s.subrange(payload_start(s, off), payload_end(s, off))
}

/// Reading the entry whose header is at `off`, given whether its tag is text:
/// the entry's WAV file, or why the entry is malformed.
#[verifier::opaque]
pub open spec fn entry_step(s: Seq<u8>, off: int, tag_text: bool) -> Result<Seq<u8>, PacError> {
    if off + PAC_HEADER_SIZE > s.len() {
        Err(PacError::TruncatedHeader)
    } else if !tag_text {
        Err(PacError::InvalidTag)
    } else if payload_end(s, off) > s.len() {
        Err(PacError::PayloadOutOfBounds)
    } else {
        Ok(entry_wav(stored_rate_doubled(s, off), stored_sample_size(s, off), entry_payload(s, off)))
    }
}

/// Where the entry after the one whose header is at `off` begins: the end of
/// its payload rounded up to `ITEM_ALIGN`.
pub open spec fn next_entry(s: Seq<u8>, off: int) -> int {
    spec_align_up(payload_end(s, off), ITEM_ALIGN as int)
}

/// The WAV files of the entries from `off` on, in order, or the first
/// failure. The walk ends where an entry would start at or past the end.
#[verifier::opaque]
pub open spec fn extract_from(s: Seq<u8>, off: int) -> Result<Seq<Seq<u8>>, PacError>
    decreases s.len() - off,
    when 0 <= off
{
    if off >= s.len() {
        Ok(seq![])
    } else {
        match entry_step(s, off, is_utf8_text(stored_magic(s, off))) {
            Err(e) => Err(e),
            Ok(w) => {
                let next = next_entry(s, off);
                if next >= s.len() {
                    Ok(seq![w])
                } else {
                    match extract_from(s, next) {
                        Ok(rest) => Ok(seq![w] + rest),
                        Err(e) => Err(e),
                    }
                }
            },
        }
    }
}

/// The payloads of the entries from `off` on, in order, found by the same
/// walk as `extract_from` but without looking at tags; `None` when a header
/// or a payload does not fit.
pub open spec fn archive_payloads(s: Seq<u8>, off: int) -> Option<Seq<Seq<u8>>>
    decreases s.len() - off,
    when 0 <= off
{
    if off >= s.len() {
        Some(seq![])
    } else if off + PAC_HEADER_SIZE > s.len() || payload_end(s, off) > s.len() {
        None
    } else {
        let next = next_entry(s, off);
        if next >= s.len() {
            Some(seq![entry_payload(s, off)])
        } else {
            match archive_payloads(s, next) {
                Some(rest) => Some(seq![entry_payload(s, off)] + rest),
                None => None,
            }
        }
    }
}

/// The WAV files of every entry of the archive `s`, or the first failure.
pub open spec fn spec_extract(s: Seq<u8>) -> Result<Seq<Seq<u8>>, PacError> {
    extract_from(s, 0)
}

/// Whatever the tag of a header that does not fit, reading it fails the same
/// way.
proof fn lemma_step_tag(s: Seq<u8>, off: int, tag_text: bool)
    requires
        0 <= off < s.len(),
        off + PAC_HEADER_SIZE <= s.len() ==> tag_text == is_utf8_text(stored_magic(s, off)),
    ensures
        entry_step(s, off, tag_text) == entry_step(s, off, is_utf8_text(stored_magic(s, off))),
{
    reveal(entry_step);
}

/// A malformed entry fails the walk from its offset.
proof fn lemma_extract_fails(s: Seq<u8>, off: int)
    requires
        0 <= off < s.len(),
        entry_step(s, off, is_utf8_text(stored_magic(s, off))) is Err,
    ensures
        extract_from(s, off) == Err::<Seq<Seq<u8>>, PacError>(
            entry_step(s, off, is_utf8_text(stored_magic(s, off)))->Err_0,
        ),
{
    reveal(extract_from);
}

/// A well-formed entry contributes its WAV file, and the walk goes on at the
/// next entry.
proof fn lemma_extract_entry(s: Seq<u8>, off: int, w: Seq<u8>)
    requires
        0 <= off < s.len(),
        entry_step(s, off, is_utf8_text(stored_magic(s, off))) == Ok::<Seq<u8>, PacError>(w),
    ensures
        next_entry(s, off) > off,
        extract_from(s, off) == prepend(seq![w], extract_from(s, next_entry(s, off))),
{
    reveal(extract_from);
    reveal(entry_step);
    lemma_align_up_bounds(payload_end(s, off), ITEM_ALIGN as int);
    if next_entry(s, off) >= s.len() {
        assert(seq![w] + Seq::<Seq<u8>>::empty() =~= seq![w]);
    }
}

/// The contents of each buffer in `v`.
pub open spec fn views(v: Seq<Vec<u8>>) -> Seq<Seq<u8>> {
    v.map_values(|b: Vec<u8>| b@)
}

/// `done` followed by what `rest` holds, or the failure of `rest`.
pub open spec fn prepend(done: Seq<Seq<u8>>, rest: Result<Seq<Seq<u8>>, PacError>) -> Result<
    Seq<Seq<u8>>,
    PacError,
> {
    match rest {
        Ok(r) => Ok(done + r),
        Err(e) => Err(e),
    }
}

/// Reads the entry whose header is at `offset`, given whether its tag is
/// text, and returns its WAV file with the offset where its payload ends.
pub fn read_entry(archive: &[u8], offset: usize, tag_text: bool) -> (r: Result<
    (Vec<u8>, usize),
    PacError,
>)
    ensures
        match r {
            Ok((w, end)) => {
                &&& entry_step(archive@, offset as int, tag_text) == Ok::<Seq<u8>, PacError>(w@)
                &&& end == payload_end(archive@, offset as int)
            },
            Err(e) => entry_step(archive@, offset as int, tag_text) == Err::<Seq<u8>, PacError>(e),
        },
{
    reveal(entry_step);
    let h = match PacItemHeader::parse(archive, offset) {
        Ok(h) => h,
        Err(e) => return Err(e),
    };
    if !tag_text {
        return Err(PacError::InvalidTag);
    }
    let is_ju = h.magic[0] == 0x4A && h.magic[1] == 0x55 && h.magic[2] == 0 && h.magic[3] == 0;
    proof {
        assert(is_ju <==> h.magic@ == crate::pac_header::ju_tag()) by {
            if h.magic@ == crate::pac_header::ju_tag() {
                assert(h.magic@[0] == 0x4Au8);
            }
            if is_ju {
                assert(h.magic@ =~= crate::pac_header::ju_tag());
            }
        }
    }
    let gap: usize = if is_ju {
        2
    } else {
        0
    };
    let remaining = archive.len() - offset - PAC_HEADER_SIZE;
    let size = h.payload_size as usize;
    if remaining < gap || remaining - gap < size {
        return Err(PacError::PayloadOutOfBounds);
    }
    let start = offset + PAC_HEADER_SIZE + gap;
    let end = start + size;
    let mut w: Vec<u8> = Vec::new();
    let wh = WavHeader::for_entry(h.sample_rate_doubled, h.sample_size, h.payload_size);
    wh.write_to(&mut w);
    push_range(&mut w, archive, start, end);
    assert(w@ =~= entry_wav(h.sample_rate_doubled, h.sample_size, entry_payload(archive@, offset as int)));
    Ok((w, end))
}

/// Splits the archive `archive` into the WAV files of its entries, in the
/// order in which they appear. The first malformed entry ends the walk with
/// its error, and then no WAV file is returned at all.
pub fn extract_pac(archive: &[u8]) -> (r: Result<Vec<Vec<u8>>, PacError>)
    ensures
        match r {
            Ok(ws) => spec_extract(archive@) == Ok::<Seq<Seq<u8>>, PacError>(views(ws@)),
            Err(e) => spec_extract(archive@) == Err::<Seq<Seq<u8>>, PacError>(e),
        },
{
    let mut out: Vec<Vec<u8>> = Vec::new();
    let mut offset: usize = 0;
    while offset < archive.len()
        invariant
            spec_extract(archive@) == prepend(views(out@), extract_from(archive@, offset as int)),
        decreases archive.len() - offset,
    {
        // The tag sits 16 bytes into the header; a header that does not fit
        // fails before its tag matters.
        let tag_text = if archive.len() - offset >= PAC_HEADER_SIZE {
            tag_is_text(&read_tag(archive, offset + 16))
        } else {
            true
        };
        proof {
            lemma_step_tag(archive@, offset as int, tag_text);
        }
        let (w, end) = match read_entry(archive, offset, tag_text) {
            Ok(p) => p,
            Err(e) => {
                proof {
                    lemma_extract_fails(archive@, offset as int);
                }
                return Err(e);
            },
        };
        proof {
            lemma_extract_entry(archive@, offset as int, w@);
        }
        let ghost done = views(out@);
        out.push(w);
        assert(views(out@) =~= done.push(w@));
        let ghost before = offset;
        let next: usize = if end <= usize::MAX - (ITEM_ALIGN - 1) {
            align_up(end, ITEM_ALIGN)
        } else {
            proof {
                lemma_align_up_past_usize(end as int);
            }
            archive.len()
        };
        offset = if next < archive.len() {
            next
        } else {
            archive.len()
        };
        proof {
            reveal(extract_from);
            assert(offset > before);
            let rest = extract_from(archive@, offset as int);
            if rest is Ok {
                assert(done + (seq![w@] + rest->Ok_0) =~= done.push(w@) + rest->Ok_0);
            }
        }
    }
    proof {
        reveal(extract_from);
        assert(views(out@) + Seq::<Seq<u8>>::empty() =~= views(out@));
    }
    Ok(out)
}

} // verus!
