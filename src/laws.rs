//! How the reader and the writer relate.

use vstd::prelude::*;

use crate::align::{lemma_align_up_bounds, lemma_aligned_sum, spec_align_up, ITEM_ALIGN};
use crate::extract::{
    archive_payloads,
    entry_payload,
    entry_step,
    entry_wav,
    extract_from,
    next_entry,
    payload_end,
    spec_extract,
};
use crate::pac_header::{lemma_pac_header_round_trip, payload_gap, stored_magic, stored_rate_doubled, stored_sample_size, stored_payload_size, wav_pac_header, PAC_HEADER_SIZE};
use crate::pack::{lemma_packed_len, lemma_packed_len_nonneg, pac_entry, packed, pad_to_align, spec_pack, wav_payload, wav_payload_len};
use crate::text::is_utf8_text;
use crate::wav_header::{stored_wav_bit_depth, stored_wav_rate, WAV_HEADER_SIZE};

verus! {

/// The audio of each WAV file in `ws`.
pub open spec fn payloads_of(ws: Seq<Seq<u8>>) -> Seq<Seq<u8>> {
    ws.map_values(|w: Seq<u8>| wav_payload(w))
}

/// The WAV files that the reader makes carry the payloads of the archive's
/// entries, one for one.
pub proof fn lemma_extract_payloads(s: Seq<u8>, off: int)
    requires
        0 <= off,
        extract_from(s, off) is Ok,
    ensures
        archive_payloads(s, off) == Some(payloads_of(extract_from(s, off)->Ok_0)),
        forall|i: int|
            0 <= i < extract_from(s, off)->Ok_0.len() ==> WAV_HEADER_SIZE <= #[trigger] extract_from(
                s,
                off,
            )->Ok_0[i].len() <= WAV_HEADER_SIZE + u32::MAX,
    decreases s.len() - off,
{
    reveal(extract_from);
    reveal(entry_step);
    if off < s.len() {
        let w = entry_step(s, off, is_utf8_text(stored_magic(s, off)))->Ok_0;
        let p = entry_payload(s, off);
        assert(wav_payload(w) =~= p);
        assert(w.len() == WAV_HEADER_SIZE + p.len());
        let next = next_entry(s, off);
        lemma_align_up_bounds(payload_end(s, off), ITEM_ALIGN as int);
        if next >= s.len() {
            assert(payloads_of(seq![w]) =~= seq![p]);
        } else {
            lemma_extract_payloads(s, next);
            let rest = extract_from(s, next)->Ok_0;
            assert(payloads_of(seq![w] + rest) =~= seq![p] + payloads_of(rest));
        }
    } else {
        assert(payloads_of(Seq::<Seq<u8>>::empty()) =~= Seq::<Seq<u8>>::empty());
    }
}

/// Padding after an aligned prefix pads only what follows it.
proof fn lemma_pad_shift(x: Seq<u8>, e: Seq<u8>)
    requires
        x.len() as int % (ITEM_ALIGN as int) == 0,
    ensures
        pad_to_align(x + e) == x + pad_to_align(e),
{
    lemma_aligned_sum(x.len() as int, e.len() as int);
    lemma_align_up_bounds(e.len() as int, ITEM_ALIGN as int);
    assert(pad_to_align(x + e) =~= x + pad_to_align(e));
}

/// A padded entry is a whole number of alignment units long.
proof fn lemma_pad_aligned(e: Seq<u8>)
    ensures
        pad_to_align(e).len() as int % (ITEM_ALIGN as int) == 0,
        pad_to_align(e).len() == spec_align_up(e.len() as int, ITEM_ALIGN as int),
{
    lemma_align_up_bounds(e.len() as int, ITEM_ALIGN as int);
}

/// The archive made from `ws` is the first file's padded entry followed by
/// the archive made from the others.
proof fn lemma_packed_cons(ws: Seq<Seq<u8>>)
    requires
        ws.len() > 0,
    ensures
        packed(ws) == pad_to_align(pac_entry(ws[0])) + packed(ws.drop_first()),
    decreases ws.len(),
{
    if ws.len() == 1 {
        assert(ws.drop_last() =~= Seq::<Seq<u8>>::empty());
        assert(ws.drop_first() =~= Seq::<Seq<u8>>::empty());
        assert(Seq::<u8>::empty() + pac_entry(ws.last()) =~= pac_entry(ws[0]));
        assert(pad_to_align(pac_entry(ws[0])) + Seq::<u8>::empty() =~= pad_to_align(pac_entry(ws[0])));
    } else {
        let init = ws.drop_last();
        lemma_packed_cons(init);
        let head = pad_to_align(pac_entry(ws[0]));
        let tail = ws.drop_first();
        assert(init[0] == ws[0]);
        assert(init.drop_first() =~= tail.drop_last());
        assert(tail.last() == ws.last());
        lemma_pad_aligned(pac_entry(ws[0]));
        assert(packed(init) + pac_entry(ws.last()) =~= head + (packed(tail.drop_last()) + pac_entry(
            tail.last(),
        )));
        lemma_pad_shift(head, packed(tail.drop_last()) + pac_entry(tail.last()));
    }
}

/// Reading the layout after an aligned prefix is reading it without the
/// prefix.
proof fn lemma_payloads_shift(x: Seq<u8>, y: Seq<u8>, off: int)
    requires
        x.len() as int % (ITEM_ALIGN as int) == 0,
        0 <= off,
    ensures
        archive_payloads(x + y, x.len() + off) == archive_payloads(y, off),
    decreases y.len() - off,
{
    let s = x + y;
    let at = x.len() + off;
    if off < y.len() && off + PAC_HEADER_SIZE <= y.len() {
        assert(s.subrange(at, at + 32) =~= y.subrange(off, off + 32));
        assert(stored_magic(s, at) =~= stored_magic(y, off));
        assert(stored_payload_size(s, at) == stored_payload_size(y, off)) by {
            assert(s[at + 28] == y[off + 28]);
            assert(s[at + 29] == y[off + 29]);
            assert(s[at + 30] == y[off + 30]);
            assert(s[at + 31] == y[off + 31]);
        }
        assert(payload_end(s, at) == x.len() + payload_end(y, off));
        if payload_end(y, off) <= y.len() {
            assert(entry_payload(s, at) =~= entry_payload(y, off));
            lemma_aligned_sum(x.len() as int, payload_end(y, off));
            lemma_align_up_bounds(payload_end(y, off), ITEM_ALIGN as int);
            assert(next_entry(s, at) == x.len() + next_entry(y, off));
            if next_entry(y, off) < y.len() {
                lemma_payloads_shift(x, y, next_entry(y, off));
            }
        }
    }
}

/// The first entry of an archive made from WAV files is read back where the
/// writer put it, with the first file's audio as payload.
proof fn lemma_first_entry(w: Seq<u8>, rest: Seq<u8>)
    requires
        WAV_HEADER_SIZE <= w.len() <= WAV_HEADER_SIZE + u32::MAX,
    ensures
        ({
            let s = pad_to_align(pac_entry(w)) + rest;
            &&& PAC_HEADER_SIZE <= s.len()
            &&& payload_end(s, 0) <= s.len()
            &&& entry_payload(s, 0) == wav_payload(w)
            &&& next_entry(s, 0) == pad_to_align(pac_entry(w)).len()
        }),
{
    let e = pac_entry(w);
    let head = pad_to_align(e);
    let s = head + rest;
    let h = wav_pac_header(stored_wav_rate(w), stored_wav_bit_depth(w), wav_payload_len(w) as u32);
    assert(h.spec_bytes().len() == 32);
    lemma_pad_aligned(e);
    lemma_align_up_bounds(e.len() as int, ITEM_ALIGN as int);
    assert(s.subrange(0, 32) =~= h.spec_bytes());
    lemma_pac_header_round_trip(h, s, 0);
    assert(stored_magic(s, 0) != crate::pac_header::ju_tag()) by {
        assert(stored_magic(s, 0)[0] == h.magic@[0]);
    }
    assert(payload_end(s, 0) == e.len());
    assert(entry_payload(s, 0) =~= wav_payload(w));
}

/// Reading the layout of the archive made from WAV files gives back their
/// audio, one entry per file.
proof fn lemma_payloads_packed(ws: Seq<Seq<u8>>)
    requires
        forall|i: int|
            0 <= i < ws.len() ==> WAV_HEADER_SIZE <= #[trigger] ws[i].len() <= WAV_HEADER_SIZE + u32::MAX,
    ensures
        archive_payloads(packed(ws), 0) == Some(payloads_of(ws)),
    decreases ws.len(),
{
    if ws.len() == 0 {
        assert(payloads_of(ws) =~= Seq::<Seq<u8>>::empty());
    } else {
        let w = ws[0];
        let tail = ws.drop_first();
        assert forall|i: int| 0 <= i < tail.len() implies WAV_HEADER_SIZE <= #[trigger] tail[i].len()
            <= WAV_HEADER_SIZE + u32::MAX by {
            assert(tail[i] == ws[i + 1]);
        }
        lemma_payloads_packed(tail);
        lemma_packed_cons(ws);
        let rest = packed(tail);
        assert(rest.len() == 0 <==> tail.len() == 0) by {
            lemma_packed_len(tail);
            if tail.len() > 0 {
                lemma_align_up_bounds(PAC_HEADER_SIZE + wav_payload_len(tail.last()), ITEM_ALIGN as int);
                lemma_packed_len_nonneg(tail.drop_last());
            }
        }
        lemma_rest_payloads(w, rest);
        if tail.len() > 0 {
            assert(payloads_of(ws) =~= seq![wav_payload(w)] + payloads_of(tail));
        } else {
            assert(payloads_of(ws) =~= seq![wav_payload(w)]);
        }
    }
}

/// The layout of a padded entry followed by the archive `rest` is the entry's
/// audio followed by the layout of `rest`.
proof fn lemma_rest_payloads(w: Seq<u8>, rest: Seq<u8>)
    requires
        WAV_HEADER_SIZE <= w.len() <= WAV_HEADER_SIZE + u32::MAX,
    ensures
        rest.len() == 0 ==> archive_payloads(pad_to_align(pac_entry(w)) + rest, 0) == Some(
            seq![wav_payload(w)],
        ),
        rest.len() > 0 ==> archive_payloads(pad_to_align(pac_entry(w)) + rest, 0) == match archive_payloads(rest, 0) {
            Some(r) => Some(seq![wav_payload(w)] + r),
            None => None,
        },
{
    let head = pad_to_align(pac_entry(w));
    lemma_first_entry(w, rest);
    lemma_pad_aligned(pac_entry(w));
    lemma_payloads_shift(head, rest, 0);
}

/// Extracting a well-formed archive and packing the WAV files again keeps
/// the payload of every entry: the new archive's entries, read in order,
/// carry exactly the payloads of the first archive's entries. Headers are not
/// kept: the writer sets its own tag and constants.
pub proof fn lemma_payload_round_trip(a: Seq<u8>)
    requires
        spec_extract(a) is Ok,
    ensures
        spec_pack(spec_extract(a)->Ok_0) is Ok,
        archive_payloads(a, 0) is Some,
        archive_payloads(spec_pack(spec_extract(a)->Ok_0)->Ok_0, 0) == archive_payloads(a, 0),
{
    let ws = spec_extract(a)->Ok_0;
    lemma_extract_payloads(a, 0);
    assert(!exists|i: int| 0 <= i < ws.len() && #[trigger] ws[i].len() < WAV_HEADER_SIZE);
    lemma_payloads_packed(ws);
}

/// A non-empty archive shorter than one entry header fails with
/// `TruncatedHeader` and yields no WAV file.
pub proof fn lemma_short_archive(a: Seq<u8>)
    requires
        0 < a.len() < PAC_HEADER_SIZE,
    ensures
        spec_extract(a) == Err::<Seq<Seq<u8>>, crate::PacError>(crate::PacError::TruncatedHeader),
{
    reveal(extract_from);
    reveal(entry_step);
}

/// An archive whose first entry has a text tag but claims more payload than
/// the buffer holds fails with `PayloadOutOfBounds` and yields no WAV file.
pub proof fn lemma_payload_past_end(a: Seq<u8>)
    requires
        PAC_HEADER_SIZE <= a.len(),
        is_utf8_text(stored_magic(a, 0)),
        payload_end(a, 0) > a.len(),
    ensures
        spec_extract(a) == Err::<Seq<Seq<u8>>, crate::PacError>(crate::PacError::PayloadOutOfBounds),
{
    reveal(extract_from);
    reveal(entry_step);
}

/// An archive that holds one entry, with a text tag other than `"JU"` and a
/// payload of `P` bytes, yields exactly one WAV file: `WAV_HEADER_SIZE + P`
/// bytes long, ending with the entry's payload.
pub proof fn lemma_single_entry(a: Seq<u8>)
    requires
        PAC_HEADER_SIZE <= a.len(),
        is_utf8_text(stored_magic(a, 0)),
        payload_gap(stored_magic(a, 0)) == 0,
        payload_end(a, 0) <= a.len(),
        next_entry(a, 0) >= a.len(),
    ensures
        spec_extract(a) is Ok,
        spec_extract(a)->Ok_0.len() == 1,
        spec_extract(a)->Ok_0[0].len() == WAV_HEADER_SIZE + stored_payload_size(a, 0),
        wav_payload(spec_extract(a)->Ok_0[0]) == entry_payload(a, 0),
        entry_payload(a, 0).len() == stored_payload_size(a, 0),
{
    reveal(extract_from);
    reveal(entry_step);
    let w = entry_wav(stored_rate_doubled(a, 0), stored_sample_size(a, 0), entry_payload(a, 0));
    assert(wav_payload(w) =~= entry_payload(a, 0));
}

} // verus!
