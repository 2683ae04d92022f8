//! The archive writer: one archive entry for every WAV file.

use vstd::prelude::*;

use crate::align::{align_up, lemma_align_up_bounds, lemma_aligned_sum, lemma_align_up_past_usize, spec_align_up, ITEM_ALIGN};
use crate::bytes::push_range;
use crate::extract::views;
use crate::pac_header::{wav_pac_header, PacItemHeader, PAC_HEADER_SIZE};
use crate::wav_header::{stored_wav_bit_depth, stored_wav_rate, WavHeader, WAV_HEADER_SIZE};
use crate::PacError;

verus! {

/// The audio of a WAV file: everything after its header.
pub open spec fn wav_payload(w: Seq<u8>) -> Seq<u8> {
    w.subrange(WAV_HEADER_SIZE as int, w.len() as int)
}

/// Length of the audio of a WAV file (none when the header does not fit).
pub open spec fn wav_payload_len(w: Seq<u8>) -> int {
    if w.len() >= WAV_HEADER_SIZE {
        w.len() - WAV_HEADER_SIZE
    } else {
        0
    }
}

/// The archive entry made from the WAV file `w`, without its filler: the
/// header that `wav_pac_header` gives, then the audio unchanged.
pub open spec fn pac_entry(w: Seq<u8>) -> Seq<u8> {
    wav_pac_header(stored_wav_rate(w), stored_wav_bit_depth(w), wav_payload_len(w) as u32).spec_bytes()
        + wav_payload(w)
}

/// `n` zero bytes.
pub open spec fn zeros(n: int) -> Seq<u8> {
    Seq::new(n as nat, |i: int| 0u8)
}

/// `s` followed by zero bytes up to the next multiple of `ITEM_ALIGN`.
pub open spec fn pad_to_align(s: Seq<u8>) -> Seq<u8> {
    s + zeros(spec_align_up(s.len() as int, ITEM_ALIGN as int) - s.len())
}

/// The archive made from the WAV files `ws`, in order: after each entry,
/// zero filler up to the next multiple of `ITEM_ALIGN`.
pub open spec fn packed(ws: Seq<Seq<u8>>) -> Seq<u8>
    decreases ws.len(),
{
    if ws.len() == 0 {
        seq![]
    } else {
        pad_to_align(packed(ws.drop_last()) + pac_entry(ws.last()))
    }
}

/// Packing fails exactly when some file is shorter than a WAV header.
pub open spec fn spec_pack(ws: Seq<Seq<u8>>) -> Result<Seq<u8>, PacError> {
    if exists|i: int| 0 <= i < ws.len() && #[trigger] ws[i].len() < WAV_HEADER_SIZE {
        Err(PacError::TruncatedHeader)
    } else {
        Ok(packed(ws))
    }
}

/// Bytes that the entry for `w` takes in the archive, filler included.
pub open spec fn entry_span(w: Seq<u8>) -> int {
    spec_align_up(PAC_HEADER_SIZE + wav_payload_len(w), ITEM_ALIGN as int)
}

/// The length of the archive made from `ws`: the sum of their entry spans.
pub open spec fn packed_len(ws: Seq<Seq<u8>>) -> int
    decreases ws.len(),
{
    if ws.len() == 0 {
        0
    } else {
        packed_len(ws.drop_last()) + entry_span(ws.last())
    }
}

/// The WAV files `ws` fit an archive held in memory: each one's audio length
/// fits the 32-bit size field, and the archive's length fits `usize`.
pub open spec fn packable(ws: Seq<Seq<u8>>) -> bool {
    &&& forall|i: int| 0 <= i < ws.len() ==> #[trigger] ws[i].len() <= WAV_HEADER_SIZE + u32::MAX
    &&& packed_len(ws) <= usize::MAX
}

/// The archive made from WAV files whose headers all fit is exactly
/// `packed_len` bytes long, which is a multiple of `ITEM_ALIGN`.
pub proof fn lemma_packed_len(ws: Seq<Seq<u8>>)
    requires
        forall|i: int| 0 <= i < ws.len() ==> #[trigger] ws[i].len() >= WAV_HEADER_SIZE,
    ensures
        packed(ws).len() == packed_len(ws),
        packed_len(ws) % (ITEM_ALIGN as int) == 0,
    decreases ws.len(),
{
    if ws.len() > 0 {
        let init = ws.drop_last();
        assert forall|i: int| 0 <= i < init.len() implies #[trigger] init[i].len() >= WAV_HEADER_SIZE by {
            assert(init[i] == ws[i]);
        }
        lemma_packed_len(init);
        let w = ws.last();
        assert(ws[ws.len() - 1] == w);
        let body = packed(init) + pac_entry(w);
        assert(pac_entry(w).len() == PAC_HEADER_SIZE + wav_payload_len(w));
        lemma_aligned_sum(packed_len(init), PAC_HEADER_SIZE + wav_payload_len(w));
        lemma_align_up_bounds(body.len() as int, ITEM_ALIGN as int);
    }
}

/// No archive has a negative length.
pub proof fn lemma_packed_len_nonneg(ws: Seq<Seq<u8>>)
    ensures
        packed_len(ws) >= 0,
    decreases ws.len(),
{
    if ws.len() > 0 {
        lemma_packed_len_nonneg(ws.drop_last());
        lemma_align_up_bounds(PAC_HEADER_SIZE + wav_payload_len(ws.last()), ITEM_ALIGN as int);
    }
}

/// No prefix of `ws` packs longer than `ws` itself.
proof fn lemma_packed_len_prefix(ws: Seq<Seq<u8>>, k: int)
    requires
        0 <= k <= ws.len(),
    ensures
        packed_len(ws.take(k)) <= packed_len(ws),
    decreases ws.len(),
{
    if k < ws.len() {
        let init = ws.drop_last();
        assert(init.take(k) =~= ws.take(k));
        lemma_packed_len_prefix(init, k);
        lemma_align_up_bounds(PAC_HEADER_SIZE + wav_payload_len(ws.last()), ITEM_ALIGN as int);
    } else {
        assert(ws.take(k) =~= ws);
    }
}

/// Joins the WAV files `wavs` into one archive, in order. Fails when one of
/// them is shorter than a WAV header.
pub fn create_pac(wavs: &[Vec<u8>]) -> (r: Result<Vec<u8>, PacError>)
    requires
        packable(views(wavs@)),
    ensures
        match r {
            Ok(a) => spec_pack(views(wavs@)) == Ok::<Seq<u8>, PacError>(a@),
            Err(e) => spec_pack(views(wavs@)) == Err::<Seq<u8>, PacError>(e),
        },
{
    let ghost ws = views(wavs@);
    let mut out: Vec<u8> = Vec::new();
    let mut i: usize = 0;
    while i < wavs.len()
        invariant
            i <= wavs@.len(),
            ws == views(wavs@),
            packable(ws),
            forall|j: int| 0 <= j < i ==> #[trigger] ws[j].len() >= WAV_HEADER_SIZE,
            out@ == packed(ws.take(i as int)),
            out@.len() == packed_len(ws.take(i as int)),
            out@.len() as int % (ITEM_ALIGN as int) == 0,
        decreases wavs.len() - i,
    {
        let w = &wavs[i];
        assert(ws[i as int] == w@);
        let wh = match WavHeader::parse(w.as_slice()) {
            Ok(h) => h,
            Err(e) => {
                assert(ws[i as int].len() < WAV_HEADER_SIZE);
                return Err(e);
            },
        };
        let ghost prev = out@;
        let payload_size = (w.len() - WAV_HEADER_SIZE) as u32;
        let ph = PacItemHeader::for_wav(&wh, payload_size);
        let ghost taken = ws.take(i as int + 1);
        proof {
            assert(taken.drop_last() =~= ws.take(i as int));
            assert(taken.last() == w@);
            lemma_packed_len_prefix(ws, i as int + 1);
            lemma_aligned_sum(prev.len() as int, PAC_HEADER_SIZE + wav_payload_len(w@));
            lemma_align_up_bounds(PAC_HEADER_SIZE + wav_payload_len(w@), ITEM_ALIGN as int);
        }
        ph.write_to(&mut out);
        push_range(&mut out, w.as_slice(), WAV_HEADER_SIZE, w.len());
        assert(out@ == prev + pac_entry(w@));
        let body_len = out.len();
        proof {
            if body_len > usize::MAX - (ITEM_ALIGN - 1) {
                lemma_align_up_past_usize(body_len as int);
            }
        }
        let padded = align_up(body_len, ITEM_ALIGN);
        while out.len() < padded
            invariant
                body_len <= out@.len() <= padded,
                out@ == prev + pac_entry(w@) + zeros(out@.len() - body_len),
            decreases padded - out.len(),
        {
            out.push(0u8);
            assert(out@ =~= prev + pac_entry(w@) + zeros(out@.len() - body_len));
        }
        assert(out@ == packed(taken));
        i = i + 1;
        proof {
            assert forall|j: int| 0 <= j < i implies #[trigger] ws[j].len() >= WAV_HEADER_SIZE by {
                if j == i - 1 {
                    assert(ws[j] == w@);
                }
            }
        }
    }
    proof {
        assert(ws.take(i as int) =~= ws);
        assert(!exists|j: int| 0 <= j < ws.len() && #[trigger] ws[j].len() < WAV_HEADER_SIZE);
    }
    Ok(out)
}

/// The length of the archive that `create_pac` makes from `wavs`, or `None`
/// when the files do not fit one (`packable`).
pub fn packed_size(wavs: &[Vec<u8>]) -> (r: Option<usize>)
    ensures
        r is Some <==> packable(views(wavs@)),
        r matches Some(n) ==> n == packed_len(views(wavs@)),
{
    let ghost ws = views(wavs@);
    let mut total: usize = 0;
    let mut i: usize = 0;
    while i < wavs.len()
        invariant
            i <= wavs@.len(),
            ws == views(wavs@),
            forall|j: int| 0 <= j < i ==> #[trigger] ws[j].len() <= WAV_HEADER_SIZE + u32::MAX,
            total == packed_len(ws.take(i as int)),
        decreases wavs.len() - i,
    {
        let len = wavs[i].len();
        assert(ws[i as int].len() == len);
        let ghost taken = ws.take(i as int + 1);
        proof {
            assert(taken.drop_last() =~= ws.take(i as int));
            assert(taken.last() == ws[i as int]);
        }
        if len >= WAV_HEADER_SIZE && len - WAV_HEADER_SIZE > u32::MAX as usize {
            return None;
        }
        let payload = if len >= WAV_HEADER_SIZE {
            len - WAV_HEADER_SIZE
        } else {
            0
        };
        if payload > usize::MAX - PAC_HEADER_SIZE - (ITEM_ALIGN - 1) {
            proof {
                lemma_align_up_past_usize(PAC_HEADER_SIZE + payload);
                lemma_packed_len_prefix(ws, i as int + 1);
                lemma_packed_len_nonneg(ws.take(i as int));
            }
            return None;
        }
        let span = align_up(PAC_HEADER_SIZE + payload, ITEM_ALIGN);
        if total > usize::MAX - span {
            proof {
                lemma_packed_len_prefix(ws, i as int + 1);
            }
            return None;
        }
        total = total + span;
        i = i + 1;
    }
    proof {
        assert(ws.take(i as int) =~= ws);
    }
    Some(total)
}

} // verus!
