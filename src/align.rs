//! The alignment rule shared by the archive reader and writer.

use vstd::prelude::*;

verus! {

/// Entries of an archive start on multiples of this many bytes.
pub const ITEM_ALIGN: usize = 32;

/// The least multiple of `to` that is at least `n`.
pub open spec fn spec_align_up(n: int, to: int) -> int {
    (n + to - 1) / to * to
}

/// Rounds `n` up to the next multiple of `to`.
pub fn align_up(n: usize, to: usize) -> (r: usize)
    requires
        to > 0,
        n + to - 1 <= usize::MAX,
    ensures
        r == spec_align_up(n as int, to as int),
        r >= n,
        r % to == 0,
        r < n + to,
{
    let q = (n + (to - 1)) / to;
    proof {
        lemma_align_up_bounds(n as int, to as int);
    }
    q * to
}

/// `spec_align_up(n, to)` is a multiple of `to`, at least `n`, and less than
/// `n + to`.
pub proof fn lemma_align_up_bounds(n: int, to: int)
    requires
        n >= 0,
        to > 0,
    ensures
        spec_align_up(n, to) >= n,
        spec_align_up(n, to) < n + to,
        spec_align_up(n, to) % to == 0,
{
    let q = (n + to - 1) / to;
    let r = (n + to - 1) % to;
    assert(n + to - 1 == q * to + r && 0 <= r < to) by (nonlinear_arith)
        requires
            q == (n + to - 1) / to,
            r == (n + to - 1) % to,
            to > 0,
    ;
    assert((q * to) % to == 0) by (nonlinear_arith)
        requires
            to > 0,
    ;
}

/// Aligning an already aligned value changes nothing; the aligned value is
/// never below the input and is always a multiple of the boundary.
pub proof fn lemma_align_up_idempotent(n: int, to: int)
    requires
        n >= 0,
        to > 0,
    ensures
        spec_align_up(spec_align_up(n, to), to) == spec_align_up(n, to),
        spec_align_up(n, to) >= n,
        spec_align_up(n, to) % to == 0,
{
    lemma_align_up_bounds(n, to);
    let a = spec_align_up(n, to);
    lemma_align_up_bounds(a, to);
    lemma_aligned_fixed(a, to);
}

/// A multiple of `to` is its own alignment.
pub proof fn lemma_aligned_fixed(a: int, to: int)
    requires
        a >= 0,
        to > 0,
        a % to == 0,
    ensures
        spec_align_up(a, to) == a,
{
    let k = a / to;
    assert(a == k * to) by (nonlinear_arith)
        requires
            a % to == 0,
            k == a / to,
            to > 0,
    ;
    assert((k * to + to - 1) / to == k) by (nonlinear_arith)
        requires
            to > 0,
            k >= 0,
    ;
}

/// Aligning a value within `ITEM_ALIGN - 1` of `usize::MAX` gives a value
/// past `usize::MAX`: `usize::MAX + 1` is itself a multiple of `ITEM_ALIGN`.
pub proof fn lemma_align_up_past_usize(n: int)
    requires
        usize::MAX - (ITEM_ALIGN - 1) < n <= usize::MAX,
    ensures
        spec_align_up(n, ITEM_ALIGN as int) > usize::MAX,
{
    lemma_align_up_bounds(n, ITEM_ALIGN as int);
    let a = spec_align_up(n, ITEM_ALIGN as int);
    assert(usize::MAX == 0xffff_ffff || usize::MAX == 0xffff_ffff_ffff_ffff);
    assert((usize::MAX + 1) % 32 == 0);
}

/// Adding an aligned length commutes with alignment.
pub proof fn lemma_aligned_sum(a: int, k: int)
    requires
        a >= 0,
        k >= 0,
        a % (ITEM_ALIGN as int) == 0,
    ensures
        spec_align_up(a + k, ITEM_ALIGN as int) == a + spec_align_up(k, ITEM_ALIGN as int),
{
    let q = a / 32;
    assert(a == q * 32);
    assert((q * 32 + k + 31) / 32 == q + (k + 31) / 32);
}

} // verus!
