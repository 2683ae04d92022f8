//! Whether an entry's tag is text.

use vstd::prelude::*;

verus! {

/// Whether `b` is well-formed UTF-8.
pub uninterp spec fn is_utf8_text(b: Seq<u8>) -> bool;

/// Relies on `std::str::from_utf8`: it succeeds exactly on well-formed UTF-8,
/// and ASCII (every byte below 0x80) is well-formed UTF-8.
#[verifier::external_body]
pub(crate) fn tag_is_text(tag: &[u8; 4]) -> (r: bool)
    ensures
        r == is_utf8_text(tag@),
        (forall|i: int| 0 <= i < tag@.len() ==> tag@[i] < 0x80u8) ==> r,
{
    std::str::from_utf8(tag).is_ok()
}

} // verus!
