//! Conversion between PAC sound archives and canonical PCM WAV files.
//!
//! A PAC archive is a flat run of entries. Each entry is a fixed 32-byte
//! header, an optional 2-byte gap (entries tagged `"JU"`), the audio payload,
//! and zero filler up to the next 32-byte boundary. The reader turns every
//! entry into a WAV file; the writer turns WAV files back into one archive.
//! Payload bytes are copied verbatim in both directions.

use vstd::prelude::*;

pub mod align;
pub mod bytes;
pub mod pac_header;
pub mod wav_header;
pub mod text;
pub mod extract;
pub mod pack;
pub mod laws;

verus! {

/// Why reading an archive or a WAV file failed. Every failure ends the whole
/// operation.
#[derive(Debug, Clone, Copy, PartialEq, Eq, Structural)]
pub enum PacError {
    /// Fewer bytes remain than a fixed header needs.
    TruncatedHeader,
    /// An entry's 4-byte tag is not valid UTF-8 text.
    InvalidTag,
    /// An entry's payload size reaches past the end of the archive.
    PayloadOutOfBounds,
}

} // verus!
