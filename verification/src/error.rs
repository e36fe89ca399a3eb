use vstd::prelude::*;

verus! {

/// Everything that can go wrong while reading or editing a PNG container.
///
/// Each variant carries the values a caller needs to explain the failure.
#[derive(Debug, Clone, Copy, PartialEq, Eq, Structural)]
pub enum PngError {
    /// A chunk type code held a byte that is not an ASCII letter.
    InvalidTypeCode,
    /// A chunk type string was not exactly four bytes long.
    InvalidLength { actual: usize },
    /// A chunk buffer was shorter than the twelve bytes of an empty chunk.
    TooShort { actual: usize },
    /// A chunk buffer's size disagrees with its length field.
    LengthMismatch { expected: u64, actual: usize },
    /// The stored checksum differs from the one computed over type and data.
    CrcMismatch { computed: u32, stored: u32 },
    /// Chunk data was asked for as text but is not valid UTF-8.
    InvalidUtf8,
    /// The buffer does not start with the eight PNG signature bytes.
    InvalidSignature,
    /// An insertion position lies beyond the end of the chunk sequence.
    IndexOutOfBounds { index: usize, len: usize },
    /// No chunk of the requested type is present.
    ChunkNotFound,
}

} // verus!
