use vstd::prelude::*;

verus! {

/// The ways in which parsing, lookup and decoding can fail.
#[derive(Debug, Clone, Copy, PartialEq, Eq, Structural)]
pub enum PngError {
    /// A chunk type string is not exactly four ASCII letters.
    InvalidFormat,
    /// The buffer ends before a field or a declared chunk length is complete.
    Truncated,
    /// The first eight bytes are not the PNG signature.
    InvalidSignature,
    /// The stored checksum of a chunk disagrees with the one recomputed.
    CrcMismatch,
    /// No chunk of the requested type exists.
    ChunkNotFound,
    /// A chunk's data was asked for as text and is not UTF-8.
    InvalidUtf8,
}

} // verus!
