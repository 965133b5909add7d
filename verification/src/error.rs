//! The error taxonomy of the codec.
//!
//! Every parsing or validation failure is returned to the immediate caller
//! as a specific, inspectable error kind; nothing is silently repaired.

use vstd::prelude::*;

verus! {

/// Why a codec operation failed.
#[derive(Clone, Copy, Debug, PartialEq, Eq, Structural)]
pub enum PngError {
    /// A type code was not four ASCII letters.
    InvalidTypeCode,
    /// A chunk's byte slice was too short or internally inconsistent.
    MalformedChunk,
    /// A chunk's stored CRC-32 did not match the recomputed checksum.
    ChecksumMismatch,
    /// A byte stream did not begin with the fixed 8-byte signature.
    BadSignature,
    /// No chunk with the requested type code was present.
    ChunkNotFound,
    /// A payload was not valid UTF-8 when text was requested.
    InvalidEncoding,
}

impl PngError {
    /// A short human-readable name for the error kind.
    pub fn describe(&self) -> (r: &'static str)
        ensures
            r@.len() > 0,
    {
        let r = match self {
            PngError::InvalidTypeCode => "invalid chunk type code",
            PngError::MalformedChunk => "malformed chunk",
            PngError::ChecksumMismatch => "chunk checksum mismatch",
            PngError::BadSignature => "bad container signature",
            PngError::ChunkNotFound => "chunk not found",
            PngError::InvalidEncoding => "payload is not valid UTF-8",
        };
        proof {
            reveal_strlit("invalid chunk type code");
            reveal_strlit("malformed chunk");
            reveal_strlit("chunk checksum mismatch");
            reveal_strlit("bad container signature");
            reveal_strlit("chunk not found");
            reveal_strlit("payload is not valid UTF-8");
        }
        r
    }
}

} // verus!
