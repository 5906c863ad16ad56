//! Failure conditions of the decoder.

use vstd::prelude::*;

verus! {

/// Everything that can go wrong while decoding a multipart body.
///
/// The first two arise at construction, before any byte is parsed; the
/// third ends the current stream for good.
#[derive(Clone, Copy, Debug, PartialEq, Eq, Structural)]
pub enum MultipartError {
    /// The declared content type does not begin with `multipart/`.
    InvalidContentType,
    /// No `boundary=` parameter with a non-empty value was found.
    MissingBoundary,
    /// A header block broke the line grammar or exceeded the header cap.
    MalformedHeaderBlock,
}

impl MultipartError {
    /// A short human-readable description of the failure.
    pub fn message(&self) -> &'static str {
        match self {
            MultipartError::InvalidContentType => "invalid content type",
            MultipartError::MissingBoundary => "missing boundary",
            MultipartError::MalformedHeaderBlock => "malformed header block",
        }
    }
}

} // verus!
