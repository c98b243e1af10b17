//! Error taxonomy of the reader and of the transport it relies on.

use vstd::prelude::*;

verus! {

/// Failure reported by a transport when it cannot materialize a view.
#[derive(Clone, Copy, Debug, PartialEq, Eq, Structural)]
pub enum SourceError {
    /// The request reached past the end of the underlying data.
    UnexpectedEof,
    /// Any other transport failure.
    Other,
}

/// Errors surfaced to the callers of `open_msf` and `Msf::get`.
#[derive(Clone, Copy, Debug, PartialEq, Eq, Structural)]
pub enum MsfError {
    /// Neither header magic matched, or the file is too short to hold a header.
    UnrecognizedFileFormat,
    /// The header's page size is not a power of two in [256, 8388608].
    InvalidPageSize(u32),
    /// A page number read from disk is 0 or exceeds the maximum valid page number.
    PageReferenceOutOfRange(u32),
    /// The requested stream number is out of range, or the stream is marked absent.
    StreamNotFound(u32),
    /// Opaque wrapper around a transport-level failure.
    Transport(SourceError),
    /// Unexpected end of a buffer being parsed.
    ParseError,
}

} // verus!
