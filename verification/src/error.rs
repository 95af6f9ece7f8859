use vstd::prelude::*;

verus! {

/// The error kinds surfaced by the archive reader.
///
/// The first five kinds are the ones a range-reader backend may produce;
/// the rest are raised by the reader's own checks.
#[derive(Clone, Copy, Debug, PartialEq, Eq, Structural)]
pub enum DatError {
    /// An object was not present: an entry identifier missing from the
    /// directory, or a backend object absent from its store.
    NotFound,
    /// A backend refused a byte-range request.
    RangeUnavailable,
    /// A backend produced fewer bytes than requested.
    ShortRead,
    /// A generic backend failure.
    Transport,
    /// A requested range lies outside the backing data.
    InvalidOffset,
    /// Header bytes were unavailable or malformed.
    InvalidHeader,
    /// The block size is too small to carry any payload.
    InvalidGeometry,
    /// A block chain's next pointer was zero while payload bytes were
    /// still owed.
    TruncatedChain,
    /// The directory traversal exceeded its depth bound.
    CyclicDirectory,
    /// The framing decoder was asked for a variant it does not support.
    UnsupportedEntryType,
    /// A texture uses a pixel format the decoder does not support.
    UnsupportedPixelFormat,
    /// A texture's dimensions do not match its pixel data length.
    TextureShapeMismatch,
}

impl DatError {
    /// True of the kinds a range-reader backend may surface; the reader's
    /// own checks never produce these and backends never produce others.
    pub open spec fn is_backend_kind(self) -> bool {
        ||| self == DatError::NotFound
        ||| self == DatError::RangeUnavailable
        ||| self == DatError::ShortRead
        ||| self == DatError::Transport
        ||| self == DatError::InvalidOffset
    }
}

} // verus!
