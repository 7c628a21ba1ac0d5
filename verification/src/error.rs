use vstd::prelude::*;

verus! {

/// The ways in which decoding a container can fail.
#[derive(Clone, Copy, Debug, PartialEq, Eq, Structural)]
pub enum ErrorKind {
    /// The header magic is not one this decoder knows.
    UnknownFormat,
    /// The header magic names a codec that is recognised but deliberately not implemented.
    UnsupportedFormat,
    /// The compressed body is corrupt.
    DecompressionError,
    /// A read needs more bytes than remain in the buffer.
    OutOfBounds,
    /// The first byte of a variable-length integer has all five prefix bits set.
    MalformedGamma,
    /// Bytes that should be text are not valid UTF-8.
    InvalidEncoding,
    /// A chunk kind tag lies outside `0..=4`.
    UnknownChunkKind,
    /// The chunk kind is recognised but its payload layout is not specified.
    UnsupportedChunkKind,
    /// A schema tag's low nibble lies outside `1..=11`.
    UnknownFieldType,
}

/// A decoding failure together with the place where it was found.
///
/// `offset` is the index, in the buffer being decoded, of the first byte of the read that
/// failed. Every failure is terminal for the decode operation that raised it.
#[derive(Clone, Copy, Debug, PartialEq, Eq, Structural)]
pub struct DecodeError {
    pub kind: ErrorKind,
    pub offset: usize,
}

/// The error of the given kind at byte `offset`.
pub open spec fn failure(kind: ErrorKind, offset: int) -> DecodeError {
    DecodeError { kind, offset: offset as usize }
}

impl DecodeError {
    /// Builds the error of the given kind at byte `offset`.
    pub fn new(kind: ErrorKind, offset: usize) -> (e: DecodeError)
        ensures
            e == failure(kind, offset as int),
    {
        DecodeError { kind, offset }
    }
}

} // verus!
