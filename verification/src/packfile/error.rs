//! Why reading or writing objects and packfiles fails.
use vstd::prelude::*;
use crate::packfile::delta_utils::DeltaError;

verus! {

/// Why reading an object or a packfile failed.
#[derive(Debug, Clone, Copy, PartialEq, Eq, Structural)]
pub enum PackError {
    /// The data ended too early.
    UnexpectedEof,
    /// A part of an object header is not valid UTF-8.
    InvalidUtf8,
    /// The object type is not one that this git knows.
    UnsupportedObjectType,
    /// The size in an object header is not a number.
    InvalidSize,
    /// A zlib stream could not be decompressed.
    Decompress,
    /// The packfile does not start with `PACK`.
    InvalidSignature,
    /// The packfile version is not 2.
    UnsupportedVersion,
    /// The size of an object in a packfile does not fit the shifts of
    /// `usize`.
    SizeTooLong,
    /// An object's data does not have the size that its header gives.
    CorruptedSize,
    /// A delta stream could not be read.
    Delta(DeltaError),
    /// A delta points before the start of the packfile, or at itself.
    InvalidDeltaOffset,
    /// A delta was made for a base of another size.
    BaseSizeMismatch,
    /// A delta gives an object of another size than it announces.
    ResultSizeMismatch,
    /// A delta copies bytes from outside its base.
    CopyOutOfBounds,
    /// A delta is against a base object that is named by its hash, and that
    /// base is not at hand.
    MissingBase,
}

} // verus!
