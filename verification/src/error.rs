//! Typed failures of the level-data engine.

use vstd::prelude::*;

verus! {

/// Everything that can go wrong while validating, reading or writing a ROM
/// image.
///
/// `InvalidAddress` is warning-level: address translation is best-effort and
/// never aborts, so this value is only ever produced as a diagnostic.
/// `IoFailure` is reserved for the unverified shell around the library; the
/// core itself never touches the file system.
#[derive(Clone, Debug, PartialEq, Eq)]
pub enum RomError {
    /// The image does not start with the expected three signature bytes.
    InvalidSignature,
    /// The image size is outside the accepted range for this cartridge.
    SizeOutOfRange { got: usize },
    /// An enemy code byte outside the closed enemy table, at the linear
    /// file offset where it was found.
    UnknownEnemyCode { value: u8, location: usize },
    /// A console address whose bank-local word is not ROM-mapped
    /// (warning-level; translation still returns a best-effort offset).
    InvalidAddress { value: u32 },
    /// An arena name field whose bytes are not plain text.
    InvalidText { location: usize },
    /// The arena collection handed to the writer does not have exactly the
    /// required number of records.
    WrongArenaCount { got: usize },
    /// An arena record is not in its canonical place in the collection.
    NotCanonical { index: usize },
    /// An arena whose wave list length cannot be stored in the single
    /// length byte (it must be in `1..=256`).
    WaveCountOutOfRange { count: usize },
    /// The serialized data block exceeds the space reserved for it.
    BlobOverflow { size: usize },
    /// A read or write would fall outside the image buffer.
    OutOfBounds { offset: usize },
    /// A file operation failed in the unverified shell.
    IoFailure,
}

} // verus!
