//! Errors of reading and building layer files.
use vstd::prelude::*;

verus! {

/// Why an operation on a layer failed.
#[derive(Debug, Clone, Copy, PartialEq, Eq, Structural)]
pub enum LayerError {
    /// The file ends before the block or record that was to be read.
    Truncated,
    /// The summary in the file is not the one of the layer that was asked
    /// for: magic, format version, identity, key range or LSN differ.
    SummaryMismatch,
    /// No file has been opened for the layer yet.
    NotOpen,
    /// The layer has not been loaded yet.
    NotLoaded,
    /// The index region does not hold a well-formed index.
    CorruptIndex,
    /// No well-formed blob stands at the given offset.
    BlobRead { offset: u64 },
    /// The blob at the given offset is flagged as compressed and does not
    /// decompress.
    Decompress { offset: u64 },
    /// The value could not be compressed.
    Compress,
    /// The key lies outside the key range of the layer that is being built.
    KeyOutOfRange,
    /// The value, or the file with it, would exceed what the format holds.
    TooLarge,
}

} // verus!
