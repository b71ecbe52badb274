//! The failures that building or repacking can report.

use vstd::prelude::*;

verus! {

/// Why a build pass was abandoned. Every failure is fatal for the pass: the
/// caller discards what the pass produced and either mends its inputs or
/// starts the pass again.
#[derive(Clone, Copy, Debug, PartialEq, Eq, Structural)]
pub enum BuildError {
    /// A chunk names a source blob for which no blob description was given.
    UnknownSourceBlob,
    /// A blob description names a compressor that is not known.
    UnknownCompressor,
    /// The chunk list is longer than a 32-bit child count can express.
    TooManyChunks,
    /// No further blob index can be allocated.
    TooManyBlobs,
    /// The 32-bit chunk-index space of a blob is exhausted.
    ChunkIndexOverflow,
    /// A running offset would leave the 64-bit range.
    OffsetOverflow,
    /// A selected node is not a node of the tree.
    NodeNotFound,
    /// A selected node has no chunk, or a chunk's blob index names no entry
    /// of the blob table.
    UnresolvedBlobIndex,
    /// The bytes of a chunk's source blob are not available: the entry at
    /// `blob_index` of the blob table has no identifier yet, or no blob is at
    /// hand under its identifier.
    SourceBlobMissing { blob_index: u32 },
    /// The source blob at `blob_index` of the blob table ends before the
    /// `size` bytes at `offset` that a chunk declares.
    ShortRead { blob_index: u32, offset: u64, size: u32 },
    /// A byte range ends before a buffer was filled from it.
    UnexpectedEnd,
    /// The blob table does not hold exactly one entry with a pending identifier.
    PlaceholderCount,
    /// A tree's parent and child links do not form a tree.
    MalformedTree,
    /// A filesystem version number that is neither of the known versions.
    InvalidVersion,
    /// An image without a blob, where the features of its first blob are asked for.
    NoBlob,
}

} // verus!
