//! The accumulator of one target blob: running offsets, chunk indices, the
//! chunk-metadata table and the content hash.

use vstd::prelude::*;
use crate::align::{lemma_round_up_4k, round_up_4k, try_round_up_4k};
use crate::chunk::NodeChunk;
use crate::compress::Algorithm;
use crate::digest::{
    absorbed, hasher_clone, hasher_finalize, hasher_new, hasher_update, sha256, BlobHasher, DIGEST_LEN,
};
use crate::error::BuildError;

verus! {

/// Size in bytes of one record of the chunk-metadata table.
pub const CHUNK_META_RECORD_SIZE: u64 = 16;

/// Size in bytes of the header that precedes the chunk-metadata table.
pub const META_HEADER_SIZE: u64 = 0x200;

/// The identifier of a blob. It derives from the blob's content, so a blob
/// that is still being written has none yet.
#[derive(Debug, PartialEq, Eq, Hash)]
pub enum BlobId {
    /// The blob is not finished; its identifier is not known.
    Pending,
    /// The blob is known under this identifier.
    Committed(String),
}

impl View for BlobId {
    type V = Option<Seq<char>>;

    open spec fn view(&self) -> Option<Seq<char>> {
        match self {
            BlobId::Pending => None,
            BlobId::Committed(id) => Some(id@),
        }
    }
}

impl Clone for BlobId {
    fn clone(&self) -> (copy: Self)
        ensures
            copy == *self,
    {
        match self {
            BlobId::Pending => BlobId::Pending,
            BlobId::Committed(id) => BlobId::Committed(id.clone()),
        }
    }
}

impl BlobId {
    /// Whether this is the identifier `id`.
    pub fn is_committed_as(&self, id: &String) -> (same: bool)
        ensures
            same == (self@ == Some(id@)),
    {
        match self {
            BlobId::Pending => false,
            BlobId::Committed(own) => *own == *id,
        }
    }

    /// Whether the identifier is still to come.
    pub fn is_pending(&self) -> (pending: bool)
        ensures
            pending == (self@ is None),
    {
        match self {
            BlobId::Pending => true,
            BlobId::Committed(_) => false,
        }
    }
}

/// One record of a blob's chunk-metadata table: where a chunk lies in the blob.
#[derive(Clone, Copy, Debug, PartialEq, Eq, Structural)]
pub struct ChunkMetaRecord {
    pub compressed_offset: u64,
    pub compressed_size: u32,
    pub uncompressed_offset: u64,
    pub uncompressed_size: u32,
}

/// What a reservation hands out: the chunk's index within the blob and the
/// offsets at which the chunk begins.
#[derive(Clone, Copy, Debug, PartialEq, Eq, Structural)]
pub struct ChunkSlot {
    pub index: u32,
    pub compressed_offset: u64,
    pub uncompressed_offset: u64,
}

/// The sizes and offsets of a finished blob, as its header record holds them.
#[derive(Clone, Copy, Debug, PartialEq, Eq, Structural)]
pub struct BlobSizeSummary {
    pub chunk_count: u32,
    pub compressed_size: u64,
    pub uncompressed_size: u64,
    pub meta_ci_offset: u64,
    pub meta_ci_compressed_size: u64,
    pub meta_ci_uncompressed_size: u64,
}

/// The accumulator of one target blob.
pub struct BlobContext {
    pub blob_id: BlobId,
    /// Whether every chunk of the blob begins on a block boundary of the
    /// uncompressed address space.
    pub aligned: bool,
    pub blob_compressor: Algorithm,
    pub current_compressed_offset: u64,
    pub current_uncompressed_offset: u64,
    /// The number of chunk indices handed out; also the next index.
    pub chunk_count: u32,
    pub blob_hash: BlobHasher,
    pub blob_meta_info: Vec<ChunkMetaRecord>,
    pub meta_ci_compressor: Algorithm,
    pub meta_ci_offset: u64,
    pub meta_ci_compressed_size: u64,
    pub meta_ci_uncompressed_size: u64,
}

/// The mathematical content of an accumulator.
pub ghost struct BlobContextView {
    pub blob_id: Option<Seq<char>>,
    pub aligned: bool,
    pub blob_compressor: Algorithm,
    pub current_compressed_offset: u64,
    pub current_uncompressed_offset: u64,
    pub chunk_count: u32,
    /// The bytes folded into the content hash so far.
    pub hashed: Seq<u8>,
    pub blob_meta_info: Seq<ChunkMetaRecord>,
    pub meta_ci_compressor: Algorithm,
    pub meta_ci_offset: u64,
    pub meta_ci_compressed_size: u64,
    pub meta_ci_uncompressed_size: u64,
}

impl View for BlobContext {
    type V = BlobContextView;

    open spec fn view(&self) -> BlobContextView {
        BlobContextView {
            blob_id: self.blob_id@,
            aligned: self.aligned,
            blob_compressor: self.blob_compressor,
            current_compressed_offset: self.current_compressed_offset,
            current_uncompressed_offset: self.current_uncompressed_offset,
            chunk_count: self.chunk_count,
            hashed: absorbed(self.blob_hash),
            blob_meta_info: self.blob_meta_info@,
            meta_ci_compressor: self.meta_ci_compressor,
            meta_ci_offset: self.meta_ci_offset,
            meta_ci_compressed_size: self.meta_ci_compressed_size,
            meta_ci_uncompressed_size: self.meta_ci_uncompressed_size,
        }
    }
}

/// By how much a chunk of the given uncompressed size moves the uncompressed
/// offset of a blob: by its size, or by its size rounded up to whole blocks
/// where the blob keeps its chunks aligned.
pub open spec fn uncompressed_advance(aligned: bool, uncompressed_size: u32) -> int {
    if aligned {
        round_up_4k(uncompressed_size as int)
    } else {
        uncompressed_size as int
    }
}

/// The table record that describes a chunk at its place in a blob.
pub open spec fn meta_record_of(chunk: NodeChunk) -> ChunkMetaRecord {
    ChunkMetaRecord {
        compressed_offset: chunk.compressed_offset,
        compressed_size: chunk.compressed_size,
        uncompressed_offset: chunk.uncompressed_offset,
        uncompressed_size: chunk.uncompressed_size,
    }
}

impl BlobContextView {
    /// An accumulator into which nothing has been written.
    pub open spec fn fresh(blob_id: Option<Seq<char>>, aligned: bool, compressor: Algorithm) -> BlobContextView {
        BlobContextView {
            blob_id,
            aligned,
            blob_compressor: compressor,
            current_compressed_offset: 0,
            current_uncompressed_offset: 0,
            chunk_count: 0,
            hashed: Seq::empty(),
            blob_meta_info: Seq::empty(),
            meta_ci_compressor: Algorithm::Uncompressed,
            meta_ci_offset: 0,
            meta_ci_compressed_size: 0,
            meta_ci_uncompressed_size: 0,
        }
    }

    /// In a blob that keeps its chunks aligned, the next chunk begins on a
    /// block boundary.
    pub open spec fn wf(self) -> bool {
        self.aligned ==> self.current_uncompressed_offset as int % 4096 == 0
    }

    /// The metadata table and its header sizes keep step with the chunk
    /// count: one record, and one record's size, per chunk.
    pub open spec fn in_step(self) -> bool {
        &&& self.blob_meta_info.len() == self.chunk_count
        &&& self.meta_ci_uncompressed_size == self.chunk_count * CHUNK_META_RECORD_SIZE
        &&& self.meta_ci_compressed_size == self.meta_ci_uncompressed_size
    }

    /// Why no place can be reserved for a chunk of the given sizes, if none can.
    pub open spec fn reserve_failure(self, compressed_size: u32, uncompressed_size: u32) -> Option<BuildError> {
        if self.chunk_count == u32::MAX {
            Some(BuildError::ChunkIndexOverflow)
        } else if self.current_compressed_offset + compressed_size > u64::MAX
            || self.current_uncompressed_offset + uncompressed_advance(self.aligned, uncompressed_size) > u64::MAX {
            Some(BuildError::OffsetOverflow)
        } else {
            None
        }
    }

    /// The place that the next reservation hands out.
    pub open spec fn next_slot(self) -> ChunkSlot {
        ChunkSlot {
            index: self.chunk_count,
            compressed_offset: self.current_compressed_offset,
            uncompressed_offset: self.current_uncompressed_offset,
        }
    }

    /// The accumulator after a place was reserved for a chunk of the given sizes.
    pub open spec fn reserved(self, compressed_size: u32, uncompressed_size: u32) -> BlobContextView {
        BlobContextView {
            chunk_count: (self.chunk_count + 1) as u32,
            current_compressed_offset: (self.current_compressed_offset + compressed_size) as u64,
            current_uncompressed_offset: (self.current_uncompressed_offset + uncompressed_advance(
                self.aligned,
                uncompressed_size,
            )) as u64,
            ..self
        }
    }

    /// The accumulator after the table record of a chunk was appended.
    pub open spec fn recorded(self, chunk: NodeChunk) -> BlobContextView {
        BlobContextView {
            blob_meta_info: self.blob_meta_info.push(meta_record_of(chunk)),
            meta_ci_compressed_size: (self.meta_ci_compressed_size + CHUNK_META_RECORD_SIZE) as u64,
            meta_ci_uncompressed_size: (self.meta_ci_uncompressed_size + CHUNK_META_RECORD_SIZE) as u64,
            ..self
        }
    }

    /// The accumulator after `bytes` were folded into its content hash.
    pub open spec fn absorbing(self, bytes: Seq<u8>) -> BlobContextView {
        BlobContextView { hashed: self.hashed + bytes, ..self }
    }

    /// The accumulator after it was finalized: the metadata table is placed
    /// behind its header.
    pub open spec fn finalized(self) -> BlobContextView {
        BlobContextView {
            meta_ci_offset: (META_HEADER_SIZE + self.meta_ci_uncompressed_size) as u64,
            ..self
        }
    }

    /// The sizes and offsets that the blob's header record takes over.
    pub open spec fn summary(self) -> BlobSizeSummary {
        BlobSizeSummary {
            chunk_count: self.chunk_count,
            compressed_size: self.current_compressed_offset,
            uncompressed_size: self.current_uncompressed_offset,
            meta_ci_offset: self.meta_ci_offset,
            meta_ci_compressed_size: self.meta_ci_compressed_size,
            meta_ci_uncompressed_size: self.meta_ci_uncompressed_size,
        }
    }
}

impl BlobContext {
    /// An accumulator for a blob into which nothing has been written yet.
    pub fn new(blob_id: BlobId, aligned: bool, compressor: Algorithm) -> (ctx: BlobContext)
        ensures
            ctx@ == BlobContextView::fresh(blob_id@, aligned, compressor),
    {
        BlobContext {
            blob_id,
            aligned,
            blob_compressor: compressor,
            current_compressed_offset: 0,
            current_uncompressed_offset: 0,
            chunk_count: 0,
            blob_hash: hasher_new(),
            blob_meta_info: Vec::new(),
            meta_ci_compressor: Algorithm::Uncompressed,
            meta_ci_offset: 0,
            meta_ci_compressed_size: 0,
            meta_ci_uncompressed_size: 0,
        }
    }

    /// Reserves the place of the next chunk: hands out the next chunk index
    /// and the offsets at which the chunk begins, then moves the offsets past
    /// the chunk. Where no place can be had, nothing changes.
    pub fn reserve_for(&mut self, compressed_size: u32, uncompressed_size: u32) -> (slot: Result<ChunkSlot, BuildError>)
        ensures
            match old(self)@.reserve_failure(compressed_size, uncompressed_size) {
                Some(e) => slot == Err::<ChunkSlot, BuildError>(e) && final(self)@ == old(self)@,
                None => slot == Ok::<ChunkSlot, BuildError>(old(self)@.next_slot())
                    && final(self)@ == old(self)@.reserved(compressed_size, uncompressed_size),
            },
    {
        if self.chunk_count == u32::MAX {
            return Err(BuildError::ChunkIndexOverflow);
        }
        let advance: u64 = if self.aligned {
            match try_round_up_4k(uncompressed_size as u64) {
                Some(rounded) => rounded,
                None => {
                    return Err(BuildError::OffsetOverflow);
                },
            }
        } else {
            uncompressed_size as u64
        };
        let next_compressed = self.current_compressed_offset.checked_add(compressed_size as u64);
        let next_uncompressed = self.current_uncompressed_offset.checked_add(advance);
        match (next_compressed, next_uncompressed) {
            (Some(c), Some(d)) => {
                let slot = ChunkSlot {
                    index: self.chunk_count,
                    compressed_offset: self.current_compressed_offset,
                    uncompressed_offset: self.current_uncompressed_offset,
                };
                self.chunk_count = self.chunk_count + 1;
                self.current_compressed_offset = c;
                self.current_uncompressed_offset = d;
                Ok(slot)
            },
            _ => Err(BuildError::OffsetOverflow),
        }
    }

    /// Appends the table record of a chunk and grows the two size fields of
    /// the table's header by one record.
    pub fn record_chunk_meta(&mut self, chunk: &NodeChunk)
        requires
            old(self).meta_ci_compressed_size <= u64::MAX - CHUNK_META_RECORD_SIZE,
            old(self).meta_ci_uncompressed_size <= u64::MAX - CHUNK_META_RECORD_SIZE,
        ensures
            final(self)@ == old(self)@.recorded(*chunk),
    {
        self.blob_meta_info.push(
            ChunkMetaRecord {
                compressed_offset: chunk.compressed_offset,
                compressed_size: chunk.compressed_size,
                uncompressed_offset: chunk.uncompressed_offset,
                uncompressed_size: chunk.uncompressed_size,
            },
        );
        self.meta_ci_compressed_size = self.meta_ci_compressed_size + CHUNK_META_RECORD_SIZE;
        self.meta_ci_uncompressed_size = self.meta_ci_uncompressed_size + CHUNK_META_RECORD_SIZE;
    }

    /// Folds `buf` into the content hash of the blob.
    pub fn absorb_bytes(&mut self, buf: &[u8])
        ensures
            final(self)@ == old(self)@.absorbing(buf@),
    {
        hasher_update(&mut self.blob_hash, buf);
    }

    /// Places the metadata table behind its header and reports the sizes and
    /// offsets of the blob as they now stand.
    pub fn finalize(&mut self) -> (summary: BlobSizeSummary)
        requires
            old(self).meta_ci_uncompressed_size <= u64::MAX - META_HEADER_SIZE,
        ensures
            final(self)@ == old(self)@.finalized(),
            summary == old(self)@.finalized().summary(),
    {
        self.meta_ci_offset = META_HEADER_SIZE + self.meta_ci_uncompressed_size;
        BlobSizeSummary {
            chunk_count: self.chunk_count,
            compressed_size: self.current_compressed_offset,
            uncompressed_size: self.current_uncompressed_offset,
            meta_ci_offset: self.meta_ci_offset,
            meta_ci_compressed_size: self.meta_ci_compressed_size,
            meta_ci_uncompressed_size: self.meta_ci_uncompressed_size,
        }
    }

    /// The SHA-256 digest of the bytes folded into the content hash so far.
    pub fn content_digest(&self) -> (digest: Vec<u8>)
        ensures
            digest@ == sha256(self@.hashed),
            digest@.len() == DIGEST_LEN,
    {
        hasher_finalize(hasher_clone(&self.blob_hash))
    }
}

/// Offset monotonicity of one reservation. A successful reservation never
/// moves an offset backwards, hands out the offsets and the index as they
/// stood, raises the chunk count by one, and keeps an aligned blob aligned.
pub proof fn law_reserve_monotone(acc: BlobContextView, compressed_size: u32, uncompressed_size: u32)
    requires
        acc.reserve_failure(compressed_size, uncompressed_size) is None,
    ensures
        acc.reserved(compressed_size, uncompressed_size).current_compressed_offset == acc.current_compressed_offset
            + compressed_size,
        acc.reserved(compressed_size, uncompressed_size).current_uncompressed_offset
            >= acc.current_uncompressed_offset + uncompressed_size,
        acc.reserved(compressed_size, uncompressed_size).chunk_count == acc.chunk_count + 1,
        acc.next_slot().index == acc.chunk_count,
        acc.wf() ==> acc.reserved(compressed_size, uncompressed_size).wf(),
        acc.wf() && acc.aligned ==> acc.next_slot().uncompressed_offset as int % 4096 == 0,
{
    lemma_round_up_4k(uncompressed_size as int);
}

} // verus!
