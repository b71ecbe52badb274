//! Chunk and blob descriptions, as they come in and as they are laid out.

use vstd::prelude::*;

verus! {

/// One chunk as it exists in some source blob.
///
/// The image reference and the version say where the description came from;
/// they play no part in the layout.
#[derive(Debug, PartialEq, Eq, Hash)]
pub struct ChunkdictChunkInfo {
    pub image_reference: String,
    pub version: String,
    pub chunk_blob_id: String,
    pub chunk_digest: String,
    pub chunk_compressed_size: u32,
    pub chunk_uncompressed_size: u32,
    pub chunk_compressed_offset: u64,
    pub chunk_uncompressed_offset: u64,
}

impl Clone for ChunkdictChunkInfo {
    fn clone(&self) -> (copy: Self)
        ensures
            copy == *self,
    {
        ChunkdictChunkInfo {
            image_reference: self.image_reference.clone(),
            version: self.version.clone(),
            chunk_blob_id: self.chunk_blob_id.clone(),
            chunk_digest: self.chunk_digest.clone(),
            chunk_compressed_size: self.chunk_compressed_size,
            chunk_uncompressed_size: self.chunk_uncompressed_size,
            chunk_compressed_offset: self.chunk_compressed_offset,
            chunk_uncompressed_offset: self.chunk_uncompressed_offset,
        }
    }
}

/// What is known of one source blob as a whole.
#[derive(Debug, PartialEq, Eq, Hash)]
pub struct ChunkdictBlobInfo {
    pub blob_id: String,
    pub blob_compressed_size: u64,
    pub blob_uncompressed_size: u64,
    pub blob_compressor: String,
    pub blob_meta_ci_compressed_size: u64,
    pub blob_meta_ci_uncompressed_size: u64,
    pub blob_meta_ci_offset: u64,
}

/// A chunk as a node of the filesystem tree refers to it: the blob that holds
/// it, its place in that blob, and its place in the file.
#[derive(Debug, PartialEq, Eq, Hash)]
pub struct NodeChunk {
    /// Index of the holding blob in the blob table.
    pub blob_index: u32,
    /// Index of the chunk within the holding blob.
    pub index: u32,
    /// Offset of the chunk's content within its file.
    pub file_offset: u64,
    pub compressed_offset: u64,
    pub compressed_size: u32,
    pub uncompressed_offset: u64,
    pub uncompressed_size: u32,
    /// Content digest of the chunk, as its description gave it.
    pub digest: String,
}

impl Clone for NodeChunk {
    fn clone(&self) -> (copy: Self)
        ensures
            copy == *self,
    {
        NodeChunk {
            blob_index: self.blob_index,
            index: self.index,
            file_offset: self.file_offset,
            compressed_offset: self.compressed_offset,
            compressed_size: self.compressed_size,
            uncompressed_offset: self.uncompressed_offset,
            uncompressed_size: self.uncompressed_size,
            digest: self.digest.clone(),
        }
    }
}

} // verus!
