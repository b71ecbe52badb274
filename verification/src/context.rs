//! The settings of a build and the blob table that a build works on.

use vstd::prelude::*;
use crate::blob::{BlobId, BlobSizeSummary};
use crate::compress::Algorithm;

verus! {

/// The layout version of the filesystem that is built.
#[derive(Clone, Copy, Debug, PartialEq, Eq, Structural)]
pub enum RafsVersion {
    V5,
    V6,
}

/// What a build converts from and to.
#[derive(Clone, Copy, Debug, PartialEq, Eq, Structural)]
pub enum ConversionType {
    DirectoryToRafs,
    DirectoryToStargz,
    DirectoryToTargz,
    EStargzToRafs,
    EStargzToRef,
    EStargzIndexToRef,
    TargzToRafs,
    TargzToStargz,
    TargzToRef,
    TarToStargz,
    TarToRafs,
    TarToRef,
    TarToTarfs,
}

/// What a blob declares of its own layout.
#[derive(Clone, Copy, Debug, PartialEq, Eq, Structural)]
pub struct BlobFeatures {
    /// Every chunk begins on a block boundary of the uncompressed address space.
    pub aligned: bool,
    /// The chunk digests are stored inline with the chunk metadata.
    pub inlined_chunk_digest: bool,
    /// The blob carries an archive header.
    pub has_tar_header: bool,
    /// The blob carries a table of contents.
    pub has_toc: bool,
    /// The blob's reader may rely on the archive header and the table of contents.
    pub cap_tar_toc: bool,
}

impl BlobFeatures {
    /// No feature declared.
    pub open spec fn spec_empty() -> BlobFeatures {
        BlobFeatures {
            aligned: false,
            inlined_chunk_digest: false,
            has_tar_header: false,
            has_toc: false,
            cap_tar_toc: false,
        }
    }

    /// No feature declared.
    #[verifier::when_used_as_spec(spec_empty)]
    pub fn empty() -> (features: BlobFeatures)
        ensures
            features == BlobFeatures::spec_empty(),
    {
        BlobFeatures {
            aligned: false,
            inlined_chunk_digest: false,
            has_tar_header: false,
            has_toc: false,
            cap_tar_toc: false,
        }
    }

    /// The features of a repacked blob: all of them.
    pub open spec fn spec_repacked() -> BlobFeatures {
        BlobFeatures {
            aligned: true,
            inlined_chunk_digest: true,
            has_tar_header: true,
            has_toc: true,
            cap_tar_toc: true,
        }
    }

    /// The features of a repacked blob: all of them.
    #[verifier::when_used_as_spec(spec_repacked)]
    pub fn repacked() -> (features: BlobFeatures)
        ensures
            features == BlobFeatures::spec_repacked(),
    {
        BlobFeatures {
            aligned: true,
            inlined_chunk_digest: true,
            has_tar_header: true,
            has_toc: true,
            cap_tar_toc: true,
        }
    }
}

/// The settings of a build.
#[derive(Debug, PartialEq, Eq)]
pub struct BuildContext {
    /// The identifier of the blob that the build produces.
    pub blob_id: BlobId,
    pub fs_version: RafsVersion,
    pub conversion_type: ConversionType,
    pub compressor: Algorithm,
    pub chunk_size: u32,
    pub blob_features: BlobFeatures,
}

impl BuildContext {
    /// The size in bytes of an on-disk block of the filesystem that is built.
    pub open spec fn spec_v6_block_size(&self) -> u64 {
        if self.conversion_type == ConversionType::TarToTarfs {
            512
        } else {
            4096
        }
    }

    /// The size in bytes of an on-disk block of the filesystem that is built:
    /// an archive stream is laid out in blocks of 512 bytes, anything else in
    /// blocks of 4096.
    #[verifier::when_used_as_spec(spec_v6_block_size)]
    pub fn v6_block_size(&self) -> (size: u64)
        ensures
            size == self.spec_v6_block_size(),
    {
        match self.conversion_type {
            ConversionType::TarToTarfs => 512,
            _ => 4096,
        }
    }
}

/// The header record of one blob: an entry of the blob table.
#[derive(Debug, PartialEq, Eq)]
pub struct BlobInfo {
    pub blob_index: u32,
    pub blob_id: BlobId,
    pub blob_features: BlobFeatures,
    pub chunk_size: u32,
    pub chunk_count: u32,
    pub compressor: Algorithm,
    pub compressed_size: u64,
    pub uncompressed_size: u64,
    pub meta_ci_offset: u64,
    pub meta_ci_compressed_size: u64,
    pub meta_ci_uncompressed_size: u64,
}

/// The mathematical content of a blob header record.
pub ghost struct BlobInfoView {
    pub blob_index: u32,
    pub blob_id: Option<Seq<char>>,
    pub blob_features: BlobFeatures,
    pub chunk_size: u32,
    pub chunk_count: u32,
    pub compressor: Algorithm,
    pub compressed_size: u64,
    pub uncompressed_size: u64,
    pub meta_ci_offset: u64,
    pub meta_ci_compressed_size: u64,
    pub meta_ci_uncompressed_size: u64,
}

impl View for BlobInfo {
    type V = BlobInfoView;

    open spec fn view(&self) -> BlobInfoView {
        BlobInfoView {
            blob_index: self.blob_index,
            blob_id: self.blob_id@,
            blob_features: self.blob_features,
            chunk_size: self.chunk_size,
            chunk_count: self.chunk_count,
            compressor: self.compressor,
            compressed_size: self.compressed_size,
            uncompressed_size: self.uncompressed_size,
            meta_ci_offset: self.meta_ci_offset,
            meta_ci_compressed_size: self.meta_ci_compressed_size,
            meta_ci_uncompressed_size: self.meta_ci_uncompressed_size,
        }
    }
}

impl BlobInfoView {
    /// The record of a blob of which only the index, the identifier, the
    /// sizes, the chunk size, the chunk count and the features are known.
    pub open spec fn fresh(
        blob_index: u32,
        blob_id: Option<Seq<char>>,
        uncompressed_size: u64,
        compressed_size: u64,
        chunk_size: u32,
        chunk_count: u32,
        blob_features: BlobFeatures,
    ) -> BlobInfoView {
        BlobInfoView {
            blob_index,
            blob_id,
            blob_features,
            chunk_size,
            chunk_count,
            compressor: Algorithm::Uncompressed,
            compressed_size,
            uncompressed_size,
            meta_ci_offset: 0,
            meta_ci_compressed_size: 0,
            meta_ci_uncompressed_size: 0,
        }
    }

    /// The record after it took over the sizes and offsets of a finished blob.
    pub open spec fn sealed(self, summary: BlobSizeSummary) -> BlobInfoView {
        BlobInfoView {
            chunk_count: summary.chunk_count,
            compressed_size: summary.compressed_size,
            uncompressed_size: summary.uncompressed_size,
            meta_ci_offset: summary.meta_ci_offset,
            meta_ci_compressed_size: summary.meta_ci_compressed_size,
            meta_ci_uncompressed_size: summary.meta_ci_uncompressed_size,
            ..self
        }
    }
}

impl BlobInfo {
    /// The record of a blob of which only the index, the identifier, the
    /// sizes, the chunk size, the chunk count and the features are known.
    pub fn new(
        blob_index: u32,
        blob_id: BlobId,
        uncompressed_size: u64,
        compressed_size: u64,
        chunk_size: u32,
        chunk_count: u32,
        blob_features: BlobFeatures,
    ) -> (info: BlobInfo)
        ensures
            info@ == BlobInfoView::fresh(
                blob_index,
                blob_id@,
                uncompressed_size,
                compressed_size,
                chunk_size,
                chunk_count,
                blob_features,
            ),
    {
        BlobInfo {
            blob_index,
            blob_id,
            blob_features,
            chunk_size,
            chunk_count,
            compressor: Algorithm::Uncompressed,
            compressed_size,
            uncompressed_size,
            meta_ci_offset: 0,
            meta_ci_compressed_size: 0,
            meta_ci_uncompressed_size: 0,
        }
    }
}

impl Clone for BlobInfo {
    fn clone(&self) -> (copy: Self)
        ensures
            copy == *self,
    {
        BlobInfo {
            blob_index: self.blob_index,
            blob_id: self.blob_id.clone(),
            blob_features: self.blob_features,
            chunk_size: self.chunk_size,
            chunk_count: self.chunk_count,
            compressor: self.compressor,
            compressed_size: self.compressed_size,
            uncompressed_size: self.uncompressed_size,
            meta_ci_offset: self.meta_ci_offset,
            meta_ci_compressed_size: self.meta_ci_compressed_size,
            meta_ci_uncompressed_size: self.meta_ci_uncompressed_size,
        }
    }
}

/// The blob table: the header records of the blobs of an image, in the order
/// of their blob indices.
#[derive(Debug, PartialEq, Eq)]
pub struct BlobTable {
    pub entries: Vec<BlobInfo>,
}

impl View for BlobTable {
    type V = Seq<BlobInfoView>;

    open spec fn view(&self) -> Seq<BlobInfoView> {
        self.entries@.map_values(|info: BlobInfo| info@)
    }
}

} // verus!
