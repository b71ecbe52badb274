//! Taking the settings of a build over from an existing filesystem image.

use vstd::prelude::*;
use crate::compress::Algorithm;
use crate::context::{BlobFeatures, BuildContext, ConversionType, RafsVersion};
use crate::error::BuildError;

verus! {

/// The version number that an image of layout version 5 carries.
pub const RAFS_SUPER_VERSION_V5: u32 = 0x500;

/// The version number that an image of layout version 6 carries.
pub const RAFS_SUPER_VERSION_V6: u32 = 0x600;

impl RafsVersion {
    /// The layout version that a version number stands for, if it stands for one.
    pub open spec fn numbered(version: u32) -> Option<RafsVersion> {
        if version == RAFS_SUPER_VERSION_V5 {
            Some(RafsVersion::V5)
        } else if version == RAFS_SUPER_VERSION_V6 {
            Some(RafsVersion::V6)
        } else {
            None
        }
    }

    /// Reads a layout version from its number.
    pub fn from_number(version: u32) -> (parsed: Result<RafsVersion, BuildError>)
        ensures
            parsed == match RafsVersion::numbered(version) {
                Some(v) => Ok::<RafsVersion, BuildError>(v),
                None => Err::<RafsVersion, BuildError>(BuildError::InvalidVersion),
            },
    {
        if version == RAFS_SUPER_VERSION_V5 {
            Ok(RafsVersion::V5)
        } else if version == RAFS_SUPER_VERSION_V6 {
            Ok(RafsVersion::V6)
        } else {
            Err(BuildError::InvalidVersion)
        }
    }
}

/// What a build takes over from the superblock of an existing image.
#[derive(Debug, PartialEq, Eq)]
pub struct BootstrapSummary {
    /// The features of the blobs of the image, in the order of the blob table.
    pub blob_features: Vec<BlobFeatures>,
    /// Whether the image was built from an archive stream that it refers to.
    pub is_tarfs_mode: bool,
    /// The version number of the image.
    pub version: u32,
    /// The compressor of the image.
    pub compressor: Algorithm,
}

/// The settings of a build after the features of the image's first blob and
/// the conversion were taken over from an image: an image in archive mode
/// makes the build a conversion from an archive.
pub open spec fn ctx_taken_over(before: BuildContext, after: BuildContext, sb: BootstrapSummary) -> bool {
    &&& after.blob_id == before.blob_id
    &&& after.chunk_size == before.chunk_size
    &&& after.blob_features == sb.blob_features@[0]
    &&& after.conversion_type == if sb.is_tarfs_mode {
        ConversionType::TarToRafs
    } else {
        before.conversion_type
    }
}

/// Takes the settings of a build over from the superblock of an existing
/// image: the features of its first blob, the conversion, the layout
/// version and the compressor. Where the image has no blob, nothing is
/// taken over. Where the version number of the image stands for no layout
/// version, the layout version and the compressor of the build stay as they
/// were.
pub fn update_ctx_from_bootstrap(ctx: &mut BuildContext, sb: &BootstrapSummary) -> (done: Result<(), BuildError>)
    ensures
        if sb.blob_features@.len() == 0 {
            done == Err::<(), BuildError>(BuildError::NoBlob) && *final(ctx) == *old(ctx)
        } else {
            &&& ctx_taken_over(*old(ctx), *final(ctx), *sb)
            &&& match RafsVersion::numbered(sb.version) {
                Some(version) => {
                    &&& done is Ok
                    &&& final(ctx).fs_version == version
                    &&& final(ctx).compressor == sb.compressor
                },
                None => {
                    &&& done == Err::<(), BuildError>(BuildError::InvalidVersion)
                    &&& final(ctx).fs_version == old(ctx).fs_version
                    &&& final(ctx).compressor == old(ctx).compressor
                },
            }
        },
{
    if sb.blob_features.len() == 0 {
        return Err(BuildError::NoBlob);
    }
    ctx.blob_features = sb.blob_features[0];
    if sb.is_tarfs_mode {
        ctx.conversion_type = ConversionType::TarToRafs;
    }
    ctx.fs_version = match RafsVersion::from_number(sb.version) {
        Err(e) => {
            return Err(e);
        },
        Ok(version) => version,
    };
    ctx.compressor = sb.compressor;
    Ok(())
}

} // verus!
