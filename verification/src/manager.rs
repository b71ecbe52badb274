//! The accumulators of the blobs that a build writes to.

use vstd::prelude::*;
use crate::blob::{BlobContext, BlobContextView, BlobId};
use crate::compress::Algorithm;
use crate::context::{BlobFeatures, BlobInfo, BlobInfoView, BlobTable, BuildContext};
use crate::error::BuildError;
use crate::keyed::{find_keyed, keys_of, lemma_position_of_key, position_of_key, Keyed};

verus! {

impl Keyed for BlobContext {
    open spec fn key(&self) -> Option<Seq<char>> {
        self.blob_id@
    }

    fn has_key(&self, id: &String) -> (hit: bool) {
        self.blob_id.is_committed_as(id)
    }
}

/// The accumulators of the blobs that a build writes to, in the order of
/// their blob indices.
pub struct BlobManager {
    pub blobs: Vec<BlobContext>,
}

impl View for BlobManager {
    type V = Seq<BlobContextView>;

    open spec fn view(&self) -> Seq<BlobContextView> {
        self.blobs@.map_values(|blob: BlobContext| blob@)
    }
}

/// The identifiers of a list of accumulators, place by place.
pub open spec fn blob_keys(blobs: Seq<BlobContextView>) -> Seq<Option<Seq<char>>> {
    blobs.map_values(|blob: BlobContextView| blob.blob_id)
}

/// The place of the accumulator of the blob `id`: that of the first
/// accumulator that goes by `id`, or, where there is none, the place behind
/// the last accumulator, where one is created.
pub open spec fn place_of_blob(blobs: Seq<BlobContextView>, id: Seq<char>) -> int {
    match position_of_key(blob_keys(blobs), id) {
        Some(p) => p,
        None => blobs.len() as int,
    }
}

/// The accumulators once the blob `id` has one: a blob that has none gets a
/// fresh one behind the others, with the compressor `compressor`.
pub open spec fn with_blob(blobs: Seq<BlobContextView>, id: Seq<char>, compressor: Algorithm) -> Seq<
    BlobContextView,
> {
    if position_of_key(blob_keys(blobs), id) is Some {
        blobs
    } else {
        blobs.push(BlobContextView::fresh(Some(id), false, compressor))
    }
}

/// The accumulator of the blob `id`, fresh where the blob had none.
pub open spec fn blob_of(blobs: Seq<BlobContextView>, id: Seq<char>, compressor: Algorithm) -> BlobContextView {
    with_blob(blobs, id, compressor)[place_of_blob(blobs, id)]
}

/// The header record of the blob of an accumulator that stands at place
/// `blob_index`, in a build with the given chunk size and features.
pub open spec fn entry_of(
    acc: BlobContextView,
    blob_index: u32,
    chunk_size: u32,
    features: BlobFeatures,
) -> BlobInfoView {
    BlobInfoView {
        blob_index,
        blob_id: acc.blob_id,
        blob_features: features,
        chunk_size,
        chunk_count: acc.chunk_count,
        compressor: acc.blob_compressor,
        compressed_size: acc.current_compressed_offset,
        uncompressed_size: acc.current_uncompressed_offset,
        meta_ci_offset: acc.meta_ci_offset,
        meta_ci_compressed_size: acc.meta_ci_compressed_size,
        meta_ci_uncompressed_size: acc.meta_ci_uncompressed_size,
    }
}

impl BlobManager {
    /// The blob table of the accumulators: one header record for each, in
    /// their order, or the report that there are more accumulators than
    /// blob indices.
    pub fn to_blob_table(&self, ctx: &BuildContext) -> (made: Result<BlobTable, BuildError>)
        ensures
            if self@.len() > u32::MAX {
                made is Err && made->Err_0 == BuildError::TooManyBlobs
            } else {
                made matches Ok(table) && table@ == Seq::new(
                    self@.len(),
                    |i: int| entry_of(self@[i], i as u32, ctx.chunk_size, ctx.blob_features),
                )
            },
    {
        if self.blobs.len() > u32::MAX as usize {
            return Err(BuildError::TooManyBlobs);
        }
        let mut entries: Vec<BlobInfo> = Vec::new();
        let mut i: usize = 0;
        while i < self.blobs.len()
            invariant
                i <= self.blobs@.len(),
                self.blobs@.len() <= u32::MAX,
                entries@.len() == i,
                forall|k: int|
                    0 <= k < i ==> (#[trigger] entries@[k])@ == entry_of(
                        self@[k],
                        k as u32,
                        ctx.chunk_size,
                        ctx.blob_features,
                    ),
            decreases self.blobs@.len() - i,
        {
            let acc = &self.blobs[i];
            entries.push(
                BlobInfo {
                    blob_index: i as u32,
                    blob_id: acc.blob_id.clone(),
                    blob_features: ctx.blob_features,
                    chunk_size: ctx.chunk_size,
                    chunk_count: acc.chunk_count,
                    compressor: acc.blob_compressor,
                    compressed_size: acc.current_compressed_offset,
                    uncompressed_size: acc.current_uncompressed_offset,
                    meta_ci_offset: acc.meta_ci_offset,
                    meta_ci_compressed_size: acc.meta_ci_compressed_size,
                    meta_ci_uncompressed_size: acc.meta_ci_uncompressed_size,
                },
            );
            i += 1;
        }
        let table = BlobTable { entries };
        assert(table@ =~= Seq::new(
            self@.len(),
            |i: int| entry_of(self@[i], i as u32, ctx.chunk_size, ctx.blob_features),
        ));
        Ok(table)
    }

    /// A manager without accumulators.
    pub fn new() -> (mgr: BlobManager)
        ensures
            mgr@ == Seq::<BlobContextView>::empty(),
    {
        let mgr = BlobManager { blobs: Vec::new() };
        assert(mgr@ =~= Seq::<BlobContextView>::empty());
        mgr
    }

    /// Looks up the accumulator of the source blob `id`, or creates it
    /// behind the others where the blob has none yet. Returns its blob index.
    /// Where the index does not fit 32 bits, nothing changes.
    pub fn get_or_create_blob_for_chunkdict(&mut self, ctx: &BuildContext, id: &String) -> (place: Result<
        u32,
        BuildError,
    >)
        ensures
            if place_of_blob(old(self)@, id@) > u32::MAX {
                place == Err::<u32, BuildError>(BuildError::TooManyBlobs) && final(self)@ == old(self)@
            } else {
                &&& place == Ok::<u32, BuildError>(place_of_blob(old(self)@, id@) as u32)
                &&& final(self)@ == with_blob(old(self)@, id@, ctx.compressor)
                &&& place_of_blob(old(self)@, id@) < final(self)@.len()
                &&& final(self)@[place_of_blob(old(self)@, id@)].blob_id == Some(id@)
            },
    {
        proof {
            assert(keys_of(self.blobs@) =~= blob_keys(self@));
            lemma_position_of_key(blob_keys(self@), id@);
        }
        match find_keyed(&self.blobs, id) {
            Some(p) => {
                if p > u32::MAX as usize {
                    Err(BuildError::TooManyBlobs)
                } else {
                    Ok(p as u32)
                }
            },
            None => {
                let p = self.blobs.len();
                if p > u32::MAX as usize {
                    Err(BuildError::TooManyBlobs)
                } else {
                    self.blobs.push(BlobContext::new(BlobId::Committed(id.clone()), false, ctx.compressor));
                    assert(self@ =~= with_blob(old(self)@, id@, ctx.compressor));
                    Ok(p as u32)
                }
            },
        }
    }
}

} // verus!
