//! Dropping the chunks of source blobs that are smaller than a block.

use vstd::prelude::*;
use crate::chunk::ChunkdictChunkInfo;
use crate::context::BuildContext;
use crate::generator::Generator;
use crate::keyed::{find_keyed, keys_of, lemma_position_of_key, Keyed};

verus! {

/// A source blob whose chunks were dropped: its identifier and the
/// uncompressed size of its chunks together.
#[derive(Debug, PartialEq, Eq)]
pub struct UndersizedBlob {
    pub blob_id: String,
    pub total_size: u64,
}

/// The chunks of one source blob, summed up.
struct BlobGroup {
    blob_id: String,
    total: u128,
}

impl Keyed for BlobGroup {
    closed spec fn key(&self) -> Option<Seq<char>> {
        Some(self.blob_id@)
    }

    fn has_key(&self, id: &String) -> (hit: bool) {
        self.blob_id == *id
    }
}

/// The uncompressed size of the chunks of `chunks` that belong to the source
/// blob `id`, together.
pub open spec fn group_total(chunks: Seq<ChunkdictChunkInfo>, id: Seq<char>) -> nat
    decreases chunks.len(),
{
    if chunks.len() == 0 {
        0
    } else {
        group_total(chunks.drop_last(), id) + if chunks.last().chunk_blob_id@ == id {
            chunks.last().chunk_uncompressed_size as nat
        } else {
            0nat
        }
    }
}

/// The identifiers of the source blobs of `chunks`, each once, in the order
/// in which they first appear.
pub open spec fn blob_ids(chunks: Seq<ChunkdictChunkInfo>) -> Seq<Seq<char>>
    decreases chunks.len(),
{
    if chunks.len() == 0 {
        Seq::empty()
    } else if blob_ids(chunks.drop_last()).contains(chunks.last().chunk_blob_id@) {
        blob_ids(chunks.drop_last())
    } else {
        blob_ids(chunks.drop_last()).push(chunks.last().chunk_blob_id@)
    }
}

/// Whether a chunk stays: its source blob is, over all of `chunks`, not
/// smaller than `min_block_size`.
pub open spec fn stays(chunks: Seq<ChunkdictChunkInfo>, min_block_size: u64) -> spec_fn(ChunkdictChunkInfo) -> bool {
    |chunk: ChunkdictChunkInfo| group_total(chunks, chunk.chunk_blob_id@) >= min_block_size
}

/// Whether a source blob is, over all of `chunks`, smaller than `min_block_size`.
pub open spec fn undersized(chunks: Seq<ChunkdictChunkInfo>, min_block_size: u64) -> spec_fn(Seq<char>) -> bool {
    |id: Seq<char>| group_total(chunks, id) < min_block_size
}

/// The chunks that stay, in their order.
pub open spec fn kept_chunks(chunks: Seq<ChunkdictChunkInfo>, min_block_size: u64) -> Seq<ChunkdictChunkInfo> {
    chunks.filter(stays(chunks, min_block_size))
}

/// The identifiers of the source blobs whose chunks are dropped, each once,
/// in the order in which they first appear.
pub open spec fn undersized_ids(chunks: Seq<ChunkdictChunkInfo>, min_block_size: u64) -> Seq<Seq<char>> {
    blob_ids(chunks).filter(undersized(chunks, min_block_size))
}

/// The identifiers of a list of reports, place by place.
pub open spec fn report_ids(reports: Seq<UndersizedBlob>) -> Seq<Seq<char>> {
    reports.map_values(|report: UndersizedBlob| report.blob_id@)
}

/// No identifier stands twice among the identifiers of the source blobs.
pub proof fn lemma_blob_ids_distinct(chunks: Seq<ChunkdictChunkInfo>)
    ensures
        blob_ids(chunks).no_duplicates(),
    decreases chunks.len(),
{
    if chunks.len() > 0 {
        lemma_blob_ids_distinct(chunks.drop_last());
    }
}

/// The source blob of every chunk stands among the identifiers of the source blobs.
pub proof fn lemma_blob_ids_cover(chunks: Seq<ChunkdictChunkInfo>, j: int)
    requires
        0 <= j < chunks.len(),
    ensures
        blob_ids(chunks).contains(chunks[j].chunk_blob_id@),
    decreases chunks.len(),
{
    let before = blob_ids(chunks.drop_last());
    let last = chunks.last().chunk_blob_id@;
    if j < chunks.len() - 1 {
        lemma_blob_ids_cover(chunks.drop_last(), j);
        let at = choose|at: int| 0 <= at < before.len() && before[at] == chunks[j].chunk_blob_id@;
        if !before.contains(last) {
            assert(before.push(last)[at] == chunks[j].chunk_blob_id@);
        }
    } else {
        if !before.contains(last) {
            assert(before.push(last)[before.len() as int] == last);
        }
    }
}

/// A source blob that does not stand among the identifiers has no chunk:
/// its size is zero.
pub proof fn lemma_group_total_absent(chunks: Seq<ChunkdictChunkInfo>, id: Seq<char>)
    requires
        !blob_ids(chunks).contains(id),
    ensures
        group_total(chunks, id) == 0,
    decreases chunks.len(),
{
    if chunks.len() > 0 {
        let before = blob_ids(chunks.drop_last());
        let last = chunks.last().chunk_blob_id@;
        if before.contains(id) {
            let at = choose|at: int| 0 <= at < before.len() && before[at] == id;
            if !before.contains(last) {
                assert(before.push(last)[at] == id);
            }
        }
        if last == id {
            if !before.contains(last) {
                assert(before.push(last)[before.len() as int] == last);
            }
        }
        lemma_group_total_absent(chunks.drop_last(), id);
    }
}

/// Sums up the uncompressed sizes of the chunks by source blob. The groups
/// come in the order in which the source blobs first appear.
fn group_chunks(chunks: &Vec<ChunkdictChunkInfo>) -> (groups: Vec<BlobGroup>)
    ensures
        groups@.len() == blob_ids(chunks@).len(),
        forall|k: int| 0 <= k < groups@.len() ==> (#[trigger] groups@[k]).blob_id@ == blob_ids(chunks@)[k],
        forall|k: int|
            0 <= k < groups@.len() ==> (#[trigger] groups@[k]).total == group_total(chunks@, blob_ids(chunks@)[k]),
{
    let mut groups: Vec<BlobGroup> = Vec::new();
    let mut i: usize = 0;
    while i < chunks.len()
        invariant
            i <= chunks@.len(),
            groups@.len() == blob_ids(chunks@.take(i as int)).len(),
            forall|k: int|
                0 <= k < groups@.len() ==> (#[trigger] groups@[k]).blob_id@ == blob_ids(chunks@.take(i as int))[k],
            forall|k: int|
                0 <= k < groups@.len() ==> (#[trigger] groups@[k]).total == group_total(
                    chunks@.take(i as int),
                    blob_ids(chunks@.take(i as int))[k],
                ),
            forall|k: int| 0 <= k < groups@.len() ==> (#[trigger] groups@[k]).total <= i * 0xffff_ffff,
        decreases chunks@.len() - i,
    {
        let ghost seen = chunks@.take(i as int);
        let ghost ids = blob_ids(seen);
        let ghost id = chunks@[i as int].chunk_blob_id@;
        let size = chunks[i].chunk_uncompressed_size as u128;
        proof {
            assert(chunks@.take(i + 1).drop_last() =~= seen);
            assert(chunks@.take(i + 1).last() == chunks@[i as int]);
            lemma_blob_ids_distinct(seen);
            lemma_position_of_key(keys_of(groups@), id);
        }
        match find_keyed(&groups, &chunks[i].chunk_blob_id) {
            Some(g) => {
                proof {
                    assert(groups@[g as int].blob_id@ == id);
                    assert(ids[g as int] == id);
                    assert(ids.contains(id));
                }
                let ghost prev = groups@;
                groups[g].total = groups[g].total + size;
                proof {
                    assert forall|k: int| 0 <= k < groups@.len() implies (#[trigger] groups@[k]).total
                        == group_total(chunks@.take(i + 1), blob_ids(chunks@.take(i + 1))[k]) by {
                        assert(prev[k].total == group_total(seen, ids[k]));
                        if k != g {
                            assert(groups@[k] == prev[k]);
                            assert(ids[k] != ids[g as int]);
                        }
                    }
                    assert forall|k: int| 0 <= k < groups@.len() implies (#[trigger] groups@[k]).total <= (i
                        + 1) * 0xffff_ffff by {
                        assert(prev[k].total <= i * 0xffff_ffff);
                    }
                    assert forall|k: int| 0 <= k < groups@.len() implies (#[trigger] groups@[k]).blob_id@
                        == blob_ids(chunks@.take(i + 1))[k] by {
                        assert(prev[k].blob_id@ == ids[k]);
                    }
                }
            },
            None => {
                proof {
                    if ids.contains(id) {
                        let at = choose|at: int| 0 <= at < ids.len() && ids[at] == id;
                        assert(groups@[at].blob_id@ == id);
                        assert(keys_of(groups@)[at] == Some(id));
                    }
                    lemma_group_total_absent(seen, id);
                }
                let ghost prev = groups@;
                groups.push(BlobGroup { blob_id: chunks[i].chunk_blob_id.clone(), total: size });
                proof {
                    assert forall|k: int| 0 <= k < groups@.len() implies (#[trigger] groups@[k]).total
                        == group_total(chunks@.take(i + 1), blob_ids(chunks@.take(i + 1))[k]) by {
                        if k < prev.len() {
                            assert(prev[k].total == group_total(seen, ids[k]));
                            assert(ids.contains(ids[k]));
                        }
                    }
                    assert forall|k: int| 0 <= k < groups@.len() implies (#[trigger] groups@[k]).total <= (i
                        + 1) * 0xffff_ffff by {
                        if k < prev.len() {
                            assert(prev[k].total <= i * 0xffff_ffff);
                        }
                    }
                    assert forall|k: int| 0 <= k < groups@.len() implies (#[trigger] groups@[k]).blob_id@
                        == blob_ids(chunks@.take(i + 1))[k] by {
                        if k < prev.len() {
                            assert(prev[k].blob_id@ == ids[k]);
                        }
                    }
                }
            },
        }
        i += 1;
    }
    proof {
        assert(chunks@.take(chunks@.len() as int) =~= chunks@);
    }
    groups
}

impl Generator {
    /// Drops the chunks of every source blob whose chunks are, together,
    /// smaller than `min_block_size`. Returns the chunks that stay, in their
    /// order, and one report for each source blob that was dropped.
    pub fn validate_and_filter(chunks: &Vec<ChunkdictChunkInfo>, min_block_size: u64) -> (out: (
        Vec<ChunkdictChunkInfo>,
        Vec<UndersizedBlob>,
    ))
        ensures
            out.0@ == kept_chunks(chunks@, min_block_size),
            report_ids(out.1@) == undersized_ids(chunks@, min_block_size),
            forall|k: int|
                0 <= k < out.1@.len() ==> (#[trigger] out.1@[k]).total_size == group_total(
                    chunks@,
                    out.1@[k].blob_id@,
                ),
    {
        let groups = group_chunks(chunks);
        let ghost ids = blob_ids(chunks@);
        let ghost small = undersized(chunks@, min_block_size);
        let ghost keep = stays(chunks@, min_block_size);
        let mut dropped: Vec<UndersizedBlob> = Vec::new();
        let mut g: usize = 0;
        proof {
            reveal(Seq::filter);
            assert(report_ids(dropped@) =~= ids.take(0).filter(small));
        }
        while g < groups.len()
            invariant
                g <= groups@.len(),
                ids == blob_ids(chunks@),
                small == undersized(chunks@, min_block_size),
                groups@.len() == ids.len(),
                forall|k: int| 0 <= k < groups@.len() ==> (#[trigger] groups@[k]).blob_id@ == ids[k],
                forall|k: int| 0 <= k < groups@.len() ==> (#[trigger] groups@[k]).total == group_total(chunks@, ids[k]),
                report_ids(dropped@) == ids.take(g as int).filter(small),
                forall|k: int|
                    0 <= k < dropped@.len() ==> (#[trigger] dropped@[k]).total_size == group_total(
                        chunks@,
                        dropped@[k].blob_id@,
                    ),
            decreases groups@.len() - g,
        {
            proof {
                assert(ids.take(g + 1) =~= ids.take(g as int).push(ids[g as int]));
                ids.take(g as int).lemma_filter_push(ids[g as int], small);
            }
            if groups[g].total < min_block_size as u128 {
                let ghost prev = dropped@;
                dropped.push(
                    UndersizedBlob { blob_id: groups[g].blob_id.clone(), total_size: groups[g].total as u64 },
                );
                proof {
                    assert(report_ids(dropped@) =~= report_ids(prev).push(ids[g as int]));
                }
            }
            g += 1;
        }
        proof {
            assert(ids.take(ids.len() as int) =~= ids);
        }
        let mut kept: Vec<ChunkdictChunkInfo> = Vec::new();
        let mut i: usize = 0;
        proof {
            reveal(Seq::filter);
            assert(kept@ =~= chunks@.take(0).filter(keep));
        }
        while i < chunks.len()
            invariant
                i <= chunks@.len(),
                ids == blob_ids(chunks@),
                keep == stays(chunks@, min_block_size),
                groups@.len() == ids.len(),
                forall|k: int| 0 <= k < groups@.len() ==> (#[trigger] groups@[k]).blob_id@ == ids[k],
                forall|k: int| 0 <= k < groups@.len() ==> (#[trigger] groups@[k]).total == group_total(chunks@, ids[k]),
                kept@ == chunks@.take(i as int).filter(keep),
            decreases chunks@.len() - i,
        {
            let ghost id = chunks@[i as int].chunk_blob_id@;
            proof {
                assert(chunks@.take(i + 1) =~= chunks@.take(i as int).push(chunks@[i as int]));
                chunks@.take(i as int).lemma_filter_push(chunks@[i as int], keep);
                lemma_blob_ids_cover(chunks@, i as int);
                lemma_position_of_key(keys_of(groups@), id);
                let at = choose|at: int| 0 <= at < ids.len() && ids[at] == id;
                assert(groups@[at].blob_id@ == id);
                assert(keys_of(groups@)[at] == Some(id));
            }
            match find_keyed(&groups, &chunks[i].chunk_blob_id) {
                Some(at) => {
                    assert(groups@[at as int].blob_id@ == id);
                    if groups[at].total >= min_block_size as u128 {
                        kept.push(chunks[i].clone());
                    }
                },
                None => {
                    assert(false);
                },
            }
            i += 1;
        }
        proof {
            assert(chunks@.take(chunks@.len() as int) =~= chunks@);
        }
        (kept, dropped)
    }

    /// Drops, from `chunkdict`, the chunks of every source blob whose chunks
    /// are together smaller than a block of the filesystem that is built.
    /// Returns one report for each source blob that was dropped.
    pub fn validate_and_remove_chunks(ctx: &BuildContext, chunkdict: &mut Vec<ChunkdictChunkInfo>) -> (dropped: Vec<
        UndersizedBlob,
    >)
        ensures
            final(chunkdict)@ == kept_chunks(old(chunkdict)@, ctx.v6_block_size()),
            report_ids(dropped@) == undersized_ids(old(chunkdict)@, ctx.v6_block_size()),
            forall|k: int|
                0 <= k < dropped@.len() ==> (#[trigger] dropped@[k]).total_size == group_total(
                    old(chunkdict)@,
                    dropped@[k].blob_id@,
                ),
    {
        let (kept, dropped) = Self::validate_and_filter(chunkdict, ctx.v6_block_size());
        *chunkdict = kept;
        dropped
    }
}

} // verus!
