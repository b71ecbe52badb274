//! What holds of every chunk dictionary that is built.

use vstd::prelude::*;
use crate::align::lemma_round_up_4k;
use crate::blob::{uncompressed_advance, BlobContextView};
use crate::chunk::{ChunkdictBlobInfo, ChunkdictChunkInfo};
use crate::compress::Algorithm;
use crate::dict::{dict_chunk, dict_chunks, dict_failure, dict_failure_at, dict_insertable, dict_step, mgr_after};
use crate::keyed::{is_first_key, lemma_position_of_first, lemma_position_of_key, position_of_key};
use crate::filter::group_total;
use crate::manager::{blob_keys, place_of_blob, with_blob};


verus! {

/// How many chunks of `chunks` belong to the source blob `id`.
pub open spec fn count_of(chunks: Seq<ChunkdictChunkInfo>, id: Seq<char>) -> nat
    decreases chunks.len(),
{
    if chunks.len() == 0 {
        0
    } else {
        count_of(chunks.drop_last(), id) + if chunks.last().chunk_blob_id@ == id {
            1nat
        } else {
            0nat
        }
    }
}

/// The chunk count of the accumulator of the blob `id`; zero where the blob
/// has no accumulator.
pub open spec fn count_for(mgr: Seq<BlobContextView>, id: Seq<char>) -> int {
    match position_of_key(blob_keys(mgr), id) {
        Some(p) => mgr[p].chunk_count as int,
        None => 0,
    }
}

/// The compressed offset of the accumulator of the blob `id`; zero where the
/// blob has no accumulator.
pub open spec fn compressed_for(mgr: Seq<BlobContextView>, id: Seq<char>) -> int {
    match position_of_key(blob_keys(mgr), id) {
        Some(p) => mgr[p].current_compressed_offset as int,
        None => 0,
    }
}

/// The uncompressed offset of the accumulator of the blob `id`; zero where
/// the blob has no accumulator.
pub open spec fn uncompressed_for(mgr: Seq<BlobContextView>, id: Seq<char>) -> int {
    match position_of_key(blob_keys(mgr), id) {
        Some(p) => mgr[p].current_uncompressed_offset as int,
        None => 0,
    }
}

/// Whether the accumulator of the blob `id` keeps its chunks aligned; an
/// accumulator that is yet to be created does not.
pub open spec fn aligned_for(mgr: Seq<BlobContextView>, id: Seq<char>) -> bool {
    match position_of_key(blob_keys(mgr), id) {
        Some(p) => mgr[p].aligned,
        None => false,
    }
}

/// The compressed sizes of the chunks of `chunks` that belong to the source
/// blob `id`, together.
pub open spec fn group_compressed(chunks: Seq<ChunkdictChunkInfo>, id: Seq<char>) -> nat
    decreases chunks.len(),
{
    if chunks.len() == 0 {
        0
    } else {
        group_compressed(chunks.drop_last(), id) + if chunks.last().chunk_blob_id@ == id {
            chunks.last().chunk_compressed_size as nat
        } else {
            0nat
        }
    }
}

/// By how much the chunks of `chunks` that belong to the source blob `id`
/// move the uncompressed offset of a blob.
pub open spec fn group_advance(aligned: bool, chunks: Seq<ChunkdictChunkInfo>, id: Seq<char>) -> nat
    decreases chunks.len(),
{
    if chunks.len() == 0 {
        0
    } else {
        group_advance(aligned, chunks.drop_last(), id) + if chunks.last().chunk_blob_id@ == id {
            uncompressed_advance(aligned, chunks.last().chunk_uncompressed_size) as nat
        } else {
            0nat
        }
    }
}

/// One inserted chunk leaves every accumulator at its place, puts the
/// accumulator of its source blob where the chunk is bound to, and raises
/// the chunk count of that accumulator, and of no other, by one. The chunk
/// takes the count as it stood for its index.
pub proof fn lemma_dict_step(
    mgr: Seq<BlobContextView>,
    chunk: ChunkdictChunkInfo,
    index: int,
    blobs: Seq<ChunkdictBlobInfo>,
    fallback: Algorithm,
    id: Seq<char>,
)
    requires
        dict_failure(mgr, chunk, index, blobs, fallback) is None,
    ensures
        ({
            let next = dict_step(mgr, chunk, blobs, fallback);
            let made = dict_chunk(mgr, chunk, index, fallback);
            &&& made.index == count_for(mgr, chunk.chunk_blob_id@)
            &&& position_of_key(blob_keys(next), chunk.chunk_blob_id@) == Some(made.blob_index as int)
            &&& id != chunk.chunk_blob_id@ ==> position_of_key(blob_keys(next), id) == position_of_key(
                blob_keys(mgr),
                id,
            )
            &&& count_for(next, id) == count_for(mgr, id) + if id == chunk.chunk_blob_id@ {
                1int
            } else {
                0int
            }
            &&& compressed_for(next, id) == compressed_for(mgr, id) + if id == chunk.chunk_blob_id@ {
                chunk.chunk_compressed_size as int
            } else {
                0int
            }
            &&& uncompressed_for(next, id) == uncompressed_for(mgr, id) + if id == chunk.chunk_blob_id@ {
                uncompressed_advance(aligned_for(mgr, id), chunk.chunk_uncompressed_size)
            } else {
                0int
            }
            &&& aligned_for(next, id) == aligned_for(mgr, id)
        }),
{
    lemma_round_up_4k(chunk.chunk_uncompressed_size as int);
    let own = chunk.chunk_blob_id@;
    let next = dict_step(mgr, chunk, blobs, fallback);
    let grown = with_blob(mgr, own, fallback);
    let p = place_of_blob(mgr, own);
    lemma_position_of_key(blob_keys(mgr), own);
    lemma_position_of_key(blob_keys(mgr), id);
    assert(grown[p].blob_id == Some(own));
    assert(blob_keys(next) =~= blob_keys(grown));
    assert forall|j: int| 0 <= j < mgr.len() implies #[trigger] blob_keys(next)[j] == blob_keys(mgr)[j] by {
        assert(grown[j] == mgr[j]);
    }
    assert(blob_keys(next)[p] == Some(own));
    assert(is_first_key(blob_keys(next), own, p));
    lemma_position_of_first(blob_keys(next), own, p);
    if id != own {
        match position_of_key(blob_keys(mgr), id) {
            Some(q) => {
                assert(is_first_key(blob_keys(next), id, q));
                lemma_position_of_first(blob_keys(next), id, q);
            },
            None => {
                lemma_position_of_key(blob_keys(next), id);
                if position_of_key(blob_keys(next), id) is Some {
                    let q = position_of_key(blob_keys(next), id).unwrap();
                    if q < mgr.len() {
                        assert(blob_keys(mgr)[q] != Some(id));
                    }
                }
            },
        }
    }
}

/// Where every chunk of `chunks` can be inserted in its turn, so can every
/// chunk of a front part of `chunks`, and the accumulators after the front
/// part are those of the whole list at that point.
pub proof fn lemma_dict_prefix(
    mgr: Seq<BlobContextView>,
    chunks: Seq<ChunkdictChunkInfo>,
    n: int,
    blobs: Seq<ChunkdictBlobInfo>,
    fallback: Algorithm,
)
    requires
        0 <= n <= chunks.len(),
        dict_insertable(mgr, chunks, blobs, fallback),
    ensures
        dict_insertable(mgr, chunks.take(n), blobs, fallback),
{
    let front = chunks.take(n);
    assert forall|i: int| 0 <= i < front.len() implies #[trigger] dict_failure_at(
        mgr,
        front,
        i,
        blobs,
        fallback,
    ) is None by {
        assert(front.take(i) =~= chunks.take(i));
        assert(dict_failure_at(mgr, chunks, i, blobs, fallback) is None);
    }
}

/// Where every chunk of `chunks` can be inserted in its turn, the
/// accumulator of every source blob has, afterwards, counted the chunks of
/// that blob on top of what it had counted, and an accumulator that had a
/// place keeps it.
pub proof fn lemma_dict_counts(
    mgr: Seq<BlobContextView>,
    chunks: Seq<ChunkdictChunkInfo>,
    blobs: Seq<ChunkdictBlobInfo>,
    fallback: Algorithm,
    id: Seq<char>,
)
    requires
        dict_insertable(mgr, chunks, blobs, fallback),
    ensures
        count_for(mgr_after(mgr, chunks, blobs, fallback), id) == count_for(mgr, id) + count_of(chunks, id),
        compressed_for(mgr_after(mgr, chunks, blobs, fallback), id) == compressed_for(mgr, id) + group_compressed(
            chunks,
            id,
        ),
        uncompressed_for(mgr_after(mgr, chunks, blobs, fallback), id) == uncompressed_for(mgr, id) + group_advance(
            aligned_for(mgr, id),
            chunks,
            id,
        ),
        aligned_for(mgr_after(mgr, chunks, blobs, fallback), id) == aligned_for(mgr, id),
        position_of_key(blob_keys(mgr), id) is Some ==> position_of_key(
            blob_keys(mgr_after(mgr, chunks, blobs, fallback)),
            id,
        ) == position_of_key(blob_keys(mgr), id),
    decreases chunks.len(),
{
    if chunks.len() > 0 {
        let n = chunks.len() - 1;
        lemma_dict_prefix(mgr, chunks, n, blobs, fallback);
        assert(chunks.take(n) =~= chunks.drop_last());
        lemma_dict_counts(mgr, chunks.drop_last(), blobs, fallback, id);
        assert(dict_failure_at(mgr, chunks, n, blobs, fallback) is None);
        lemma_dict_step(mgr_after(mgr, chunks.drop_last(), blobs, fallback), chunks.last(), n, blobs, fallback, id);
    }
}

/// The place that the accumulator of a source blob has after a front part
/// of the chunks was inserted is its place after all were.
pub proof fn lemma_dict_place_stays(
    mgr: Seq<BlobContextView>,
    chunks: Seq<ChunkdictChunkInfo>,
    n: int,
    blobs: Seq<ChunkdictBlobInfo>,
    fallback: Algorithm,
    id: Seq<char>,
)
    requires
        0 <= n <= chunks.len(),
        dict_insertable(mgr, chunks, blobs, fallback),
        position_of_key(blob_keys(mgr_after(mgr, chunks.take(n), blobs, fallback)), id) is Some,
    ensures
        position_of_key(blob_keys(mgr_after(mgr, chunks, blobs, fallback)), id) == position_of_key(
            blob_keys(mgr_after(mgr, chunks.take(n), blobs, fallback)),
            id,
        ),
    decreases chunks.len() - n,
{
    if n == chunks.len() {
        assert(chunks.take(n) =~= chunks);
    } else {
        let m = chunks.len() - 1;
        lemma_dict_prefix(mgr, chunks, m, blobs, fallback);
        assert(chunks.take(m) =~= chunks.drop_last());
        assert(chunks.drop_last().take(n) =~= chunks.take(n));
        lemma_dict_place_stays(mgr, chunks.drop_last(), n, blobs, fallback, id);
        assert(dict_failure_at(mgr, chunks, m, blobs, fallback) is None);
        lemma_dict_step(mgr_after(mgr, chunks.drop_last(), blobs, fallback), chunks.last(), m, blobs, fallback, id);
    }
}

/// Index density and running totals. Where a chunk dictionary is built, the chunk that stands
/// for a described chunk carries, as its index, the number of chunks of the
/// same source blob that stand before it, on top of what the blob's
/// accumulator had counted before; so the chunks of one source blob carry
/// the indices from that count on, one by one, without a gap or a repeat.
/// The chunk is bound to the accumulator of its source blob, and that
/// accumulator has, in the end, counted every chunk of its blob and moved
/// its offsets by the sizes of those chunks.
pub proof fn law_dict_index_density(
    mgr: Seq<BlobContextView>,
    chunks: Seq<ChunkdictChunkInfo>,
    blobs: Seq<ChunkdictBlobInfo>,
    fallback: Algorithm,
)
    requires
        dict_insertable(mgr, chunks, blobs, fallback),
    ensures
        forall|i: int|
            0 <= i < chunks.len() ==> {
                let made = #[trigger] dict_chunks(mgr, chunks, blobs, fallback)[i];
                &&& made.index == count_for(mgr, chunks[i].chunk_blob_id@) + count_of(
                    chunks.take(i),
                    chunks[i].chunk_blob_id@,
                )
                &&& position_of_key(blob_keys(mgr_after(mgr, chunks, blobs, fallback)), chunks[i].chunk_blob_id@)
                    == Some(made.blob_index as int)
                &&& made.digest == chunks[i].chunk_digest
                &&& made.compressed_size == chunks[i].chunk_compressed_size
                &&& made.uncompressed_size == chunks[i].chunk_uncompressed_size
                &&& made.compressed_offset == chunks[i].chunk_compressed_offset
                &&& made.uncompressed_offset == chunks[i].chunk_uncompressed_offset
            },
        forall|id: Seq<char>|
            #[trigger] count_for(mgr_after(mgr, chunks, blobs, fallback), id) == count_for(mgr, id) + count_of(
                chunks,
                id,
            ),
        forall|id: Seq<char>|
            #[trigger] compressed_for(mgr_after(mgr, chunks, blobs, fallback), id) == compressed_for(mgr, id)
                + group_compressed(chunks, id),
        forall|id: Seq<char>|
            #[trigger] uncompressed_for(mgr_after(mgr, chunks, blobs, fallback), id) == uncompressed_for(mgr, id)
                + group_advance(aligned_for(mgr, id), chunks, id),
{
    assert forall|i: int| 0 <= i < chunks.len() implies {
        let made = #[trigger] dict_chunks(mgr, chunks, blobs, fallback)[i];
        &&& made.index == count_for(mgr, chunks[i].chunk_blob_id@) + count_of(chunks.take(i), chunks[i].chunk_blob_id@)
        &&& position_of_key(blob_keys(mgr_after(mgr, chunks, blobs, fallback)), chunks[i].chunk_blob_id@) == Some(
            made.blob_index as int,
        )
        &&& made.digest == chunks[i].chunk_digest
        &&& made.compressed_size == chunks[i].chunk_compressed_size
        &&& made.uncompressed_size == chunks[i].chunk_uncompressed_size
        &&& made.compressed_offset == chunks[i].chunk_compressed_offset
        &&& made.uncompressed_offset == chunks[i].chunk_uncompressed_offset
    } by {
        let id = chunks[i].chunk_blob_id@;
        let at = mgr_after(mgr, chunks.take(i), blobs, fallback);
        lemma_dict_prefix(mgr, chunks, i, blobs, fallback);
        lemma_dict_counts(mgr, chunks.take(i), blobs, fallback, id);
        assert(dict_failure_at(mgr, chunks, i, blobs, fallback) is None);
        lemma_dict_step(at, chunks[i], i, blobs, fallback, id);
        assert(chunks.take(i + 1).drop_last() =~= chunks.take(i));
        assert(chunks.take(i + 1).last() == chunks[i]);
        lemma_dict_place_stays(mgr, chunks, i + 1, blobs, fallback, id);
    }
    assert forall|id: Seq<char>| #[trigger] count_for(mgr_after(mgr, chunks, blobs, fallback), id) == count_for(
        mgr,
        id,
    ) + count_of(chunks, id) by {
        lemma_dict_counts(mgr, chunks, blobs, fallback, id);
    }
    assert forall|id: Seq<char>| #[trigger] compressed_for(mgr_after(mgr, chunks, blobs, fallback), id)
        == compressed_for(mgr, id) + group_compressed(chunks, id) by {
        lemma_dict_counts(mgr, chunks, blobs, fallback, id);
    }
    assert forall|id: Seq<char>| #[trigger] uncompressed_for(mgr_after(mgr, chunks, blobs, fallback), id)
        == uncompressed_for(mgr, id) + group_advance(aligned_for(mgr, id), chunks, id) by {
        lemma_dict_counts(mgr, chunks, blobs, fallback, id);
    }
}

/// Chunks that are not kept aligned move the uncompressed offset by their
/// uncompressed sizes.
pub proof fn lemma_group_advance_plain(chunks: Seq<ChunkdictChunkInfo>, id: Seq<char>)
    ensures
        group_advance(false, chunks, id) == group_total(chunks, id),
    decreases chunks.len(),
{
    if chunks.len() > 0 {
        lemma_group_advance_plain(chunks.drop_last(), id);
    }
}

/// The sizes of the chunks of a source blob among the first `n` chunks are
/// within those among the first `m`, for `n` not above `m`.
pub proof fn lemma_group_sums_grow(aligned: bool, chunks: Seq<ChunkdictChunkInfo>, n: int, m: int, id: Seq<char>)
    requires
        0 <= n <= m <= chunks.len(),
    ensures
        group_compressed(chunks.take(n), id) <= group_compressed(chunks.take(m), id),
        group_advance(aligned, chunks.take(n), id) <= group_advance(aligned, chunks.take(m), id),
    decreases m - n,
{
    if n < m {
        lemma_group_sums_grow(aligned, chunks, n, m - 1, id);
        assert(chunks.take(m).drop_last() =~= chunks.take(m - 1));
    }
}

/// Offset monotonicity. While a chunk dictionary is built, the compressed
/// and the uncompressed offset of the accumulator of every source blob never
/// fall from one inserted chunk to a later one. In the end the uncompressed
/// offset of an accumulator that does not keep its chunks aligned, as every
/// accumulator does that the builder creates, has grown by the uncompressed
/// sizes of the chunks of its blob, and the compressed offset by their
/// compressed sizes.
pub proof fn law_dict_offsets_monotone(
    mgr: Seq<BlobContextView>,
    chunks: Seq<ChunkdictChunkInfo>,
    blobs: Seq<ChunkdictBlobInfo>,
    fallback: Algorithm,
    n: int,
    m: int,
    id: Seq<char>,
)
    requires
        dict_insertable(mgr, chunks, blobs, fallback),
        0 <= n <= m <= chunks.len(),
    ensures
        compressed_for(mgr_after(mgr, chunks.take(n), blobs, fallback), id) <= compressed_for(
            mgr_after(mgr, chunks.take(m), blobs, fallback),
            id,
        ),
        uncompressed_for(mgr_after(mgr, chunks.take(n), blobs, fallback), id) <= uncompressed_for(
            mgr_after(mgr, chunks.take(m), blobs, fallback),
            id,
        ),
        compressed_for(mgr, id) <= compressed_for(mgr_after(mgr, chunks, blobs, fallback), id),
        uncompressed_for(mgr, id) <= uncompressed_for(mgr_after(mgr, chunks, blobs, fallback), id),
        compressed_for(mgr_after(mgr, chunks, blobs, fallback), id) == compressed_for(mgr, id) + group_compressed(
            chunks,
            id,
        ),
        !aligned_for(mgr, id) ==> uncompressed_for(mgr_after(mgr, chunks, blobs, fallback), id) == uncompressed_for(
            mgr,
            id,
        ) + group_total(chunks, id),
{
    lemma_dict_prefix(mgr, chunks, n, blobs, fallback);
    lemma_dict_prefix(mgr, chunks, m, blobs, fallback);
    lemma_dict_counts(mgr, chunks.take(n), blobs, fallback, id);
    lemma_dict_counts(mgr, chunks.take(m), blobs, fallback, id);
    lemma_dict_counts(mgr, chunks, blobs, fallback, id);
    lemma_group_sums_grow(aligned_for(mgr, id), chunks, n, m, id);
    lemma_group_advance_plain(chunks, id);
}

} // verus!
