//! What holds of every filtered chunk list.

use vstd::prelude::*;
use crate::chunk::ChunkdictChunkInfo;
use crate::filter::{
    blob_ids, group_total, kept_chunks, lemma_blob_ids_cover, lemma_blob_ids_distinct, stays, undersized,
    undersized_ids,
};

verus! {

/// Filtering a part of the chunk list by the sizes of the whole list keeps,
/// of every source blob, either all chunks of the part or none.
pub proof fn lemma_group_total_filtered(
    part: Seq<ChunkdictChunkInfo>,
    chunks: Seq<ChunkdictChunkInfo>,
    min_block_size: u64,
    id: Seq<char>,
)
    ensures
        group_total(part.filter(stays(chunks, min_block_size)), id) == if group_total(chunks, id)
            >= min_block_size {
            group_total(part, id)
        } else {
            0
        },
    decreases part.len(),
{
    reveal(Seq::filter);
    if part.len() > 0 {
        let keep = stays(chunks, min_block_size);
        lemma_group_total_filtered(part.drop_last(), chunks, min_block_size, id);
        if keep(part.last()) {
            assert(part.drop_last().filter(keep).push(part.last()).drop_last() =~= part.drop_last().filter(keep));
        }
    }
}

/// Filtering correctness. After filtering,
/// every chunk that is left is a chunk of the list and belongs to a source
/// blob that is not smaller than the minimum;
/// every chunk of such a source blob is left, and every chunk that is not
/// left belongs to a source blob that is smaller than the minimum;
/// of every source blob either all chunks are left, so that its size is
/// what it was, or none;
/// and the source blobs that are reported are exactly those that are
/// smaller than the minimum and have a chunk in the list.
pub proof fn law_filtering(chunks: Seq<ChunkdictChunkInfo>, min_block_size: u64)
    ensures
        forall|i: int|
            0 <= i < kept_chunks(chunks, min_block_size).len() ==> {
                &&& chunks.contains(#[trigger] kept_chunks(chunks, min_block_size)[i])
                &&& group_total(chunks, kept_chunks(chunks, min_block_size)[i].chunk_blob_id@) >= min_block_size
                &&& group_total(
                    kept_chunks(chunks, min_block_size),
                    kept_chunks(chunks, min_block_size)[i].chunk_blob_id@,
                ) >= min_block_size
            },
        forall|i: int|
            0 <= i < chunks.len() ==> (kept_chunks(chunks, min_block_size).contains(#[trigger] chunks[i])
                <==> group_total(chunks, chunks[i].chunk_blob_id@) >= min_block_size),
        forall|id: Seq<char>|
            #[trigger] group_total(kept_chunks(chunks, min_block_size), id) == if group_total(chunks, id)
                >= min_block_size {
                group_total(chunks, id)
            } else {
                0
            },
        forall|i: int|
            0 <= i < chunks.len() ==> (undersized_ids(chunks, min_block_size).contains(
                #[trigger] chunks[i].chunk_blob_id@,
            ) <==> group_total(chunks, chunks[i].chunk_blob_id@) < min_block_size),
        forall|k: int|
            0 <= k < undersized_ids(chunks, min_block_size).len() ==> #[trigger] group_total(
                chunks,
                undersized_ids(chunks, min_block_size)[k],
            ) < min_block_size,
        undersized_ids(chunks, min_block_size).no_duplicates(),
{
    let keep = stays(chunks, min_block_size);
    let small = undersized(chunks, min_block_size);
    let kept = kept_chunks(chunks, min_block_size);
    let ids = blob_ids(chunks);
    let reported = undersized_ids(chunks, min_block_size);
    broadcast use vstd::seq_lib::group_filter_ensures;

    assert forall|id: Seq<char>| #[trigger] group_total(kept, id) == if group_total(chunks, id) >= min_block_size {
        group_total(chunks, id)
    } else {
        0
    } by {
        lemma_group_total_filtered(chunks, chunks, min_block_size, id);
    }
    assert forall|i: int| 0 <= i < kept.len() implies {
        &&& chunks.contains(#[trigger] kept[i])
        &&& group_total(chunks, kept[i].chunk_blob_id@) >= min_block_size
        &&& group_total(kept, kept[i].chunk_blob_id@) >= min_block_size
    } by {
        assert(kept.contains(kept[i]));
        chunks.lemma_filter_contains_rev(keep, kept[i]);
        chunks.lemma_filter_pred(keep, i);
        assert(keep(kept[i]));
    }
    assert forall|i: int| 0 <= i < chunks.len() implies (kept.contains(#[trigger] chunks[i]) <==> group_total(
        chunks,
        chunks[i].chunk_blob_id@,
    ) >= min_block_size) by {
        assert(chunks.contains(chunks[i]));
        if kept.contains(chunks[i]) {
            let at = choose|at: int| 0 <= at < kept.len() && kept[at] == chunks[i];
            chunks.lemma_filter_pred(keep, at);
            assert(keep(kept[at]));
        } else if keep(chunks[i]) {
            chunks.lemma_filter_contains(keep, i);
        }
    }
    assert forall|i: int| 0 <= i < chunks.len() implies (reported.contains(#[trigger] chunks[i].chunk_blob_id@)
        <==> group_total(chunks, chunks[i].chunk_blob_id@) < min_block_size) by {
        let id = chunks[i].chunk_blob_id@;
        lemma_blob_ids_cover(chunks, i);
        if reported.contains(id) {
            let at = choose|at: int| 0 <= at < reported.len() && reported[at] == id;
            ids.lemma_filter_pred(small, at);
            assert(small(reported[at]));
        }
        if small(id) {
            let at = choose|at: int| 0 <= at < ids.len() && ids[at] == id;
            ids.lemma_filter_contains(small, at);
        }
    }
    assert forall|k: int| 0 <= k < reported.len() implies #[trigger] group_total(chunks, reported[k])
        < min_block_size by {
        ids.lemma_filter_pred(small, k);
        assert(small(reported[k]));
    }
    lemma_blob_ids_distinct(chunks);
    lemma_filter_distinct(ids, small);
}

/// A list whose items all pass a filter is left as it is by the filter.
pub proof fn lemma_filter_all<A>(items: Seq<A>, pred: spec_fn(A) -> bool)
    requires
        forall|i: int| 0 <= i < items.len() ==> pred(#[trigger] items[i]),
    ensures
        items.filter(pred) == items,
    decreases items.len(),
{
    reveal(Seq::filter);
    if items.len() > 0 {
        lemma_filter_all(items.drop_last(), pred);
        assert(items.drop_last().push(items.last()) =~= items);
    }
}

/// Filtering twice is filtering once: the chunks that stay all stay again,
/// and no source blob is left to report.
pub proof fn law_filter_idempotent(chunks: Seq<ChunkdictChunkInfo>, min_block_size: u64)
    ensures
        kept_chunks(kept_chunks(chunks, min_block_size), min_block_size) == kept_chunks(chunks, min_block_size),
        undersized_ids(kept_chunks(chunks, min_block_size), min_block_size).len() == 0,
{
    let kept = kept_chunks(chunks, min_block_size);
    law_filtering(chunks, min_block_size);
    law_filtering(kept, min_block_size);
    assert forall|i: int| 0 <= i < kept.len() implies stays(kept, min_block_size)(#[trigger] kept[i]) by {}
    lemma_filter_all(kept, stays(kept, min_block_size));
    let again = undersized_ids(kept, min_block_size);
    if again.len() > 0 {
        let id = again[0];
        broadcast use vstd::seq_lib::group_filter_ensures;

        assert(again.contains(id));
        blob_ids(kept).lemma_filter_contains_rev(undersized(kept, min_block_size), id);
        lemma_blob_ids_from_chunk(kept, id);
        let at = choose|at: int| 0 <= at < kept.len() && kept[at].chunk_blob_id@ == id;
        assert(group_total(kept, kept[at].chunk_blob_id@) >= min_block_size);
        assert(group_total(kept, again[0]) < min_block_size);
    }
}

/// Every identifier among the identifiers of the source blobs is that of a chunk.
pub proof fn lemma_blob_ids_from_chunk(chunks: Seq<ChunkdictChunkInfo>, id: Seq<char>)
    requires
        blob_ids(chunks).contains(id),
    ensures
        exists|at: int| 0 <= at < chunks.len() && (#[trigger] chunks[at]).chunk_blob_id@ == id,
    decreases chunks.len(),
{
    if chunks.len() > 0 {
        let before = blob_ids(chunks.drop_last());
        if before.contains(id) {
            lemma_blob_ids_from_chunk(chunks.drop_last(), id);
            let shorter = chunks.drop_last();
            let at = choose|at: int| 0 <= at < shorter.len() && (#[trigger] shorter[at]).chunk_blob_id@ == id;
            assert(chunks[at].chunk_blob_id@ == id);
        } else {
            assert(chunks[chunks.len() - 1].chunk_blob_id@ == id);
        }
    }
}

/// A filtered list without repeats has no repeats.
pub proof fn lemma_filter_distinct(ids: Seq<Seq<char>>, pred: spec_fn(Seq<char>) -> bool)
    requires
        ids.no_duplicates(),
    ensures
        ids.filter(pred).no_duplicates(),
    decreases ids.len(),
{
    reveal(Seq::filter);
    if ids.len() > 0 {
        let shorter = ids.drop_last();
        lemma_filter_distinct(shorter, pred);
        if pred(ids.last()) {
            let out = shorter.filter(pred);
            assert forall|a: int, b: int| 0 <= a < out.len() + 1 && 0 <= b < out.len() + 1 && a != b implies out.push(
                ids.last(),
            )[a] != out.push(ids.last())[b] by {
                if a < out.len() && b == out.len() {
                    assert(out.contains(out[a]));
                    shorter.lemma_filter_contains_rev(pred, out[a]);
                    assert(shorter.contains(out[a]));
                    let at = choose|at: int| 0 <= at < shorter.len() && shorter[at] == out[a];
                    assert(ids[at] == out[a]);
                }
                if b < out.len() && a == out.len() {
                    assert(out.contains(out[b]));
                    shorter.lemma_filter_contains_rev(pred, out[b]);
                    assert(shorter.contains(out[b]));
                    let at = choose|at: int| 0 <= at < shorter.len() && shorter[at] == out[b];
                    assert(ids[at] == out[b]);
                }
            }
        }
    }
}

} // verus!
