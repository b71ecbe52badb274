//! What holds of every blob that repacking produces.

use vstd::prelude::*;
use crate::align::lemma_round_up_4k;
use crate::blob::{
    law_reserve_monotone, uncompressed_advance, BlobContextView, CHUNK_META_RECORD_SIZE, META_HEADER_SIZE,
};
use crate::chunk::NodeChunk;
use crate::compress::Algorithm;
use crate::context::BlobInfoView;
use crate::error::BuildError;
use crate::prefetch::{
    acc_after, acc_after_nodes, bytes_after_nodes, chunk_bytes, chunk_failure_at, chunk_source, committed_table,
    pending_count, prefetch_entry, repacked_at, repacked_chunks, selection_ok_at, source_bytes, tree_repacked,
};
use crate::keyed::{is_first_key, keys_of, lemma_position_of_first, lemma_position_of_key, position_of};
use crate::reader::{range_of, BlobData};
use crate::tree::Tree;

verus! {

/// The sum of the compressed sizes of `chunks`.
pub open spec fn compressed_total(chunks: Seq<NodeChunk>) -> nat
    decreases chunks.len(),
{
    if chunks.len() == 0 {
        0
    } else {
        compressed_total(chunks.drop_last()) + chunks.last().compressed_size as nat
    }
}

/// By how much `chunks` move the uncompressed offset of a blob.
pub open spec fn advance_total(aligned: bool, chunks: Seq<NodeChunk>) -> nat
    decreases chunks.len(),
{
    if chunks.len() == 0 {
        0
    } else {
        advance_total(aligned, chunks.drop_last()) + uncompressed_advance(
            aligned,
            chunks.last().uncompressed_size,
        ) as nat
    }
}

/// Where every chunk of `chunks` can be moved, the accumulator afterwards
/// has counted the chunks, has summed their sizes into its offsets, has
/// hashed their stored bytes, and holds one table record more per chunk.
/// An accumulator that was in good order stays so.
pub proof fn lemma_acc_after(
    acc: BlobContextView,
    chunks: Seq<NodeChunk>,
    table: Seq<BlobInfoView>,
    store: Seq<BlobData>,
    blob_index: u32,
)
    requires
        forall|i: int|
            0 <= i < chunks.len() ==> #[trigger] chunk_failure_at(acc, chunks, i, table, store, blob_index) is None,
    ensures
        ({
            let after = acc_after(acc, chunks, table, store, blob_index);
            &&& after.chunk_count == acc.chunk_count + chunks.len()
            &&& after.current_compressed_offset == acc.current_compressed_offset + compressed_total(chunks)
            &&& after.current_uncompressed_offset == acc.current_uncompressed_offset + advance_total(
                acc.aligned,
                chunks,
            )
            &&& after.hashed == acc.hashed + source_bytes(chunks, table, store)
            &&& after.blob_meta_info.len() == acc.blob_meta_info.len() + chunks.len()
            &&& after.aligned == acc.aligned
            &&& after.blob_id == acc.blob_id
            &&& after.blob_compressor == acc.blob_compressor
            &&& acc.wf() ==> after.wf()
            &&& acc.in_step() ==> after.in_step()
        }),
    decreases chunks.len(),
{
    if chunks.len() == 0 {
        assert(acc.hashed + source_bytes(chunks, table, store) =~= acc.hashed);
    } else {
        let shorter = chunks.drop_last();
        let n = chunks.len() - 1;
        assert forall|i: int| 0 <= i < shorter.len() implies #[trigger] chunk_failure_at(
            acc,
            shorter,
            i,
            table,
            store,
            blob_index,
        ) is None by {
            assert(shorter.take(i) =~= chunks.take(i));
            assert(chunk_failure_at(acc, chunks, i, table, store, blob_index) is None);
        }
        lemma_acc_after(acc, shorter, table, store, blob_index);
        let before = acc_after(acc, shorter, table, store, blob_index);
        assert(chunks.take(n) =~= shorter);
        assert(chunk_failure_at(acc, chunks, n, table, store, blob_index) is None);
        let last = chunks.last();
        law_reserve_monotone(before.absorbing(chunk_bytes(last, table, store)), last.compressed_size, last.uncompressed_size);
        lemma_round_up_4k(last.uncompressed_size as int);
        assert(acc.hashed + source_bytes(shorter, table, store) + chunk_bytes(last, table, store) =~= acc.hashed
            + source_bytes(chunks, table, store));
        if acc.in_step() {
            assert(before.chunk_count * CHUNK_META_RECORD_SIZE + CHUNK_META_RECORD_SIZE <= u64::MAX);
        }
    }
}

/// The stored bytes of a list of chunks are as long as the chunks'
/// compressed sizes together, where the bytes of each can be had.
pub proof fn lemma_source_bytes_len(chunks: Seq<NodeChunk>, table: Seq<BlobInfoView>, store: Seq<BlobData>)
    requires
        forall|i: int| 0 <= i < chunks.len() ==> (#[trigger] chunk_source(chunks[i], table, store)) is Ok,
    ensures
        source_bytes(chunks, table, store).len() == compressed_total(chunks),
    decreases chunks.len(),
{
    if chunks.len() > 0 {
        let shorter = chunks.drop_last();
        assert forall|i: int| 0 <= i < shorter.len() implies (#[trigger] chunk_source(
            shorter[i],
            table,
            store,
        )) is Ok by {
            assert(chunk_source(chunks[i], table, store) is Ok);
        }
        lemma_source_bytes_len(shorter, table, store);
        assert(chunk_source(chunks[chunks.len() - 1], table, store) is Ok);
    }
}

/// The stored bytes of the first `i` chunks of a list open the stored bytes
/// of the whole list.
pub proof fn lemma_source_bytes_prefix(chunks: Seq<NodeChunk>, i: int, table: Seq<BlobInfoView>, store: Seq<BlobData>)
    requires
        0 <= i <= chunks.len(),
    ensures
        source_bytes(chunks.take(i), table, store).len() <= source_bytes(chunks, table, store).len(),
        source_bytes(chunks, table, store).take(source_bytes(chunks.take(i), table, store).len() as int)
            == source_bytes(chunks.take(i), table, store),
    decreases chunks.len() - i,
{
    if i == chunks.len() {
        assert(chunks.take(i) =~= chunks);
        assert(source_bytes(chunks, table, store).take(source_bytes(chunks, table, store).len() as int)
            =~= source_bytes(chunks, table, store));
    } else {
        let shorter = chunks.drop_last();
        lemma_source_bytes_prefix(shorter, i, table, store);
        assert(shorter.take(i) =~= chunks.take(i));
        let head = source_bytes(chunks.take(i), table, store);
        assert(source_bytes(chunks, table, store).take(head.len() as int) =~= source_bytes(shorter, table, store).take(
            head.len() as int,
        ));
    }
}

/// The chunks of the nodes at the first `k` places of a selection, in the
/// order in which repacking takes them.
pub open spec fn selected_sequence(tree: Tree, nodes: Seq<usize>, k: int) -> Seq<NodeChunk>
    decreases k,
{
    if k <= 0 {
        Seq::empty()
    } else {
        selected_sequence(tree, nodes, k - 1) + tree.nodes@[nodes[k - 1] as int].chunks@
    }
}

/// Every node at the first `k` places of the selection can be moved in its turn.
pub open spec fn selection_ok(
    tree: Tree,
    nodes: Seq<usize>,
    k: int,
    table: Seq<BlobInfoView>,
    store: Seq<BlobData>,
    blob_index: u32,
) -> bool {
    forall|j: int| 0 <= j < k ==> #[trigger] selection_ok_at(tree, nodes, j, table, store, blob_index)
}

/// Moving two lists of chunks one after the other is moving their
/// concatenation, for the accumulator and for the bytes written.
pub proof fn lemma_acc_after_concat(
    acc: BlobContextView,
    a: Seq<NodeChunk>,
    b: Seq<NodeChunk>,
    table: Seq<BlobInfoView>,
    store: Seq<BlobData>,
    blob_index: u32,
)
    ensures
        acc_after(acc, a + b, table, store, blob_index) == acc_after(
            acc_after(acc, a, table, store, blob_index),
            b,
            table,
            store,
            blob_index,
        ),
        source_bytes(a + b, table, store) == source_bytes(a, table, store) + source_bytes(b, table, store),
    decreases b.len(),
{
    if b.len() == 0 {
        assert(a + b =~= a);
        assert(source_bytes(a, table, store) + source_bytes(b, table, store) =~= source_bytes(a, table, store));
    } else {
        lemma_acc_after_concat(acc, a, b.drop_last(), table, store, blob_index);
        assert((a + b).drop_last() =~= a + b.drop_last());
        assert((a + b).last() == b.last());
        assert(source_bytes(a, table, store) + source_bytes(b.drop_last(), table, store) + chunk_bytes(
            b.last(),
            table,
            store,
        ) =~= source_bytes(a, table, store) + source_bytes(b, table, store));
    }
}

/// Moving the selected nodes in their turn is moving the chunks of the
/// selection in their order.
pub proof fn lemma_nodes_as_sequence(
    tree: Tree,
    nodes: Seq<usize>,
    k: int,
    table: Seq<BlobInfoView>,
    store: Seq<BlobData>,
    blob_index: u32,
)
    requires
        0 <= k <= nodes.len(),
    ensures
        acc_after_nodes(tree, nodes, k, table, store, blob_index) == acc_after(
            BlobContextView::fresh(None, true, Algorithm::Zstd),
            selected_sequence(tree, nodes, k),
            table,
            store,
            blob_index,
        ),
        bytes_after_nodes(tree, nodes, k, table, store) == source_bytes(
            selected_sequence(tree, nodes, k),
            table,
            store,
        ),
    decreases k,
{
    if k > 0 {
        lemma_nodes_as_sequence(tree, nodes, k - 1, table, store, blob_index);
        lemma_acc_after_concat(
            BlobContextView::fresh(None, true, Algorithm::Zstd),
            selected_sequence(tree, nodes, k - 1),
            tree.nodes@[nodes[k - 1] as int].chunks@,
            table,
            store,
            blob_index,
        );
    }
}

/// Where every selected node can be moved in its turn, every chunk of the
/// selection can be moved in its turn.
pub proof fn lemma_sequence_repackable(
    tree: Tree,
    nodes: Seq<usize>,
    k: int,
    table: Seq<BlobInfoView>,
    store: Seq<BlobData>,
    blob_index: u32,
)
    requires
        0 <= k <= nodes.len(),
        selection_ok(tree, nodes, k, table, store, blob_index),
    ensures
        forall|p: int|
            0 <= p < selected_sequence(tree, nodes, k).len() ==> #[trigger] chunk_failure_at(
                BlobContextView::fresh(None, true, Algorithm::Zstd),
                selected_sequence(tree, nodes, k),
                p,
                table,
                store,
                blob_index,
            ) is None,
    decreases k,
{
    let fresh = BlobContextView::fresh(None, true, Algorithm::Zstd);
    if k > 0 {
        lemma_sequence_repackable(tree, nodes, k - 1, table, store, blob_index);
        lemma_nodes_as_sequence(tree, nodes, k - 1, table, store, blob_index);
        let head = selected_sequence(tree, nodes, k - 1);
        let tail = tree.nodes@[nodes[k - 1] as int].chunks@;
        let all = selected_sequence(tree, nodes, k);
        let acc = acc_after_nodes(tree, nodes, k - 1, table, store, blob_index);
        assert(selection_ok_at(tree, nodes, k - 1, table, store, blob_index));
        assert forall|p: int| 0 <= p < all.len() implies #[trigger] chunk_failure_at(
            fresh,
            all,
            p,
            table,
            store,
            blob_index,
        ) is None by {
            if p < head.len() {
                assert(all.take(p) =~= head.take(p));
                assert(chunk_failure_at(fresh, head, p, table, store, blob_index) is None);
            } else {
                let i = p - head.len();
                assert(all.take(p) =~= head + tail.take(i));
                lemma_acc_after_concat(fresh, head, tail.take(i), table, store, blob_index);
                assert(chunk_failure_at(acc, tail, i, table, store, blob_index) is None);
            }
        }
    }
}

/// The chunks of the selected nodes after repacking are the chunks of the
/// selection, each moved in its turn.
pub proof fn lemma_repacked_sequence(
    before: Tree,
    after: Tree,
    nodes: Seq<usize>,
    k: int,
    table: Seq<BlobInfoView>,
    store: Seq<BlobData>,
    blob_index: u32,
)
    requires
        0 <= k <= nodes.len(),
        forall|j: int|
            0 <= j < k ==> (#[trigger] after.nodes@[nodes[j] as int]).chunks@ == repacked_chunks(
                acc_after_nodes(before, nodes, j, table, store, blob_index),
                before.nodes@[nodes[j] as int].chunks@,
                table,
                store,
                blob_index,
            ),
    ensures
        selected_sequence(after, nodes, k) == repacked_chunks(
            BlobContextView::fresh(None, true, Algorithm::Zstd),
            selected_sequence(before, nodes, k),
            table,
            store,
            blob_index,
        ),
    decreases k,
{
    let fresh = BlobContextView::fresh(None, true, Algorithm::Zstd);
    if k > 0 {
        lemma_repacked_sequence(before, after, nodes, k - 1, table, store, blob_index);
        lemma_nodes_as_sequence(before, nodes, k - 1, table, store, blob_index);
        let head = selected_sequence(before, nodes, k - 1);
        let tail = before.nodes@[nodes[k - 1] as int].chunks@;
        let all = selected_sequence(before, nodes, k);
        let acc = acc_after_nodes(before, nodes, k - 1, table, store, blob_index);
        let moved = repacked_chunks(fresh, all, table, store, blob_index);
        let got = selected_sequence(after, nodes, k);
        assert(after.nodes@[nodes[k - 1] as int].chunks@ == repacked_chunks(acc, tail, table, store, blob_index));
        assert(got.len() == moved.len());
        assert forall|p: int| 0 <= p < got.len() implies got[p] == moved[p] by {
            if p < head.len() {
                assert(all.take(p) =~= head.take(p));
                assert(repacked_chunks(fresh, head, table, store, blob_index)[p] == repacked_at(
                    fresh,
                    head,
                    p,
                    table,
                    store,
                    blob_index,
                ));
            } else {
                let i = p - head.len();
                assert(all.take(p) =~= head + tail.take(i));
                lemma_acc_after_concat(fresh, head, tail.take(i), table, store, blob_index);
                assert(repacked_chunks(acc, tail, table, store, blob_index)[i] == repacked_at(
                    acc,
                    tail,
                    i,
                    table,
                    store,
                    blob_index,
                ));
            }
        }
        assert(got =~= moved);
    } else {
        assert(selected_sequence(after, nodes, k) =~= repacked_chunks(
            fresh,
            selected_sequence(before, nodes, k),
            table,
            store,
            blob_index,
        ));
    }
}

/// The sizes of the first `p` chunks of a list, and the chunk at place `p`
/// with them, are within the sizes of the first `q`, for `p` below `q`.
pub proof fn lemma_totals_grow(aligned: bool, chunks: Seq<NodeChunk>, p: int, q: int)
    requires
        0 <= p < q <= chunks.len(),
    ensures
        compressed_total(chunks.take(p)) + chunks[p].compressed_size <= compressed_total(chunks.take(q)),
        advance_total(aligned, chunks.take(p)) + uncompressed_advance(aligned, chunks[p].uncompressed_size)
            <= advance_total(aligned, chunks.take(q)),
    decreases q - p,
{
    assert(chunks.take(q).drop_last() =~= chunks.take(q - 1));
    assert(chunks.take(q).last() == chunks[q - 1]);
    lemma_round_up_4k(chunks[q - 1].uncompressed_size as int);
    if p < q - 1 {
        lemma_totals_grow(aligned, chunks, p, q - 1);
    }
}

/// In the stored bytes of a list of chunks, the bytes of the chunk at place
/// `p` lie behind those of the chunks before it.
pub proof fn lemma_source_bytes_at(chunks: Seq<NodeChunk>, p: int, table: Seq<BlobInfoView>, store: Seq<BlobData>)
    requires
        0 <= p < chunks.len(),
        forall|i: int| 0 <= i < chunks.len() ==> (#[trigger] chunk_source(chunks[i], table, store)) is Ok,
    ensures
        compressed_total(chunks.take(p)) + chunks[p].compressed_size <= source_bytes(chunks, table, store).len(),
        source_bytes(chunks, table, store).subrange(
            compressed_total(chunks.take(p)) as int,
            compressed_total(chunks.take(p)) + chunks[p].compressed_size,
        ) == chunk_bytes(chunks[p], table, store),
        chunk_bytes(chunks[p], table, store).len() == chunks[p].compressed_size,
{
    let upto = chunks.take(p + 1);
    assert forall|i: int| 0 <= i < upto.len() implies (#[trigger] chunk_source(upto[i], table, store)) is Ok by {
        assert(chunk_source(chunks[i], table, store) is Ok);
    }
    assert forall|i: int| 0 <= i < chunks.take(p).len() implies (#[trigger] chunk_source(
        chunks.take(p)[i],
        table,
        store,
    )) is Ok by {
        assert(chunk_source(chunks[i], table, store) is Ok);
    }
    lemma_source_bytes_len(upto, table, store);
    lemma_source_bytes_len(chunks.take(p), table, store);
    lemma_source_bytes_prefix(chunks, p + 1, table, store);
    assert(upto.drop_last() =~= chunks.take(p));
    assert(upto.last() == chunks[p]);
    assert(chunk_source(chunks[p], table, store) is Ok);
    let all = source_bytes(chunks, table, store);
    let head = source_bytes(chunks.take(p), table, store);
    let body = chunk_bytes(chunks[p], table, store);
    assert(all.take((head + body).len() as int) == head + body);
    assert(all.subrange(head.len() as int, (head.len() + body.len()) as int) =~= body) by {
        assert forall|i: int| 0 <= i < body.len() implies all[head.len() + i] == body[i] by {
            assert(all.take((head + body).len() as int)[head.len() + i] == (head + body)[head.len() + i]);
        }
    }
}

/// Where every chunk of a list can be moved, the chunk at place `p` gets
/// the index and the offsets that the chunks before it leave.
pub proof fn lemma_repacked_at(
    acc: BlobContextView,
    chunks: Seq<NodeChunk>,
    p: int,
    table: Seq<BlobInfoView>,
    store: Seq<BlobData>,
    blob_index: u32,
)
    requires
        0 <= p < chunks.len(),
        forall|i: int|
            0 <= i < chunks.len() ==> #[trigger] chunk_failure_at(acc, chunks, i, table, store, blob_index) is None,
    ensures
        ({
            let moved = repacked_at(acc, chunks, p, table, store, blob_index);
            &&& moved.index == acc.chunk_count + p
            &&& moved.blob_index == blob_index
            &&& moved.compressed_offset == acc.current_compressed_offset + compressed_total(chunks.take(p))
            &&& moved.uncompressed_offset == acc.current_uncompressed_offset + advance_total(
                acc.aligned,
                chunks.take(p),
            )
            &&& moved.compressed_size == chunks[p].compressed_size
            &&& moved.uncompressed_size == chunks[p].uncompressed_size
            &&& moved.file_offset == chunks[p].file_offset
            &&& moved.digest == chunks[p].digest
            &&& chunk_source(chunks[p], table, store) is Ok
        }),
{
    let head = chunks.take(p);
    assert forall|i: int| 0 <= i < head.len() implies #[trigger] chunk_failure_at(
        acc,
        head,
        i,
        table,
        store,
        blob_index,
    ) is None by {
        assert(head.take(i) =~= chunks.take(i));
        assert(chunk_failure_at(acc, chunks, i, table, store, blob_index) is None);
    }
    lemma_acc_after(acc, head, table, store, blob_index);
    assert(chunk_failure_at(acc, chunks, p, table, store, blob_index) is None);
}

/// Index density. The chunks of a repacked blob, in the order in which they
/// were written, carry the indices 0, 1, 2 and so on without a gap or a
/// repeat, up to the chunk count of the blob, and all are bound to the blob.
pub proof fn law_index_density(
    before: Tree,
    after: Tree,
    nodes: Seq<usize>,
    table: Seq<BlobInfoView>,
    store: Seq<BlobData>,
    blob_index: u32,
)
    requires
        selection_ok(before, nodes, nodes.len() as int, table, store, blob_index),
        tree_repacked(before, after, nodes, table, store, blob_index),
    ensures
        selected_sequence(after, nodes, nodes.len() as int).len() == acc_after_nodes(
            before,
            nodes,
            nodes.len() as int,
            table,
            store,
            blob_index,
        ).chunk_count,
        forall|p: int|
            0 <= p < selected_sequence(after, nodes, nodes.len() as int).len() ==> {
                &&& (#[trigger] selected_sequence(after, nodes, nodes.len() as int)[p]).index == p
                &&& selected_sequence(after, nodes, nodes.len() as int)[p].blob_index == blob_index
            },
{
    let n = nodes.len() as int;
    let fresh = BlobContextView::fresh(None, true, Algorithm::Zstd);
    let orig = selected_sequence(before, nodes, n);
    let seq = selected_sequence(after, nodes, n);
    lemma_repacked_sequence(before, after, nodes, n, table, store, blob_index);
    lemma_sequence_repackable(before, nodes, n, table, store, blob_index);
    lemma_nodes_as_sequence(before, nodes, n, table, store, blob_index);
    lemma_acc_after(fresh, orig, table, store, blob_index);
    assert forall|p: int| 0 <= p < seq.len() implies (#[trigger] seq[p]).index == p && seq[p].blob_index
        == blob_index by {
        lemma_repacked_at(fresh, orig, p, table, store, blob_index);
    }
}

/// Offset monotonicity. In a repacked blob every chunk begins on a block
/// boundary of the uncompressed address space, and of two chunks the later
/// written one begins, in both address spaces, where the earlier one ends
/// or behind that.
pub proof fn law_offsets_monotone(
    before: Tree,
    after: Tree,
    nodes: Seq<usize>,
    table: Seq<BlobInfoView>,
    store: Seq<BlobData>,
    blob_index: u32,
)
    requires
        selection_ok(before, nodes, nodes.len() as int, table, store, blob_index),
        tree_repacked(before, after, nodes, table, store, blob_index),
    ensures
        forall|p: int|
            0 <= p < selected_sequence(after, nodes, nodes.len() as int).len() ==> (#[trigger] selected_sequence(
                after,
                nodes,
                nodes.len() as int,
            )[p]).uncompressed_offset as int % 4096 == 0,
        forall|p: int, q: int|
            0 <= p < q < selected_sequence(after, nodes, nodes.len() as int).len() ==> {
                &&& (#[trigger] selected_sequence(after, nodes, nodes.len() as int)[p]).compressed_offset
                    + selected_sequence(after, nodes, nodes.len() as int)[p].compressed_size <= (
                #[trigger] selected_sequence(after, nodes, nodes.len() as int)[q]).compressed_offset
                &&& selected_sequence(after, nodes, nodes.len() as int)[p].uncompressed_offset
                    + selected_sequence(after, nodes, nodes.len() as int)[p].uncompressed_size
                    <= selected_sequence(after, nodes, nodes.len() as int)[q].uncompressed_offset
            },
{
    let n = nodes.len() as int;
    let fresh = BlobContextView::fresh(None, true, Algorithm::Zstd);
    let orig = selected_sequence(before, nodes, n);
    let seq = selected_sequence(after, nodes, n);
    lemma_repacked_sequence(before, after, nodes, n, table, store, blob_index);
    lemma_sequence_repackable(before, nodes, n, table, store, blob_index);
    assert forall|p: int| 0 <= p < seq.len() implies (#[trigger] seq[p]).uncompressed_offset as int % 4096
        == 0 by {
        lemma_repacked_at(fresh, orig, p, table, store, blob_index);
        lemma_advance_total_aligned(orig.take(p));
    }
    assert forall|p: int, q: int| 0 <= p < q < seq.len() implies (#[trigger] seq[p]).compressed_offset
        + seq[p].compressed_size <= (#[trigger] seq[q]).compressed_offset && seq[p].uncompressed_offset
        + seq[p].uncompressed_size <= seq[q].uncompressed_offset by {
        lemma_repacked_at(fresh, orig, p, table, store, blob_index);
        lemma_repacked_at(fresh, orig, q, table, store, blob_index);
        lemma_totals_grow(true, orig, p, q);
        lemma_round_up_4k(orig[p].uncompressed_size as int);
    }
}

/// Chunks that are kept aligned move the uncompressed offset by whole blocks.
pub proof fn lemma_advance_total_aligned(chunks: Seq<NodeChunk>)
    ensures
        advance_total(true, chunks) % 4096 == 0,
    decreases chunks.len(),
{
    if chunks.len() > 0 {
        lemma_advance_total_aligned(chunks.drop_last());
        lemma_round_up_4k(chunks.last().uncompressed_size as int);
    }
}

/// Round trip. The bytes of the new blob at the offset and in the size that
/// a repacked chunk was given are the bytes that were read for the chunk
/// from its source blob; the chunk keeps its digest and its sizes.
pub proof fn law_round_trip(
    before: Tree,
    after: Tree,
    nodes: Seq<usize>,
    table: Seq<BlobInfoView>,
    store: Seq<BlobData>,
    blob_index: u32,
)
    requires
        selection_ok(before, nodes, nodes.len() as int, table, store, blob_index),
        tree_repacked(before, after, nodes, table, store, blob_index),
    ensures
        selected_sequence(after, nodes, nodes.len() as int).len() == selected_sequence(
            before,
            nodes,
            nodes.len() as int,
        ).len(),
        forall|p: int|
            0 <= p < selected_sequence(after, nodes, nodes.len() as int).len() ==> {
                let moved = #[trigger] selected_sequence(after, nodes, nodes.len() as int)[p];
                let orig = selected_sequence(before, nodes, nodes.len() as int)[p];
                &&& moved.digest == orig.digest
                &&& moved.compressed_size == orig.compressed_size
                &&& moved.uncompressed_size == orig.uncompressed_size
                &&& chunk_source(orig, table, store) is Ok
                &&& range_of(
                    bytes_after_nodes(before, nodes, nodes.len() as int, table, store),
                    moved.compressed_offset,
                    moved.compressed_size,
                ) == Some(chunk_bytes(orig, table, store))
            },
{
    let n = nodes.len() as int;
    let fresh = BlobContextView::fresh(None, true, Algorithm::Zstd);
    let orig = selected_sequence(before, nodes, n);
    let seq = selected_sequence(after, nodes, n);
    let data = bytes_after_nodes(before, nodes, n, table, store);
    lemma_repacked_sequence(before, after, nodes, n, table, store, blob_index);
    lemma_sequence_repackable(before, nodes, n, table, store, blob_index);
    lemma_nodes_as_sequence(before, nodes, n, table, store, blob_index);
    assert forall|i: int| 0 <= i < orig.len() implies (#[trigger] chunk_source(orig[i], table, store)) is Ok by {
        lemma_repacked_at(fresh, orig, i, table, store, blob_index);
    }
    assert forall|p: int| 0 <= p < seq.len() implies {
        let moved = #[trigger] seq[p];
        &&& moved.digest == orig[p].digest
        &&& moved.compressed_size == orig[p].compressed_size
        &&& moved.uncompressed_size == orig[p].uncompressed_size
        &&& chunk_source(orig[p], table, store) is Ok
        &&& range_of(data, moved.compressed_offset, moved.compressed_size) == Some(
            chunk_bytes(orig[p], table, store),
        )
    } by {
        lemma_repacked_at(fresh, orig, p, table, store, blob_index);
        lemma_source_bytes_at(orig, p, table, store);
        if seq[p].compressed_size == 0 {
            assert(chunk_bytes(orig[p], table, store) =~= Seq::<u8>::empty());
        }
    }
}

/// Round trip through the blob table. Once the new blob is at hand under
/// its identifier, behind the blobs that were at hand, and none of those
/// goes by the same identifier, every repacked chunk reads from the new blob,
/// by way of its entry in the table that repacking left, the bytes that were
/// read for it from its source blob.
pub proof fn law_round_trip_resolved(
    before: Tree,
    after: Tree,
    nodes: Seq<usize>,
    table: Seq<BlobInfoView>,
    store: Seq<BlobData>,
    entry: BlobInfoView,
    blob: BlobData,
)
    requires
        table.len() <= u32::MAX,
        selection_ok(before, nodes, nodes.len() as int, table, store, table.len() as u32),
        tree_repacked(before, after, nodes, table, store, table.len() as u32),
        blob.data@ == bytes_after_nodes(before, nodes, nodes.len() as int, table, store),
        entry.blob_id == Some(blob.blob_id@),
        position_of(store, blob.blob_id@) is None,
    ensures
        forall|p: int|
            0 <= p < selected_sequence(after, nodes, nodes.len() as int).len() ==> chunk_source(
                #[trigger] selected_sequence(after, nodes, nodes.len() as int)[p],
                table.push(entry),
                store.push(blob),
            ) == Ok::<Seq<u8>, BuildError>(
                chunk_bytes(selected_sequence(before, nodes, nodes.len() as int)[p], table, store),
            ),
{
    let n = nodes.len() as int;
    let seq = selected_sequence(after, nodes, n);
    let orig = selected_sequence(before, nodes, n);
    let id = blob.blob_id@;
    law_round_trip(before, after, nodes, table, store, table.len() as u32);
    law_index_density(before, after, nodes, table, store, table.len() as u32);
    lemma_position_of_key(keys_of(store), id);
    assert forall|j: int| 0 <= j < store.len() implies #[trigger] keys_of(store.push(blob))[j] != Some(id) by {
        assert(keys_of(store)[j] != Some(id));
    }
    assert(keys_of(store.push(blob))[store.len() as int] == Some(id));
    assert(is_first_key(keys_of(store.push(blob)), id, store.len() as int));
    lemma_position_of_first(keys_of(store.push(blob)), id, store.len() as int);
    assert forall|p: int| 0 <= p < seq.len() implies chunk_source(
        #[trigger] seq[p],
        table.push(entry),
        store.push(blob),
    ) == Ok::<Seq<u8>, BuildError>(chunk_bytes(orig[p], table, store)) by {
        assert(seq[p].blob_index == table.len());
        assert(table.push(entry)[seq[p].blob_index as int] == entry);
        assert(store.push(blob)[store.len() as int] == blob);
    }
}

/// Header consistency. Once an accumulator whose metadata table has kept
/// step with its chunk count is finalized, the two size fields of the
/// table's header are equal, each is the chunk count times the size of a
/// record, and the table lies behind its header.
pub proof fn law_header_consistency(acc: BlobContextView)
    requires
        acc.in_step(),
    ensures
        acc.finalized().summary().meta_ci_uncompressed_size == acc.chunk_count * CHUNK_META_RECORD_SIZE,
        acc.finalized().summary().meta_ci_compressed_size == acc.finalized().summary().meta_ci_uncompressed_size,
        acc.finalized().summary().meta_ci_offset == META_HEADER_SIZE + acc.chunk_count
            * CHUNK_META_RECORD_SIZE,
        acc.finalized().summary().chunk_count == acc.chunk_count,
{
}

/// Header consistency of a repacked blob: the entry that repacking appends
/// to the blob table holds the chunk count of the blob, and its two table
/// sizes are equal and are the chunk count times the size of a record.
pub proof fn law_prefetch_entry_consistent(
    before: Tree,
    nodes: Seq<usize>,
    table: Seq<BlobInfoView>,
    store: Seq<BlobData>,
    blob_index: u32,
    chunk_size: u32,
    id: Seq<char>,
)
    requires
        selection_ok(before, nodes, nodes.len() as int, table, store, blob_index),
    ensures
        ({
            let entry = prefetch_entry(
                chunk_size,
                blob_index,
                acc_after_nodes(before, nodes, nodes.len() as int, table, store, blob_index),
                id,
            );
            &&& entry.chunk_count == selected_sequence(before, nodes, nodes.len() as int).len()
            &&& entry.meta_ci_uncompressed_size == entry.chunk_count * CHUNK_META_RECORD_SIZE
            &&& entry.meta_ci_compressed_size == entry.meta_ci_uncompressed_size
            &&& entry.compressed_size == bytes_after_nodes(before, nodes, nodes.len() as int, table, store).len()
        }),
{
    let n = nodes.len() as int;
    let fresh = BlobContextView::fresh(None, true, Algorithm::Zstd);
    let orig = selected_sequence(before, nodes, n);
    lemma_sequence_repackable(before, nodes, n, table, store, blob_index);
    lemma_nodes_as_sequence(before, nodes, n, table, store, blob_index);
    lemma_acc_after(fresh, orig, table, store, blob_index);
    assert forall|i: int| 0 <= i < orig.len() implies (#[trigger] chunk_source(orig[i], table, store)) is Ok by {
        lemma_repacked_at(fresh, orig, i, table, store, blob_index);
    }
    lemma_source_bytes_len(orig, table, store);
    law_header_consistency(acc_after(fresh, orig, table, store, blob_index));
}

/// How many entries of a blob table carry the identifier `id`.
pub open spec fn id_count(table: Seq<BlobInfoView>, id: Seq<char>) -> nat
    decreases table.len(),
{
    if table.len() == 0 {
        0
    } else {
        id_count(table.drop_last(), id) + if table.last().blob_id == Some(id) {
            1nat
        } else {
            0nat
        }
    }
}

/// Identifier commit. After a commit no entry of the blob table is without
/// an identifier. The entries that carry the committed identifier are those
/// that carried it before and those that were without one.
pub proof fn law_commit(table: Seq<BlobInfoView>, id: Seq<char>)
    ensures
        committed_table(table, id).len() == table.len(),
        pending_count(committed_table(table, id)) == 0,
        forall|i: int| 0 <= i < table.len() ==> (#[trigger] committed_table(table, id)[i]).blob_id is Some,
        id_count(committed_table(table, id), id) == id_count(table, id) + pending_count(table),
    decreases table.len(),
{
    if table.len() > 0 {
        law_commit(table.drop_last(), id);
        assert(committed_table(table, id).drop_last() =~= committed_table(table.drop_last(), id));
    }
}

/// In a table without pending entries every entry has an identifier.
pub proof fn lemma_none_pending(table: Seq<BlobInfoView>)
    requires
        pending_count(table) == 0,
    ensures
        forall|i: int| 0 <= i < table.len() ==> (#[trigger] table[i]).blob_id is Some,
    decreases table.len(),
{
    if table.len() > 0 {
        lemma_none_pending(table.drop_last());
        assert forall|i: int| 0 <= i < table.len() implies (#[trigger] table[i]).blob_id is Some by {
            if i < table.len() - 1 {
                assert(table.drop_last()[i] == table[i]);
            }
        }
    }
}

/// Identifier commit of a repacked blob. In the blob table that successful
/// repacking leaves, which is the table as it was with the new blob's entry
/// behind it, no entry is without an identifier, so that no chunk is bound
/// to a blob without one; and where no entry carried the new blob's
/// identifier before, exactly one entry carries it now.
pub proof fn law_commit_single(table: Seq<BlobInfoView>, entry: BlobInfoView, id: Seq<char>)
    requires
        pending_count(table) == 0,
        entry.blob_id == Some(id),
    ensures
        pending_count(table.push(entry)) == 0,
        forall|i: int| 0 <= i < table.push(entry).len() ==> (#[trigger] table.push(entry)[i]).blob_id is Some,
        id_count(table, id) == 0 ==> id_count(table.push(entry), id) == 1,
{
    assert(table.push(entry).drop_last() =~= table);
    lemma_none_pending(table.push(entry));
}

} // verus!
