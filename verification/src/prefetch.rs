//! Repacking selected chunks into one new, contiguous blob.

use vstd::prelude::*;
use crate::blob::{BlobContext, BlobContextView, BlobId, BlobSizeSummary};
use crate::chunk::NodeChunk;
use crate::compress::Algorithm;
use crate::context::{BlobFeatures, BlobInfo, BlobInfoView, BlobTable, BuildContext};
use crate::digest::{blob_id_of, hex_encode, DIGEST_LEN};
use crate::error::BuildError;
use crate::generator::Generator;
use crate::keyed::{find_keyed, position_of};
use crate::reader::{range_of, BlobData, BlobNodeReader};
use crate::tree::{Node, Tree};

verus! {

/// The stored bytes of a chunk, read from the blob that the chunk is bound
/// to, or why they cannot be had.
pub open spec fn chunk_source(chunk: NodeChunk, table: Seq<BlobInfoView>, store: Seq<BlobData>) -> Result<
    Seq<u8>,
    BuildError,
> {
    if chunk.blob_index >= table.len() {
        Err(BuildError::UnresolvedBlobIndex)
    } else {
        match table[chunk.blob_index as int].blob_id {
            None => Err(BuildError::SourceBlobMissing { blob_index: chunk.blob_index }),
            Some(id) => match position_of(store, id) {
                None => Err(BuildError::SourceBlobMissing { blob_index: chunk.blob_index }),
                Some(p) => match range_of(store[p].data@, chunk.compressed_offset, chunk.compressed_size) {
                    None => Err(
                        BuildError::ShortRead {
                            blob_index: chunk.blob_index,
                            offset: chunk.compressed_offset,
                            size: chunk.compressed_size,
                        },
                    ),
                    Some(bytes) => Ok(bytes),
                },
            },
        }
    }
}

/// The stored bytes of a chunk; nothing where they cannot be had.
pub open spec fn chunk_bytes(chunk: NodeChunk, table: Seq<BlobInfoView>, store: Seq<BlobData>) -> Seq<u8> {
    match chunk_source(chunk, table, store) {
        Ok(bytes) => bytes,
        Err(_) => Seq::empty(),
    }
}

/// A chunk after it was moved to the blob with index `blob_index`, to the
/// place that the accumulator `acc` hands out next.
pub open spec fn repacked_chunk(acc: BlobContextView, chunk: NodeChunk, blob_index: u32) -> NodeChunk {
    NodeChunk {
        blob_index,
        index: acc.chunk_count,
        compressed_offset: acc.current_compressed_offset,
        uncompressed_offset: acc.current_uncompressed_offset,
        ..chunk
    }
}

/// The accumulator after a chunk with the stored bytes `bytes` was moved to
/// its blob: the bytes are hashed, a place is reserved, and the chunk's table
/// record is appended.
pub open spec fn repacked_acc(acc: BlobContextView, chunk: NodeChunk, bytes: Seq<u8>, blob_index: u32) -> BlobContextView {
    acc.absorbing(bytes).reserved(chunk.compressed_size, chunk.uncompressed_size).recorded(
        repacked_chunk(acc, chunk, blob_index),
    )
}

/// Why a chunk cannot be moved to the blob of the accumulator `acc`, if it cannot.
pub open spec fn chunk_failure(
    acc: BlobContextView,
    chunk: NodeChunk,
    table: Seq<BlobInfoView>,
    store: Seq<BlobData>,
) -> Option<BuildError> {
    match chunk_source(chunk, table, store) {
        Err(e) => Some(e),
        Ok(_) => acc.reserve_failure(chunk.compressed_size, chunk.uncompressed_size),
    }
}

/// The accumulator after the chunks of `chunks` were moved to its blob, one
/// after the other.
pub open spec fn acc_after(
    acc: BlobContextView,
    chunks: Seq<NodeChunk>,
    table: Seq<BlobInfoView>,
    store: Seq<BlobData>,
    blob_index: u32,
) -> BlobContextView
    decreases chunks.len(),
{
    if chunks.len() == 0 {
        acc
    } else {
        repacked_acc(
            acc_after(acc, chunks.drop_last(), table, store, blob_index),
            chunks.last(),
            chunk_bytes(chunks.last(), table, store),
            blob_index,
        )
    }
}

/// The stored bytes of the chunks of `chunks`, one after the other.
pub open spec fn source_bytes(chunks: Seq<NodeChunk>, table: Seq<BlobInfoView>, store: Seq<BlobData>) -> Seq<u8>
    decreases chunks.len(),
{
    if chunks.len() == 0 {
        Seq::empty()
    } else {
        source_bytes(chunks.drop_last(), table, store) + chunk_bytes(chunks.last(), table, store)
    }
}

/// Why the chunk at place `i` of `chunks` cannot be moved, once those before
/// it have been, if it cannot.
pub open spec fn chunk_failure_at(
    acc: BlobContextView,
    chunks: Seq<NodeChunk>,
    i: int,
    table: Seq<BlobInfoView>,
    store: Seq<BlobData>,
    blob_index: u32,
) -> Option<BuildError> {
    chunk_failure(acc_after(acc, chunks.take(i), table, store, blob_index), chunks[i], table, store)
}

/// The chunk at place `i` of `chunks` after all of them were moved.
pub open spec fn repacked_at(
    acc: BlobContextView,
    chunks: Seq<NodeChunk>,
    i: int,
    table: Seq<BlobInfoView>,
    store: Seq<BlobData>,
    blob_index: u32,
) -> NodeChunk {
    repacked_chunk(acc_after(acc, chunks.take(i), table, store, blob_index), chunks[i], blob_index)
}

/// The chunks of `chunks` after all of them were moved.
pub open spec fn repacked_chunks(
    acc: BlobContextView,
    chunks: Seq<NodeChunk>,
    table: Seq<BlobInfoView>,
    store: Seq<BlobData>,
    blob_index: u32,
) -> Seq<NodeChunk> {
    Seq::new(chunks.len(), |i: int| repacked_at(acc, chunks, i, table, store, blob_index))
}

/// The chunks of a node can all be moved: there is at least one, and none fails.
pub open spec fn node_repackable(
    acc: BlobContextView,
    chunks: Seq<NodeChunk>,
    table: Seq<BlobInfoView>,
    store: Seq<BlobData>,
    blob_index: u32,
) -> bool {
    &&& chunks.len() > 0
    &&& forall|i: int|
        0 <= i < chunks.len() ==> #[trigger] chunk_failure_at(acc, chunks, i, table, store, blob_index) is None
}

/// Moving the chunks of a node fails with `e`: the node has no chunk, which
/// leaves its blob unresolved, or `e` is the failure of the first chunk that
/// cannot be moved.
pub open spec fn node_fails_with(
    acc: BlobContextView,
    chunks: Seq<NodeChunk>,
    table: Seq<BlobInfoView>,
    store: Seq<BlobData>,
    blob_index: u32,
    e: BuildError,
) -> bool {
    ||| chunks.len() == 0 && e == BuildError::UnresolvedBlobIndex
    ||| exists|i: int|
        {
            &&& 0 <= i < chunks.len()
            &&& #[trigger] chunk_failure_at(acc, chunks, i, table, store, blob_index) == Some(e)
            &&& forall|j: int|
                0 <= j < i ==> #[trigger] chunk_failure_at(acc, chunks, j, table, store, blob_index) is None
        }
}

/// `after` is `before` with its chunks replaced by `chunks` and its layer by `layer`.
pub open spec fn node_rebound(before: Node, after: Node, chunks: Seq<NodeChunk>, layer: u16) -> bool {
    &&& after.inode == before.inode
    &&& after.info == before.info
    &&& after.children == before.children
    &&& after.layer_idx == layer
    &&& after.chunks@ == chunks
}

/// `after` is `before` with the chunks of the node at place `node` replaced
/// by `chunks` and its layer by `layer`.
pub open spec fn tree_rebound(before: Tree, after: Tree, node: int, chunks: Seq<NodeChunk>, layer: u16) -> bool {
    &&& after.nodes@.len() == before.nodes@.len()
    &&& forall|k: int| 0 <= k < before.nodes@.len() && k != node ==> #[trigger] after.nodes@[k] == before.nodes@[k]
    &&& node_rebound(before.nodes@[node], after.nodes@[node], chunks, layer)
}

/// The layer number under which the nodes of a blob are filed: the low 16
/// bits of the blob's index.
pub open spec fn layer_of(blob_index: u32) -> u16 {
    (blob_index % 0x10000) as u16
}

/// How many entries of a blob table are still without an identifier.
pub open spec fn pending_count(table: Seq<BlobInfoView>) -> nat
    decreases table.len(),
{
    if table.len() == 0 {
        0
    } else {
        pending_count(table.drop_last()) + if table.last().blob_id is None {
            1nat
        } else {
            0nat
        }
    }
}

/// An entry once the identifier `id` is committed: an entry without an
/// identifier takes it, any other entry stays as it is.
pub open spec fn committed_entry(entry: BlobInfoView, id: Seq<char>) -> BlobInfoView {
    if entry.blob_id is None {
        BlobInfoView { blob_id: Some(id), ..entry }
    } else {
        entry
    }
}

/// A blob table once the identifier `id` is committed.
pub open spec fn committed_table(table: Seq<BlobInfoView>, id: Seq<char>) -> Seq<BlobInfoView> {
    table.map_values(|entry: BlobInfoView| committed_entry(entry, id))
}

/// One more entry without an identifier is one more pending entry.
pub proof fn lemma_pending_count_push(table: Seq<BlobInfoView>, entry: BlobInfoView)
    ensures
        pending_count(table.push(entry)) == pending_count(table) + if entry.blob_id is None {
            1nat
        } else {
            0nat
        },
{
    assert(table.push(entry).drop_last() =~= table);
}

/// A table in which every entry has an identifier is not changed by a commit.
pub proof fn lemma_commit_without_pending(table: Seq<BlobInfoView>, id: Seq<char>)
    requires
        pending_count(table) == 0,
    ensures
        committed_table(table, id) == table,
    decreases table.len(),
{
    if table.len() > 0 {
        lemma_commit_without_pending(table.drop_last(), id);
        assert forall|i: int| 0 <= i < table.len() implies committed_table(table, id)[i] == table[i] by {
            if i < table.len() - 1 {
                assert(committed_table(table.drop_last(), id)[i] == table.drop_last()[i]);
            }
        }
    }
    assert(committed_table(table, id) =~= table);
}

/// `after` is `before` but for the blob identifier, which is `id`.
pub open spec fn ctx_committed(before: BuildContext, after: BuildContext, id: Seq<char>) -> bool {
    &&& after.blob_id@ == Some(id)
    &&& after.fs_version == before.fs_version
    &&& after.conversion_type == before.conversion_type
    &&& after.compressor == before.compressor
    &&& after.chunk_size == before.chunk_size
    &&& after.blob_features == before.blob_features
}

/// The accumulator of the new blob after the nodes at the first `k` places of
/// `nodes` were moved to it, in their order.
pub open spec fn acc_after_nodes(
    tree: Tree,
    nodes: Seq<usize>,
    k: int,
    table: Seq<BlobInfoView>,
    store: Seq<BlobData>,
    blob_index: u32,
) -> BlobContextView
    decreases k,
{
    if k <= 0 {
        BlobContextView::fresh(None, true, Algorithm::Zstd)
    } else {
        acc_after(
            acc_after_nodes(tree, nodes, k - 1, table, store, blob_index),
            tree.nodes@[nodes[k - 1] as int].chunks@,
            table,
            store,
            blob_index,
        )
    }
}

/// The bytes of the new blob after the nodes at the first `k` places of
/// `nodes` were moved to it.
pub open spec fn bytes_after_nodes(
    tree: Tree,
    nodes: Seq<usize>,
    k: int,
    table: Seq<BlobInfoView>,
    store: Seq<BlobData>,
) -> Seq<u8>
    decreases k,
{
    if k <= 0 {
        Seq::empty()
    } else {
        bytes_after_nodes(tree, nodes, k - 1, table, store) + source_bytes(
            tree.nodes@[nodes[k - 1] as int].chunks@,
            table,
            store,
        )
    }
}

/// The node at place `k` of the selection was not selected before.
pub open spec fn first_selected_at(nodes: Seq<usize>, k: int) -> bool {
    forall|j: int| 0 <= j < k ==> #[trigger] nodes[j] != nodes[k]
}

/// The node at place `k` of the selection can be moved, once those before it
/// have been: it is a node of the tree, it was not selected before, and its
/// chunks can all be moved.
pub open spec fn selection_ok_at(
    tree: Tree,
    nodes: Seq<usize>,
    k: int,
    table: Seq<BlobInfoView>,
    store: Seq<BlobData>,
    blob_index: u32,
) -> bool {
    &&& nodes[k] < tree.nodes@.len()
    &&& first_selected_at(nodes, k)
    &&& node_repackable(
        acc_after_nodes(tree, nodes, k, table, store, blob_index),
        tree.nodes@[nodes[k] as int].chunks@,
        table,
        store,
        blob_index,
    )
}

/// Moving the node at place `k` of the selection fails with `e`, once those
/// before it have been moved. A node that was selected before is bound to the
/// new blob, which the blob table does not hold yet: its blob is unresolved.
pub open spec fn selection_fails_at(
    tree: Tree,
    nodes: Seq<usize>,
    k: int,
    table: Seq<BlobInfoView>,
    store: Seq<BlobData>,
    blob_index: u32,
    e: BuildError,
) -> bool {
    if nodes[k] >= tree.nodes@.len() {
        e == BuildError::NodeNotFound
    } else if !first_selected_at(nodes, k) {
        e == BuildError::UnresolvedBlobIndex
    } else {
        node_fails_with(
            acc_after_nodes(tree, nodes, k, table, store, blob_index),
            tree.nodes@[nodes[k] as int].chunks@,
            table,
            store,
            blob_index,
            e,
        )
    }
}

/// The header record of the new blob: registered under `blob_index` with the
/// chunk size of the build, sealed with the sizes of the accumulator `acc`,
/// and committed under `id`.
pub open spec fn prefetch_entry(chunk_size: u32, blob_index: u32, acc: BlobContextView, id: Seq<char>) -> BlobInfoView {
    BlobInfoView {
        blob_id: Some(id),
        compressor: Algorithm::Zstd,
        ..BlobInfoView::fresh(blob_index, None, 0, 0, chunk_size, u32::MAX, BlobFeatures::repacked()).sealed(
            acc.finalized().summary(),
        )
    }
}

/// `after` is `before` with every selected node bound to the new blob: the
/// node at place `k` of the selection has the chunks that moving it gave, and
/// every node that was not selected is as it was.
pub open spec fn tree_repacked(
    before: Tree,
    after: Tree,
    nodes: Seq<usize>,
    table: Seq<BlobInfoView>,
    store: Seq<BlobData>,
    blob_index: u32,
) -> bool {
    &&& after.nodes@.len() == before.nodes@.len()
    &&& forall|k: int|
        0 <= k < nodes.len() ==> node_rebound(
            before.nodes@[nodes[k] as int],
            #[trigger] after.nodes@[nodes[k] as int],
            repacked_chunks(
                acc_after_nodes(before, nodes, k, table, store, blob_index),
                before.nodes@[nodes[k] as int].chunks@,
                table,
                store,
                blob_index,
            ),
            layer_of(blob_index),
        )
    &&& forall|i: int|
        0 <= i < before.nodes@.len() && !nodes.contains(i as usize) ==> #[trigger] after.nodes@[i]
            == before.nodes@[i]
}

/// How far the writing of a new blob has come.
#[derive(Clone, Copy, Debug, PartialEq, Eq, Structural)]
pub enum RepackPhase {
    /// The blob is registered; nothing has been written.
    Created,
    /// At least one chunk has been written.
    Writing,
    /// The sizes of the blob are final and its header record holds them; the
    /// blob is still without an identifier.
    Sealed,
    /// The header record has joined the blob table, and the identifier that
    /// derives from the blob's content is known to the accumulator and to the
    /// build context.
    Committed,
}

/// The new blob while it is written: its phase, its header record, its
/// accumulator and the bytes written so far.
pub struct PrefetchBlobState {
    pub phase: RepackPhase,
    pub blob_info: BlobInfo,
    pub blob_ctx: BlobContext,
    pub blob_writer: Vec<u8>,
}

impl PrefetchBlobState {
    /// The blob is being written in good order: it is created or being
    /// written, it is still without an identifier, its chunks are kept
    /// aligned, its metadata table keeps step with its chunk count, and its
    /// accumulator has hashed and counted exactly the bytes written.
    pub open spec fn wf(&self) -> bool {
        &&& self.phase is Created || self.phase is Writing
        &&& self.phase is Created ==> self.blob_ctx@.chunk_count == 0 && self.blob_writer@.len() == 0
        &&& self.blob_info@.blob_id is None
        &&& self.blob_ctx@.blob_id is None
        &&& self.blob_ctx@.aligned
        &&& self.blob_ctx@.wf()
        &&& self.blob_ctx@.in_step()
        &&& self.blob_ctx@.current_compressed_offset == self.blob_writer@.len()
        &&& self.blob_ctx@.hashed == self.blob_writer@
    }

    /// The blob is sealed in good order: it is still without an identifier,
    /// its accumulator has hashed and counted exactly the bytes written, and
    /// its header record holds the sizes and offsets of the accumulator.
    pub open spec fn sealed(&self) -> bool {
        &&& self.phase is Sealed
        &&& self.blob_info@.blob_id is None
        &&& self.blob_ctx@.blob_id is None
        &&& self.blob_ctx@.in_step()
        &&& self.blob_ctx@.current_compressed_offset == self.blob_writer@.len()
        &&& self.blob_ctx@.hashed == self.blob_writer@
        &&& self.blob_info@ == self.blob_info@.sealed(self.blob_ctx@.summary())
    }

    /// Registers a new blob under the index `blob_layer_num`: no identifier
    /// yet, all features of a repacked blob declared, the chunk size of the
    /// build, and an accumulator into which nothing has been written.
    pub fn new(ctx: &BuildContext, blob_layer_num: u32) -> (state: PrefetchBlobState)
        ensures
            state.wf(),
            state.phase is Created,
            state.blob_info@ == (BlobInfoView {
                compressor: Algorithm::Zstd,
                ..BlobInfoView::fresh(blob_layer_num, None, 0, 0, ctx.chunk_size, u32::MAX, BlobFeatures::repacked())
            }),
            state.blob_ctx@ == BlobContextView::fresh(None, true, Algorithm::Zstd),
            state.blob_writer@ == Seq::<u8>::empty(),
    {
        let mut blob_info = BlobInfo::new(
            blob_layer_num,
            BlobId::Pending,
            0,
            0,
            ctx.chunk_size,
            u32::MAX,
            BlobFeatures::repacked(),
        );
        blob_info.compressor = Algorithm::Zstd;
        let blob_ctx = BlobContext::new(BlobId::Pending, true, blob_info.compressor);
        PrefetchBlobState { phase: RepackPhase::Created, blob_info, blob_ctx, blob_writer: Vec::new() }
    }
}

impl Generator {
    /// Moves one chunk to the new blob: reads its stored bytes from the blob
    /// it is bound to, appends them to the new blob, hashes them, reserves the
    /// chunk's place, binds the chunk to the new blob at that place, and
    /// appends its table record. After a failure the chunk and the state are
    /// to be discarded.
    pub fn repack_chunk(
        chunk: &mut NodeChunk,
        state: &mut PrefetchBlobState,
        blobtable: &BlobTable,
        store: &Vec<BlobData>,
    ) -> (done: Result<(), BuildError>)
        requires
            old(state).wf(),
        ensures
            match chunk_failure(old(state).blob_ctx@, *old(chunk), blobtable@, store@) {
                Some(e) => done == Err::<(), BuildError>(e),
                None => {
                    &&& done is Ok
                    &&& *final(chunk) == repacked_chunk(
                        old(state).blob_ctx@,
                        *old(chunk),
                        old(state).blob_info.blob_index,
                    )
                    &&& final(state).phase is Writing
                    &&& final(state).blob_info == old(state).blob_info
                    &&& final(state).blob_ctx@ == repacked_acc(
                        old(state).blob_ctx@,
                        *old(chunk),
                        chunk_bytes(*old(chunk), blobtable@, store@),
                        old(state).blob_info.blob_index,
                    )
                    &&& final(state).blob_writer@ == old(state).blob_writer@ + chunk_bytes(
                        *old(chunk),
                        blobtable@,
                        store@,
                    )
                    &&& final(state).wf()
                },
            },
    {
        if chunk.blob_index as usize >= blobtable.entries.len() {
            return Err(BuildError::UnresolvedBlobIndex);
        }
        let place = match &blobtable.entries[chunk.blob_index as usize].blob_id {
            BlobId::Pending => {
                return Err(BuildError::SourceBlobMissing { blob_index: chunk.blob_index });
            },
            BlobId::Committed(id) => find_keyed(store, id),
        };
        let source = match place {
            None => {
                return Err(BuildError::SourceBlobMissing { blob_index: chunk.blob_index });
            },
            Some(p) => &store[p],
        };
        let buf = match BlobNodeReader::read_range(
            source.data.as_slice(),
            chunk.compressed_offset,
            chunk.compressed_size,
        ) {
            None => {
                return Err(
                    BuildError::ShortRead {
                        blob_index: chunk.blob_index,
                        offset: chunk.compressed_offset,
                        size: chunk.compressed_size,
                    },
                );
            },
            Some(buf) => buf,
        };
        assert(buf@ == chunk_bytes(*old(chunk), blobtable@, store@));
        state.blob_writer.extend_from_slice(buf.as_slice());
        assert(state.blob_writer@ =~= old(state).blob_writer@ + buf@);
        state.blob_ctx.absorb_bytes(buf.as_slice());
        let slot = match state.blob_ctx.reserve_for(chunk.compressed_size, chunk.uncompressed_size) {
            Err(e) => {
                return Err(e);
            },
            Ok(slot) => slot,
        };
        chunk.blob_index = state.blob_info.blob_index;
        chunk.index = slot.index;
        chunk.compressed_offset = slot.compressed_offset;
        chunk.uncompressed_offset = slot.uncompressed_offset;
        state.blob_ctx.record_chunk_meta(chunk);
        state.phase = RepackPhase::Writing;
        Ok(())
    }

    /// Copies the sizes and offsets of a finished blob into its header record.
    pub fn finalize_blobinfo_meta_data(blobinfo: &mut BlobInfo, summary: BlobSizeSummary)
        ensures
            final(blobinfo)@ == old(blobinfo)@.sealed(summary),
    {
        blobinfo.meta_ci_offset = summary.meta_ci_offset;
        blobinfo.meta_ci_compressed_size = summary.meta_ci_compressed_size;
        blobinfo.meta_ci_uncompressed_size = summary.meta_ci_uncompressed_size;
        blobinfo.chunk_count = summary.chunk_count;
        blobinfo.compressed_size = summary.compressed_size;
        blobinfo.uncompressed_size = summary.uncompressed_size;
    }

    /// Seals the new blob: finalizes its accumulator and copies the sizes and
    /// offsets into its header record. The blob is still without an
    /// identifier.
    pub fn seal_blob(blob_state: &mut PrefetchBlobState)
        requires
            old(blob_state).wf(),
        ensures
            final(blob_state).sealed(),
            final(blob_state).blob_ctx@ == old(blob_state).blob_ctx@.finalized(),
            final(blob_state).blob_info@ == old(blob_state).blob_info@.sealed(
                old(blob_state).blob_ctx@.finalized().summary(),
            ),
            final(blob_state).blob_writer == old(blob_state).blob_writer,
    {
        let summary = blob_state.blob_ctx.finalize();
        Self::finalize_blobinfo_meta_data(&mut blob_state.blob_info, summary);
        blob_state.phase = RepackPhase::Sealed;
    }

    /// Finishes the sealed blob: appends its header record, still without an
    /// identifier, to the blob table, and derives the identifier of the blob
    /// from its content. The build context and the accumulator take the
    /// identifier; the entry of the table takes it when it is committed.
    /// Returns the identifier.
    pub fn finalize_blob(ctx: &mut BuildContext, blobtable: &mut BlobTable, blob_state: &mut PrefetchBlobState) -> (id:
        String)
        requires
            old(blob_state).sealed(),
        ensures
            id@ == blob_id_of(old(blob_state).blob_writer@),
            id@.len() == 2 * DIGEST_LEN,
            ctx_committed(*old(ctx), *final(ctx), id@),
            final(blobtable)@ == old(blobtable)@.push(old(blob_state).blob_info@),
            final(blob_state).phase is Committed,
            final(blob_state).blob_info == old(blob_state).blob_info,
            final(blob_state).blob_writer == old(blob_state).blob_writer,
            final(blob_state).blob_ctx@ == (BlobContextView { blob_id: Some(id@), ..old(blob_state).blob_ctx@ }),
    {
        blobtable.entries.push(blob_state.blob_info.clone());
        assert(blobtable@ =~= old(blobtable)@.push(old(blob_state).blob_info@));
        let digest = blob_state.blob_ctx.content_digest();
        let id = hex_encode(digest.as_slice());
        ctx.blob_id = BlobId::Committed(id.clone());
        blob_state.blob_ctx.blob_id = BlobId::Committed(id.clone());
        blob_state.phase = RepackPhase::Committed;
        id
    }

    /// Commits the identifier of the new blob: the one entry of the blob
    /// table that is without an identifier takes `id`. Where the table does
    /// not hold exactly one such entry, nothing changes.
    pub fn commit_blob_id(blobtable: &mut BlobTable, id: &String) -> (done: Result<(), BuildError>)
        ensures
            if pending_count(old(blobtable)@) == 1 {
                done is Ok && final(blobtable)@ == committed_table(old(blobtable)@, id@)
            } else {
                done == Err::<(), BuildError>(BuildError::PlaceholderCount) && final(blobtable)@ == old(
                    blobtable,
                )@
            },
    {
        let mut pending: usize = 0;
        let mut i: usize = 0;
        while i < blobtable.entries.len()
            invariant
                i <= blobtable.entries@.len(),
                pending <= i,
                pending == pending_count(blobtable@.take(i as int)),
                *blobtable == *old(blobtable),
            decreases blobtable.entries@.len() - i,
        {
            proof {
                assert(blobtable@.take(i + 1).drop_last() =~= blobtable@.take(i as int));
            }
            if blobtable.entries[i].blob_id.is_pending() {
                pending += 1;
            }
            i += 1;
        }
        proof {
            assert(blobtable@.take(blobtable@.len() as int) =~= blobtable@);
        }
        if pending != 1 {
            return Err(BuildError::PlaceholderCount);
        }
        let mut i: usize = 0;
        while i < blobtable.entries.len()
            invariant
                i <= blobtable.entries@.len(),
                blobtable@.len() == old(blobtable)@.len(),
                forall|k: int| 0 <= k < i ==> #[trigger] blobtable@[k] == committed_entry(old(blobtable)@[k], id@),
                forall|k: int| i <= k < blobtable@.len() ==> #[trigger] blobtable@[k] == old(blobtable)@[k],
            decreases blobtable.entries@.len() - i,
        {
            let ghost prev = *blobtable;
            if blobtable.entries[i].blob_id.is_pending() {
                blobtable.entries[i].blob_id = BlobId::Committed(id.clone());
            }
            proof {
                assert(blobtable.entries@.len() == prev.entries@.len());
                assert forall|k: int| 0 <= k < blobtable@.len() && k != i implies #[trigger] blobtable@[k]
                    == prev@[k] by {
                    assert(blobtable.entries@[k] == prev.entries@[k]);
                }
                assert(blobtable@[i as int] == committed_entry(prev@[i as int], id@));
            }
            i += 1;
        }
        assert(blobtable@ =~= committed_table(old(blobtable)@, id@));
        Ok(())
    }

    /// Repacks the chunks of the selected nodes into one new blob.
    ///
    /// The new blob is created: registered behind the last entry of the blob
    /// table. It is written: the nodes are moved in the order of the
    /// selection, the chunks of a node in their own order; the bytes of a
    /// chunk are copied as they are stored. It is sealed: its sizes become
    /// final. It is finished: its header record joins the blob table and its
    /// identifier, derived from its content, goes to the build context. It
    /// is committed: the identifier goes to the entry of the table. Returns
    /// the new blob.
    ///
    /// On failure the tree, the table and the context are left as the failed
    /// pass left them, and are to be discarded.
    pub fn generate_prefetch(
        tree: &mut Tree,
        ctx: &mut BuildContext,
        blobtable: &mut BlobTable,
        store: &Vec<BlobData>,
        prefetch_nodes: Vec<usize>,
    ) -> (made: Result<BlobData, BuildError>)
        ensures
            match made {
                Ok(blob) => {
                    &&& old(blobtable)@.len() <= u32::MAX
                    &&& forall|k: int|
                        0 <= k < prefetch_nodes@.len() ==> #[trigger] selection_ok_at(
                            *old(tree),
                            prefetch_nodes@,
                            k,
                            old(blobtable)@,
                            store@,
                            old(blobtable)@.len() as u32,
                        )
                    &&& pending_count(old(blobtable)@) == 0
                    &&& blob.data@ == bytes_after_nodes(
                        *old(tree),
                        prefetch_nodes@,
                        prefetch_nodes@.len() as int,
                        old(blobtable)@,
                        store@,
                    )
                    &&& blob.blob_id@ == blob_id_of(blob.data@)
                    &&& blob.blob_id@.len() == 2 * DIGEST_LEN
                    &&& ctx_committed(*old(ctx), *final(ctx), blob.blob_id@)
                    &&& final(blobtable)@ == old(blobtable)@.push(
                        prefetch_entry(
                            old(ctx).chunk_size,
                            old(blobtable)@.len() as u32,
                            acc_after_nodes(
                                *old(tree),
                                prefetch_nodes@,
                                prefetch_nodes@.len() as int,
                                old(blobtable)@,
                                store@,
                                old(blobtable)@.len() as u32,
                            ),
                            blob.blob_id@,
                        ),
                    )
                    &&& tree_repacked(
                        *old(tree),
                        *final(tree),
                        prefetch_nodes@,
                        old(blobtable)@,
                        store@,
                        old(blobtable)@.len() as u32,
                    )
                },
                Err(e) => {
                    ||| old(blobtable)@.len() > u32::MAX && e == BuildError::TooManyBlobs
                    ||| old(blobtable)@.len() <= u32::MAX && exists|k: int|
                        {
                            &&& 0 <= k < prefetch_nodes@.len()
                            &&& #[trigger] selection_fails_at(
                                *old(tree),
                                prefetch_nodes@,
                                k,
                                old(blobtable)@,
                                store@,
                                old(blobtable)@.len() as u32,
                                e,
                            )
                            &&& forall|j: int|
                                0 <= j < k ==> #[trigger] selection_ok_at(
                                    *old(tree),
                                    prefetch_nodes@,
                                    j,
                                    old(blobtable)@,
                                    store@,
                                    old(blobtable)@.len() as u32,
                                )
                        }
                    ||| {
                        &&& old(blobtable)@.len() <= u32::MAX
                        &&& forall|k: int|
                            0 <= k < prefetch_nodes@.len() ==> #[trigger] selection_ok_at(
                                *old(tree),
                                prefetch_nodes@,
                                k,
                                old(blobtable)@,
                                store@,
                                old(blobtable)@.len() as u32,
                            )
                        &&& pending_count(old(blobtable)@) != 0
                        &&& e == BuildError::PlaceholderCount
                    }
                },
            },
    {
        let table_len = blobtable.entries.len();
        if table_len > u32::MAX as usize {
            return Err(BuildError::TooManyBlobs);
        }
        let blob_layer_num: u32 = table_len as u32;
        let mut blob_state = PrefetchBlobState::new(ctx, blob_layer_num);
        let ghost tree0 = *tree;
        let ghost table0 = blobtable@;
        let ghost info0 = blob_state.blob_info;
        let mut k: usize = 0;
        while k < prefetch_nodes.len()
            invariant
                k <= prefetch_nodes@.len(),
                tree0 == *old(tree),
                table0 == old(blobtable)@,
                table0 == blobtable@,
                table0.len() == blob_layer_num,
                *ctx == *old(ctx),
                blob_state.wf(),
                blob_state.blob_info == info0,
                info0.blob_index == blob_layer_num,
                info0@ == (BlobInfoView {
                    compressor: Algorithm::Zstd,
                    ..BlobInfoView::fresh(
                        blob_layer_num,
                        None,
                        0,
                        0,
                        ctx.chunk_size,
                        u32::MAX,
                        BlobFeatures::repacked(),
                    )
                }),
                blob_state.blob_ctx@ == acc_after_nodes(tree0, prefetch_nodes@, k as int, table0, store@, blob_layer_num),
                blob_state.blob_writer@ == bytes_after_nodes(tree0, prefetch_nodes@, k as int, table0, store@),
                forall|j: int|
                    0 <= j < k ==> #[trigger] selection_ok_at(
                        tree0,
                        prefetch_nodes@,
                        j,
                        table0,
                        store@,
                        blob_layer_num,
                    ),
                tree.nodes@.len() == tree0.nodes@.len(),
                forall|j: int|
                    0 <= j < k ==> node_rebound(
                        tree0.nodes@[prefetch_nodes@[j] as int],
                        #[trigger] tree.nodes@[prefetch_nodes@[j] as int],
                        repacked_chunks(
                            acc_after_nodes(tree0, prefetch_nodes@, j, table0, store@, blob_layer_num),
                            tree0.nodes@[prefetch_nodes@[j] as int].chunks@,
                            table0,
                            store@,
                            blob_layer_num,
                        ),
                        layer_of(blob_layer_num),
                    ),
                forall|i: int|
                    0 <= i < tree0.nodes@.len() && !prefetch_nodes@.take(k as int).contains(i as usize)
                        ==> #[trigger] tree.nodes@[i] == tree0.nodes@[i],
            decreases prefetch_nodes@.len() - k,
        {
            let node = prefetch_nodes[k];
            let ghost tree_before = *tree;
            let ghost acc_before = blob_state.blob_ctx@;
            proof {
                if node < tree.nodes@.len() && !first_selected_at(prefetch_nodes@, k as int) {
                    let j = choose|j: int| 0 <= j < k && prefetch_nodes@[j] == prefetch_nodes@[k as int];
                    assert(selection_ok_at(tree0, prefetch_nodes@, j, table0, store@, blob_layer_num));
                    let rebound = tree.nodes@[prefetch_nodes@[j] as int];
                    assert(rebound.chunks@.len() > 0);
                    assert(rebound.chunks@[0].blob_index == blob_layer_num);
                    assert(rebound.chunks@.take(0) =~= Seq::<NodeChunk>::empty());
                    assert(chunk_failure_at(acc_before, rebound.chunks@, 0, table0, store@, blob_layer_num) == Some(
                        BuildError::UnresolvedBlobIndex,
                    ));
                } else if node < tree.nodes@.len() {
                    assert(!prefetch_nodes@.take(k as int).contains(node)) by {
                        if prefetch_nodes@.take(k as int).contains(node) {
                            let j = choose|j: int|
                                0 <= j < prefetch_nodes@.take(k as int).len() && prefetch_nodes@.take(k as int)[j]
                                    == node;
                            assert(prefetch_nodes@[j] == prefetch_nodes@[k as int]);
                        }
                    }
                    assert(tree.nodes@[node as int] == tree0.nodes@[node as int]);
                }
            }
            match Self::process_prefetch_node(tree, node, &mut blob_state, blobtable, store) {
                Err(e) => {
                    assert(selection_fails_at(tree0, prefetch_nodes@, k as int, table0, store@, blob_layer_num, e));
                    return Err(e);
                },
                Ok(()) => {},
            }
            proof {
                assert(first_selected_at(prefetch_nodes@, k as int));
                assert(selection_ok_at(tree0, prefetch_nodes@, k as int, table0, store@, blob_layer_num));
                assert forall|j: int| 0 <= j < k + 1 implies node_rebound(
                    tree0.nodes@[prefetch_nodes@[j] as int],
                    #[trigger] tree.nodes@[prefetch_nodes@[j] as int],
                    repacked_chunks(
                        acc_after_nodes(tree0, prefetch_nodes@, j, table0, store@, blob_layer_num),
                        tree0.nodes@[prefetch_nodes@[j] as int].chunks@,
                        table0,
                        store@,
                        blob_layer_num,
                    ),
                    layer_of(blob_layer_num),
                ) by {
                    if j < k {
                        assert(selection_ok_at(tree0, prefetch_nodes@, j, table0, store@, blob_layer_num));
                        assert(prefetch_nodes@[j] != prefetch_nodes@[k as int]);
                        assert(tree.nodes@[prefetch_nodes@[j] as int] == tree_before.nodes@[prefetch_nodes@[j] as int]);
                    }
                }
                assert forall|i: int|
                    0 <= i < tree0.nodes@.len() && !prefetch_nodes@.take(k + 1).contains(
                        i as usize,
                    ) implies #[trigger] tree.nodes@[i] == tree0.nodes@[i] by {
                    assert(prefetch_nodes@.take(k + 1)[k as int] == node);
                    assert(i != node);
                    if prefetch_nodes@.take(k as int).contains(i as usize) {
                        let j = choose|j: int|
                            0 <= j < prefetch_nodes@.take(k as int).len() && prefetch_nodes@.take(k as int)[j]
                                == i as usize;
                        assert(prefetch_nodes@.take(k + 1)[j] == i as usize);
                    }
                    assert(tree.nodes@[i] == tree_before.nodes@[i]);
                }
            }
            k += 1;
        }
        proof {
            assert(prefetch_nodes@.take(prefetch_nodes@.len() as int) =~= prefetch_nodes@);
        }
        let ghost acc_end = blob_state.blob_ctx@;
        Self::seal_blob(&mut blob_state);
        let id = Self::finalize_blob(ctx, blobtable, &mut blob_state);
        proof {
            lemma_pending_count_push(table0, blob_state.blob_info@);
        }
        match Self::commit_blob_id(blobtable, &id) {
            Err(e) => {
                return Err(e);
            },
            Ok(()) => {},
        }
        proof {
            lemma_commit_without_pending(table0, id@);
            assert(blobtable@ =~= table0.push(prefetch_entry(ctx.chunk_size, blob_layer_num, acc_end, id@)));
        }
        Ok(BlobData { blob_id: id, data: blob_state.blob_writer })
    }

    /// Moves the chunks of the node at place `node` to the new blob, in their
    /// order, and files the node under the new blob's layer. After a failure
    /// the tree and the state are to be discarded.
    pub fn process_prefetch_node(
        tree: &mut Tree,
        node: usize,
        state: &mut PrefetchBlobState,
        blobtable: &BlobTable,
        store: &Vec<BlobData>,
    ) -> (done: Result<(), BuildError>)
        requires
            old(state).wf(),
        ensures
            match done {
                Ok(()) => {
                    &&& node < old(tree).nodes@.len()
                    &&& node_repackable(
                        old(state).blob_ctx@,
                        old(tree).nodes@[node as int].chunks@,
                        blobtable@,
                        store@,
                        old(state).blob_info.blob_index,
                    )
                    &&& tree_rebound(
                        *old(tree),
                        *final(tree),
                        node as int,
                        repacked_chunks(
                            old(state).blob_ctx@,
                            old(tree).nodes@[node as int].chunks@,
                            blobtable@,
                            store@,
                            old(state).blob_info.blob_index,
                        ),
                        layer_of(old(state).blob_info.blob_index),
                    )
                    &&& final(state).wf()
                    &&& final(state).phase is Writing
                    &&& final(state).blob_info == old(state).blob_info
                    &&& final(state).blob_ctx@ == acc_after(
                        old(state).blob_ctx@,
                        old(tree).nodes@[node as int].chunks@,
                        blobtable@,
                        store@,
                        old(state).blob_info.blob_index,
                    )
                    &&& final(state).blob_writer@ == old(state).blob_writer@ + source_bytes(
                        old(tree).nodes@[node as int].chunks@,
                        blobtable@,
                        store@,
                    )
                },
                Err(e) => if node >= old(tree).nodes@.len() {
                    e == BuildError::NodeNotFound
                } else {
                    node_fails_with(
                        old(state).blob_ctx@,
                        old(tree).nodes@[node as int].chunks@,
                        blobtable@,
                        store@,
                        old(state).blob_info.blob_index,
                        e,
                    )
                },
            },
    {
        if node >= tree.nodes.len() {
            return Err(BuildError::NodeNotFound);
        }
        let count = tree.nodes[node].chunks.len();
        if count == 0 {
            return Err(BuildError::UnresolvedBlobIndex);
        }
        let ghost acc0 = state.blob_ctx@;
        let ghost chunks0 = tree.nodes@[node as int].chunks@;
        let ghost written0 = state.blob_writer@;
        let ghost new_index = state.blob_info.blob_index;
        tree.nodes[node].layer_idx = (state.blob_info.blob_index % 0x10000) as u16;
        let mut i: usize = 0;
        while i < count
            invariant
                i <= count,
                count == chunks0.len(),
                node < tree.nodes@.len(),
                tree.nodes@.len() == old(tree).nodes@.len(),
                forall|k: int|
                    0 <= k < tree.nodes@.len() && k != node ==> #[trigger] tree.nodes@[k] == old(tree).nodes@[k],
                tree.nodes@[node as int].inode == old(tree).nodes@[node as int].inode,
                tree.nodes@[node as int].info == old(tree).nodes@[node as int].info,
                tree.nodes@[node as int].children == old(tree).nodes@[node as int].children,
                tree.nodes@[node as int].layer_idx == layer_of(new_index),
                tree.nodes@[node as int].chunks@.len() == count,
                forall|k: int|
                    0 <= k < i ==> #[trigger] tree.nodes@[node as int].chunks@[k] == repacked_at(
                        acc0,
                        chunks0,
                        k,
                        blobtable@,
                        store@,
                        new_index,
                    ),
                forall|k: int| i <= k < count ==> #[trigger] tree.nodes@[node as int].chunks@[k] == chunks0[k],
                forall|k: int|
                    0 <= k < i ==> #[trigger] chunk_failure_at(acc0, chunks0, k, blobtable@, store@, new_index) is None,
                state.wf(),
                i > 0 ==> state.phase is Writing,
                state.blob_info == old(state).blob_info,
                new_index == old(state).blob_info.blob_index,
                acc0 == old(state).blob_ctx@,
                chunks0 == old(tree).nodes@[node as int].chunks@,
                written0 == old(state).blob_writer@,
                state.blob_ctx@ == acc_after(acc0, chunks0.take(i as int), blobtable@, store@, new_index),
                state.blob_writer@ == written0 + source_bytes(chunks0.take(i as int), blobtable@, store@),
            decreases count - i,
        {
            proof {
                assert(chunks0.take(i + 1).drop_last() =~= chunks0.take(i as int));
                assert(chunks0.take(i + 1).last() == chunks0[i as int]);
            }
            match Self::repack_chunk(&mut tree.nodes[node].chunks[i], state, blobtable, store) {
                Err(e) => {
                    assert(chunk_failure_at(acc0, chunks0, i as int, blobtable@, store@, new_index) == Some(e));
                    return Err(e);
                },
                Ok(()) => {},
            }
            assert(chunk_failure_at(acc0, chunks0, i as int, blobtable@, store@, new_index) is None);
            assert(state.blob_writer@ =~= written0 + source_bytes(chunks0.take(i + 1), blobtable@, store@));
            i += 1;
        }
        proof {
            assert(chunks0.take(count as int) =~= chunks0);
            assert(tree.nodes@[node as int].chunks@ =~= repacked_chunks(acc0, chunks0, blobtable@, store@, new_index));
        }
        Ok(())
    }
}

} // verus!
