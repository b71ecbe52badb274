//! Building the tree of a chunk dictionary: a root directory with one file
//! whose chunks are the chunks of the dictionary.

use vstd::prelude::*;
use vstd::string::StringExecFns;
use crate::blob::BlobContextView;
use crate::chunk::{ChunkdictBlobInfo, ChunkdictChunkInfo, NodeChunk};
use crate::compress::Algorithm;
use crate::context::{BuildContext, RafsVersion};
use crate::error::BuildError;
use crate::filter::{group_total, kept_chunks, report_ids, undersized_ids, UndersizedBlob};
use crate::generator::Generator;
use crate::keyed::{find_keyed, position_of, Keyed};
use crate::manager::{blob_of, place_of_blob, with_blob, BlobManager};
use crate::mode::{directory_bits, regular_bits, MODE_ACCESS, MODE_DIRECTORY, MODE_REGULAR};
use crate::tree::{Inode, Node, NodeInfo, Tree};

verus! {

impl Keyed for ChunkdictBlobInfo {
    open spec fn key(&self) -> Option<Seq<char>> {
        Some(self.blob_id@)
    }

    fn has_key(&self, id: &String) -> (hit: bool) {
        self.blob_id == *id
    }
}

/// An accumulator after it took over the compressor and the metadata-table
/// header of its blob's description.
pub open spec fn with_header(acc: BlobContextView, blob: ChunkdictBlobInfo, compressor: Algorithm) -> BlobContextView {
    BlobContextView {
        blob_compressor: compressor,
        meta_ci_compressor: Algorithm::Zstd,
        meta_ci_offset: blob.blob_meta_ci_offset,
        meta_ci_compressed_size: blob.blob_meta_ci_compressed_size,
        meta_ci_uncompressed_size: blob.blob_meta_ci_uncompressed_size,
        ..acc
    }
}

/// Why the chunk that stands at place `index` of its list cannot be
/// inserted, if it cannot: the chunk's file offset leaves the 64-bit range,
/// its source blob has no description, the description names no known
/// compressor, no blob index is left for the blob, or no place can be
/// reserved in the blob. Where several hold, the one named first decides.
pub open spec fn dict_failure(
    mgr: Seq<BlobContextView>,
    chunk: ChunkdictChunkInfo,
    index: int,
    blobs: Seq<ChunkdictBlobInfo>,
    fallback: Algorithm,
) -> Option<BuildError> {
    if index * chunk.chunk_compressed_size > u64::MAX {
        Some(BuildError::OffsetOverflow)
    } else {
        match position_of(blobs, chunk.chunk_blob_id@) {
            None => Some(BuildError::UnknownSourceBlob),
            Some(d) => if Algorithm::named(blobs[d].blob_compressor@) is None {
                Some(BuildError::UnknownCompressor)
            } else if place_of_blob(mgr, chunk.chunk_blob_id@) > u32::MAX {
                Some(BuildError::TooManyBlobs)
            } else {
                blob_of(mgr, chunk.chunk_blob_id@, fallback).reserve_failure(
                    chunk.chunk_compressed_size,
                    chunk.chunk_uncompressed_size,
                )
            },
        }
    }
}

/// The accumulators after a chunk was inserted: the accumulator of the
/// chunk's source blob, created where the blob had none, has reserved the
/// chunk's place and has taken over the header of the blob's description.
pub open spec fn dict_step(
    mgr: Seq<BlobContextView>,
    chunk: ChunkdictChunkInfo,
    blobs: Seq<ChunkdictBlobInfo>,
    fallback: Algorithm,
) -> Seq<BlobContextView> {
    let id = chunk.chunk_blob_id@;
    let blob = blobs[position_of(blobs, id).unwrap()];
    with_blob(mgr, id, fallback).update(
        place_of_blob(mgr, id),
        with_header(
            blob_of(mgr, id, fallback).reserved(chunk.chunk_compressed_size, chunk.chunk_uncompressed_size),
            blob,
            Algorithm::named(blob.blob_compressor@).unwrap(),
        ),
    )
}

/// The chunk of the dictionary file that stands for a described chunk: bound
/// to the accumulator of its source blob under the next index of that blob,
/// with the offsets that the description gives.
pub open spec fn dict_chunk(
    mgr: Seq<BlobContextView>,
    chunk: ChunkdictChunkInfo,
    index: int,
    fallback: Algorithm,
) -> NodeChunk {
    NodeChunk {
        blob_index: place_of_blob(mgr, chunk.chunk_blob_id@) as u32,
        index: blob_of(mgr, chunk.chunk_blob_id@, fallback).chunk_count,
        file_offset: (index * chunk.chunk_compressed_size) as u64,
        compressed_offset: chunk.chunk_compressed_offset,
        compressed_size: chunk.chunk_compressed_size,
        uncompressed_offset: chunk.chunk_uncompressed_offset,
        uncompressed_size: chunk.chunk_uncompressed_size,
        digest: chunk.chunk_digest,
    }
}

/// The accumulators after the chunks of `chunks` were inserted, one after
/// the other.
pub open spec fn mgr_after(
    mgr: Seq<BlobContextView>,
    chunks: Seq<ChunkdictChunkInfo>,
    blobs: Seq<ChunkdictBlobInfo>,
    fallback: Algorithm,
) -> Seq<BlobContextView>
    decreases chunks.len(),
{
    if chunks.len() == 0 {
        mgr
    } else {
        dict_step(mgr_after(mgr, chunks.drop_last(), blobs, fallback), chunks.last(), blobs, fallback)
    }
}

/// Why the chunk at place `i` of `chunks` cannot be inserted, once those
/// before it have been, if it cannot.
pub open spec fn dict_failure_at(
    mgr: Seq<BlobContextView>,
    chunks: Seq<ChunkdictChunkInfo>,
    i: int,
    blobs: Seq<ChunkdictBlobInfo>,
    fallback: Algorithm,
) -> Option<BuildError> {
    dict_failure(mgr_after(mgr, chunks.take(i), blobs, fallback), chunks[i], i, blobs, fallback)
}

/// The chunk of the dictionary file that stands for the chunk at place `i`
/// of `chunks`.
pub open spec fn dict_chunk_at(
    mgr: Seq<BlobContextView>,
    chunks: Seq<ChunkdictChunkInfo>,
    i: int,
    blobs: Seq<ChunkdictBlobInfo>,
    fallback: Algorithm,
) -> NodeChunk {
    dict_chunk(mgr_after(mgr, chunks.take(i), blobs, fallback), chunks[i], i, fallback)
}

/// The chunks of the dictionary file that stand for `chunks`.
pub open spec fn dict_chunks(
    mgr: Seq<BlobContextView>,
    chunks: Seq<ChunkdictChunkInfo>,
    blobs: Seq<ChunkdictBlobInfo>,
    fallback: Algorithm,
) -> Seq<NodeChunk> {
    Seq::new(chunks.len(), |i: int| dict_chunk_at(mgr, chunks, i, blobs, fallback))
}

/// Every chunk of `chunks` can be inserted in its turn.
pub open spec fn dict_insertable(
    mgr: Seq<BlobContextView>,
    chunks: Seq<ChunkdictChunkInfo>,
    blobs: Seq<ChunkdictBlobInfo>,
    fallback: Algorithm,
) -> bool {
    forall|i: int| 0 <= i < chunks.len() ==> #[trigger] dict_failure_at(mgr, chunks, i, blobs, fallback) is None
}

/// The chunk at place `i` is the first chunk of `chunks` that cannot be
/// inserted, and `e` is why.
pub open spec fn dict_fails_at(
    mgr: Seq<BlobContextView>,
    chunks: Seq<ChunkdictChunkInfo>,
    blobs: Seq<ChunkdictBlobInfo>,
    fallback: Algorithm,
    i: int,
    e: BuildError,
) -> bool {
    &&& 0 <= i < chunks.len()
    &&& dict_failure_at(mgr, chunks, i, blobs, fallback) == Some(e)
    &&& forall|j: int| 0 <= j < i ==> #[trigger] dict_failure_at(mgr, chunks, j, blobs, fallback) is None
}

/// Inserting `chunks` stopped at the chunk at place `i`: the accumulators
/// `after` are those that the chunks before it left. The chunk that could
/// not be inserted has left no trace.
pub open spec fn dict_stopped_at(
    mgr: Seq<BlobContextView>,
    after: Seq<BlobContextView>,
    chunks: Seq<ChunkdictChunkInfo>,
    blobs: Seq<ChunkdictBlobInfo>,
    fallback: Algorithm,
    i: int,
    e: BuildError,
) -> bool {
    &&& dict_fails_at(mgr, chunks, blobs, fallback, i, e)
    &&& after == mgr_after(mgr, chunks.take(i), blobs, fallback)
}

/// The uncompressed sizes of `chunks`, together.
pub open spec fn uncompressed_sum(chunks: Seq<NodeChunk>) -> nat
    decreases chunks.len(),
{
    if chunks.len() == 0 {
        0
    } else {
        uncompressed_sum(chunks.drop_last()) + chunks.last().uncompressed_size as nat
    }
}

/// The length in bytes of the name of the dictionary file.
pub const DICT_NAME_SIZE: u16 = 9;

/// The number of blocks that the nodes of a chunk dictionary declare.
pub const DICT_BLOCKS: u64 = 256;

/// `info` says that the node was given its owner explicitly, came from
/// the inode `src_ino` of device 0, and goes from `source` to `target`
/// under the path `path`.
pub open spec fn info_is(info: NodeInfo, src_ino: u64, source: Seq<char>, path: Seq<char>, target: Seq<char>) -> bool {
    &&& info.explicit_uidgid
    &&& info.src_dev == 0
    &&& info.src_ino == src_ino
    &&& info.rdev == 0
    &&& info.source@ == source
    &&& info.path@ == path
    &&& info.target@ == target
    &&& info.v6_force_extended_inode
}

/// The inode of the root of a chunk dictionary: the directory with inode
/// number 1, owned by user and group 1000, with three links.
pub open spec fn root_inode(version: RafsVersion) -> Inode {
    Inode {
        version,
        ino: 1,
        uid: 1000,
        gid: 1000,
        projid: 0,
        mode: MODE_ACCESS | MODE_DIRECTORY,
        nlink: 3,
        name_size: 1,
        rdev: 0,
        blocks: DICT_BLOCKS,
        size: 0,
        child_count: 0,
    }
}

/// The inode of the file of a chunk dictionary with the chunks `chunks`:
/// the regular file with inode number 2, owned by user and group 0, with one
/// link; its size is the uncompressed size of its chunks together, its child
/// count the number of its chunks.
pub open spec fn dict_inode(version: RafsVersion, chunks: Seq<NodeChunk>) -> Inode {
    Inode {
        version,
        ino: 2,
        uid: 0,
        gid: 0,
        projid: 0,
        mode: MODE_ACCESS | MODE_REGULAR,
        nlink: 1,
        name_size: DICT_NAME_SIZE,
        rdev: 0,
        blocks: DICT_BLOCKS,
        size: uncompressed_sum(chunks) as u64,
        child_count: chunks.len() as u32,
    }
}

/// `node` is the root of a chunk dictionary: the directory `/`, without chunks.
pub open spec fn is_root_node(node: Node, version: RafsVersion) -> bool {
    &&& node.inode == root_inode(version)
    &&& info_is(node.info, 0, "/"@, "/"@, "/"@)
    &&& node.layer_idx == 0
    &&& node.chunks@ == Seq::<NodeChunk>::empty()
}

/// `node` is the file of a chunk dictionary: the file `/chunkdict` with the
/// chunks `chunks`, without children.
pub open spec fn is_dict_node(node: Node, version: RafsVersion, chunks: Seq<NodeChunk>) -> bool {
    &&& node.inode == dict_inode(version, chunks)
    &&& info_is(node.info, 1, "/"@, "/chunkdict"@, "/chunkdict"@)
    &&& node.layer_idx == 0
    &&& node.chunks@ == chunks
    &&& node.children@ == Seq::<usize>::empty()
}

/// What building a chunk dictionary hands back: the tree, and one report
/// for each source blob whose chunks were dropped as too small.
#[derive(Debug, PartialEq, Eq)]
pub struct BuildOutput {
    pub tree: Tree,
    pub undersized: Vec<UndersizedBlob>,
}

impl Generator {
    /// Builds the tree of a chunk dictionary from the described chunks.
    ///
    /// The chunks of source blobs that are smaller than a block are dropped.
    /// The tree has two nodes: the root directory at place 0 and, as its only
    /// child, the dictionary file at place 1, whose chunks stand for the
    /// chunks that stay. The accumulators of the source blobs are looked up
    /// or created in `blob_mgr`. Where a chunk cannot be inserted, the
    /// accumulators are as the chunks before it left them; a list that is
    /// too long leaves them as they were.
    pub fn generate(
        ctx: &BuildContext,
        blob_mgr: &mut BlobManager,
        chunkdict_chunks_origin: Vec<ChunkdictChunkInfo>,
        chunkdict_blobs: Vec<ChunkdictBlobInfo>,
    ) -> (made: Result<BuildOutput, BuildError>)
        ensures
            ({
                let kept = kept_chunks(chunkdict_chunks_origin@, ctx.v6_block_size());
                if kept.len() > u32::MAX {
                    made is Err && made->Err_0 == BuildError::TooManyChunks && final(blob_mgr)@ == old(blob_mgr)@
                } else {
                    match made {
                        Ok(out) => {
                            &&& dict_insertable(old(blob_mgr)@, kept, chunkdict_blobs@, ctx.compressor)
                            &&& final(blob_mgr)@ == mgr_after(old(blob_mgr)@, kept, chunkdict_blobs@, ctx.compressor)
                            &&& out.tree.nodes@.len() == 2
                            &&& is_root_node(out.tree.nodes@[0], ctx.fs_version)
                            &&& out.tree.nodes@[0].children@ == seq![1usize]
                            &&& is_dict_node(
                                out.tree.nodes@[1],
                                ctx.fs_version,
                                dict_chunks(old(blob_mgr)@, kept, chunkdict_blobs@, ctx.compressor),
                            )
                            &&& out.tree.wf()
                            &&& report_ids(out.undersized@) == undersized_ids(
                                chunkdict_chunks_origin@,
                                ctx.v6_block_size(),
                            )
                            &&& forall|k: int|
                                0 <= k < out.undersized@.len() ==> (#[trigger] out.undersized@[k]).total_size
                                    == group_total(chunkdict_chunks_origin@, out.undersized@[k].blob_id@)
                        },
                        Err(e) => exists|i: int|
                            #[trigger] dict_stopped_at(
                                old(blob_mgr)@,
                                final(blob_mgr)@,
                                kept,
                                chunkdict_blobs@,
                                ctx.compressor,
                                i,
                                e,
                            ),
                    }
                }
            }),
    {
        let mut chunkdict_chunks = chunkdict_chunks_origin;
        let undersized = Self::validate_and_remove_chunks(ctx, &mut chunkdict_chunks);
        let mut tree = match Self::build_root_tree(ctx) {
            Err(e) => {
                return Err(e);
            },
            Ok(tree) => tree,
        };
        let child = match Self::build_child_tree(ctx, blob_mgr, &chunkdict_chunks, &chunkdict_blobs) {
            Err(e) => {
                return Err(e);
            },
            Ok(child) => child,
        };
        tree.nodes.push(child);
        tree.nodes[0].children.push(1);
        assert(tree.nodes@[0].children@ =~= seq![1usize]);
        match Self::validate_tree(&tree) {
            Err(e) => {
                return Err(e);
            },
            Ok(_) => {},
        }
        Ok(BuildOutput { tree, undersized })
    }

    /// Builds the root of a chunk dictionary: a tree of one node, the
    /// directory `/`.
    pub fn build_root_tree(ctx: &BuildContext) -> (made: Result<Tree, BuildError>)
        ensures
            made matches Ok(tree) && {
                &&& tree.nodes@.len() == 1
                &&& is_root_node(tree.nodes@[0], ctx.fs_version)
                &&& tree.nodes@[0].children@ == Seq::<usize>::empty()
            },
    {
        let inode = Inode {
            version: ctx.fs_version,
            ino: 1,
            uid: 1000,
            gid: 1000,
            projid: 0,
            mode: MODE_ACCESS | directory_bits(),
            nlink: 3,
            name_size: 1,
            rdev: 0,
            blocks: DICT_BLOCKS,
            size: 0,
            child_count: 0,
        };
        let info = NodeInfo {
            explicit_uidgid: true,
            src_dev: 0,
            src_ino: 0,
            rdev: 0,
            source: String::from_str("/"),
            path: String::from_str("/"),
            target: String::from_str("/"),
            v6_force_extended_inode: true,
        };
        let root = Node { inode, info, layer_idx: 0, chunks: Vec::new(), children: Vec::new() };
        let mut nodes: Vec<Node> = Vec::new();
        nodes.push(root);
        Ok(Tree { nodes })
    }

    /// Builds the file of a chunk dictionary: the node `/chunkdict`, whose
    /// chunks stand for the described chunks. The size of the file is the
    /// uncompressed size of its chunks together, its child count the number
    /// of its chunks. Where a chunk cannot be inserted, the accumulators are
    /// as the chunks before it left them; a list that is too long leaves
    /// them as they were.
    pub fn build_child_tree(
        ctx: &BuildContext,
        blob_mgr: &mut BlobManager,
        chunkdict_chunks: &Vec<ChunkdictChunkInfo>,
        chunkdict_blobs: &Vec<ChunkdictBlobInfo>,
    ) -> (made: Result<Node, BuildError>)
        ensures
            if chunkdict_chunks@.len() > u32::MAX {
                made is Err && made->Err_0 == BuildError::TooManyChunks && final(blob_mgr)@ == old(blob_mgr)@
            } else {
                match made {
                    Ok(node) => {
                        &&& dict_insertable(old(blob_mgr)@, chunkdict_chunks@, chunkdict_blobs@, ctx.compressor)
                        &&& final(blob_mgr)@ == mgr_after(
                            old(blob_mgr)@,
                            chunkdict_chunks@,
                            chunkdict_blobs@,
                            ctx.compressor,
                        )
                        &&& is_dict_node(
                            node,
                            ctx.fs_version,
                            dict_chunks(old(blob_mgr)@, chunkdict_chunks@, chunkdict_blobs@, ctx.compressor),
                        )
                    },
                    Err(e) => exists|i: int|
                        #[trigger] dict_stopped_at(
                            old(blob_mgr)@,
                            final(blob_mgr)@,
                            chunkdict_chunks@,
                            chunkdict_blobs@,
                            ctx.compressor,
                            i,
                            e,
                        ),
                }
            },
    {
        if chunkdict_chunks.len() > u32::MAX as usize {
            return Err(BuildError::TooManyChunks);
        }
        let inode = Inode {
            version: ctx.fs_version,
            ino: 2,
            uid: 0,
            gid: 0,
            projid: 0,
            mode: MODE_ACCESS | regular_bits(),
            nlink: 1,
            name_size: DICT_NAME_SIZE,
            rdev: 0,
            blocks: DICT_BLOCKS,
            size: 0,
            child_count: 0,
        };
        let info = NodeInfo {
            explicit_uidgid: true,
            src_dev: 0,
            src_ino: 1,
            rdev: 0,
            source: String::from_str("/"),
            path: String::from_str("/chunkdict"),
            target: String::from_str("/chunkdict"),
            v6_force_extended_inode: true,
        };
        let mut node = Node { inode, info, layer_idx: 0, chunks: Vec::new(), children: Vec::new() };
        match Self::insert_chunks(ctx, blob_mgr, &mut node, chunkdict_chunks, chunkdict_blobs) {
            Err(e) => {
                return Err(e);
            },
            Ok(()) => {},
        }
        let ghost made = dict_chunks(old(blob_mgr)@, chunkdict_chunks@, chunkdict_blobs@, ctx.compressor);
        assert(node.chunks@ =~= made);
        let mut node_size: u64 = 0;
        let mut i: usize = 0;
        while i < node.chunks.len()
            invariant
                i <= node.chunks@.len(),
                node.chunks@.len() <= u32::MAX,
                node_size == uncompressed_sum(node.chunks@.take(i as int)),
                node_size <= i * 0xffff_ffff,
            decreases node.chunks@.len() - i,
        {
            proof {
                assert(node.chunks@.take(i + 1).drop_last() =~= node.chunks@.take(i as int));
            }
            node_size = node_size + node.chunks[i].uncompressed_size as u64;
            i += 1;
        }
        proof {
            assert(node.chunks@.take(node.chunks@.len() as int) =~= node.chunks@);
        }
        node.inode.size = node_size;
        node.inode.child_count = node.chunks.len() as u32;
        Ok(node)
    }

    /// Inserts one described chunk, the one at place `index` of its list:
    /// finds the description of its source blob, looks up or creates the
    /// blob's accumulator, reserves the chunk's place there, and hands the
    /// blob's compressor and metadata-table header to the accumulator.
    /// Returns the chunk of the dictionary file. A chunk that cannot be
    /// inserted leaves the accumulators as they were.
    pub fn insert_chunk(
        ctx: &BuildContext,
        blob_mgr: &mut BlobManager,
        chunk_info: &ChunkdictChunkInfo,
        index: usize,
        chunkdict_blobs: &Vec<ChunkdictBlobInfo>,
    ) -> (made: Result<NodeChunk, BuildError>)
        ensures
            match dict_failure(old(blob_mgr)@, *chunk_info, index as int, chunkdict_blobs@, ctx.compressor) {
                Some(e) => made == Err::<NodeChunk, BuildError>(e) && final(blob_mgr)@ == old(blob_mgr)@,
                None => {
                    &&& made == Ok::<NodeChunk, BuildError>(
                        dict_chunk(old(blob_mgr)@, *chunk_info, index as int, ctx.compressor),
                    )
                    &&& final(blob_mgr)@ == dict_step(old(blob_mgr)@, *chunk_info, chunkdict_blobs@, ctx.compressor)
                },
            },
    {
        let file_offset = match (index as u64).checked_mul(chunk_info.chunk_compressed_size as u64) {
            None => {
                return Err(BuildError::OffsetOverflow);
            },
            Some(file_offset) => file_offset,
        };
        let blob_info = match find_keyed(chunkdict_blobs, &chunk_info.chunk_blob_id) {
            None => {
                return Err(BuildError::UnknownSourceBlob);
            },
            Some(d) => &chunkdict_blobs[d],
        };
        let compressor = match Algorithm::from_name(&blob_info.blob_compressor) {
            Err(e) => {
                return Err(e);
            },
            Ok(compressor) => compressor,
        };
        let blob_index = match blob_mgr.get_or_create_blob_for_chunkdict(ctx, &chunk_info.chunk_blob_id) {
            Err(e) => {
                return Err(e);
            },
            Ok(blob_index) => blob_index,
        };
        let ghost found = blob_mgr@;
        let place = blob_index as usize;
        let slot = match blob_mgr.blobs[place].reserve_for(
            chunk_info.chunk_compressed_size,
            chunk_info.chunk_uncompressed_size,
        ) {
            Err(e) => {
                // A blob whose accumulator was created a moment ago has room
                // for its first chunk: only an accumulator that was there
                // before can refuse.
                assert(found == old(blob_mgr)@);
                assert(blob_mgr@ =~= found);
                return Err(e);
            },
            Ok(slot) => slot,
        };
        blob_mgr.blobs[place].blob_compressor = compressor;
        blob_mgr.blobs[place].meta_ci_uncompressed_size = blob_info.blob_meta_ci_uncompressed_size;
        blob_mgr.blobs[place].meta_ci_compressed_size = blob_info.blob_meta_ci_compressed_size;
        blob_mgr.blobs[place].meta_ci_offset = blob_info.blob_meta_ci_offset;
        blob_mgr.blobs[place].meta_ci_compressor = Algorithm::Zstd;
        assert(blob_mgr@ =~= dict_step(old(blob_mgr)@, *chunk_info, chunkdict_blobs@, ctx.compressor));
        Ok(
            NodeChunk {
                blob_index,
                index: slot.index,
                file_offset,
                compressed_offset: chunk_info.chunk_compressed_offset,
                compressed_size: chunk_info.chunk_compressed_size,
                uncompressed_offset: chunk_info.chunk_uncompressed_offset,
                uncompressed_size: chunk_info.chunk_uncompressed_size,
                digest: chunk_info.chunk_digest.clone(),
            },
        )
    }

    /// Inserts the described chunks into the node, in their order: each
    /// becomes a chunk of the node, bound to the accumulator of its source
    /// blob. Where a chunk cannot be inserted, the chunks before it have been
    /// inserted and stay, and that chunk and those behind it leave no trace.
    pub fn insert_chunks(
        ctx: &BuildContext,
        blob_mgr: &mut BlobManager,
        node: &mut Node,
        chunkdict_chunks: &Vec<ChunkdictChunkInfo>,
        chunkdict_blobs: &Vec<ChunkdictBlobInfo>,
    ) -> (done: Result<(), BuildError>)
        ensures
            match done {
                Ok(()) => {
                    &&& dict_insertable(old(blob_mgr)@, chunkdict_chunks@, chunkdict_blobs@, ctx.compressor)
                    &&& final(blob_mgr)@ == mgr_after(
                        old(blob_mgr)@,
                        chunkdict_chunks@,
                        chunkdict_blobs@,
                        ctx.compressor,
                    )
                    &&& final(node).chunks@ == old(node).chunks@ + dict_chunks(
                        old(blob_mgr)@,
                        chunkdict_chunks@,
                        chunkdict_blobs@,
                        ctx.compressor,
                    )
                },
                Err(e) => exists|i: int|
                    {
                        &&& #[trigger] dict_stopped_at(
                            old(blob_mgr)@,
                            final(blob_mgr)@,
                            chunkdict_chunks@,
                            chunkdict_blobs@,
                            ctx.compressor,
                            i,
                            e,
                        )
                        &&& final(node).chunks@ == old(node).chunks@ + dict_chunks(
                            old(blob_mgr)@,
                            chunkdict_chunks@.take(i),
                            chunkdict_blobs@,
                            ctx.compressor,
                        )
                    },
            },
            final(node).inode == old(node).inode,
            final(node).info == old(node).info,
            final(node).layer_idx == old(node).layer_idx,
            final(node).children == old(node).children,
    {
        let ghost mgr0 = blob_mgr@;
        let ghost all = chunkdict_chunks@;
        let mut i: usize = 0;
        while i < chunkdict_chunks.len()
            invariant
                i <= chunkdict_chunks@.len(),
                all == chunkdict_chunks@,
                mgr0 == old(blob_mgr)@,
                blob_mgr@ == mgr_after(mgr0, all.take(i as int), chunkdict_blobs@, ctx.compressor),
                forall|k: int|
                    0 <= k < i ==> #[trigger] dict_failure_at(mgr0, all, k, chunkdict_blobs@, ctx.compressor) is None,
                node.chunks@.len() == old(node).chunks@.len() + i,
                forall|k: int| 0 <= k < old(node).chunks@.len() ==> #[trigger] node.chunks@[k] == old(node).chunks@[k],
                forall|k: int|
                    0 <= k < i ==> #[trigger] node.chunks@[old(node).chunks@.len() + k] == dict_chunk_at(
                        mgr0,
                        all,
                        k,
                        chunkdict_blobs@,
                        ctx.compressor,
                    ),
                node.inode == old(node).inode,
                node.info == old(node).info,
                node.layer_idx == old(node).layer_idx,
                node.children == old(node).children,
            decreases chunkdict_chunks@.len() - i,
        {
            proof {
                assert(all.take(i + 1).drop_last() =~= all.take(i as int));
                assert(all.take(i + 1).last() == all[i as int]);
            }
            let chunk = match Self::insert_chunk(ctx, blob_mgr, &chunkdict_chunks[i], i, chunkdict_blobs) {
                Err(e) => {
                    proof {
                        let made = dict_chunks(mgr0, all.take(i as int), chunkdict_blobs@, ctx.compressor);
                        let kept = old(node).chunks@;
                        assert forall|p: int| 0 <= p < node.chunks@.len() implies node.chunks@[p] == (kept
                            + made)[p] by {
                            if p >= kept.len() {
                                let k = p - kept.len();
                                assert(all.take(i as int).take(k) =~= all.take(k));
                                assert(node.chunks@[kept.len() + k] == dict_chunk_at(
                                    mgr0,
                                    all,
                                    k,
                                    chunkdict_blobs@,
                                    ctx.compressor,
                                ));
                            }
                        }
                        assert(node.chunks@ =~= kept + made);
                        assert(dict_stopped_at(
                            mgr0,
                            blob_mgr@,
                            all,
                            chunkdict_blobs@,
                            ctx.compressor,
                            i as int,
                            e,
                        ));
                    }
                    return Err(e);
                },
                Ok(chunk) => chunk,
            };
            assert(dict_failure_at(mgr0, all, i as int, chunkdict_blobs@, ctx.compressor) is None);
            node.chunks.push(chunk);
            i += 1;
        }
        proof {
            assert(all.take(all.len() as int) =~= all);
            let made = dict_chunks(mgr0, all, chunkdict_blobs@, ctx.compressor);
            let kept = old(node).chunks@;
            assert forall|p: int| 0 <= p < node.chunks@.len() implies node.chunks@[p] == (kept + made)[p] by {
                if p >= kept.len() {
                    let k = p - kept.len();
                    assert(node.chunks@[kept.len() + k] == dict_chunk_at(mgr0, all, k, chunkdict_blobs@, ctx.compressor));
                }
            }
            assert(node.chunks@ =~= kept + made);
        }
        Ok(())
    }
}

} // verus!
