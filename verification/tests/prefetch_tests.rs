use chunkdict::blob::BlobId;
use chunkdict::chunk::NodeChunk;
use chunkdict::compress::Algorithm;
use chunkdict::context::{BlobFeatures, BlobInfo, BlobTable, BuildContext, ConversionType, RafsVersion};
use chunkdict::error::BuildError;
use chunkdict::generator::Generator;
use chunkdict::prefetch::{PrefetchBlobState, RepackPhase};
use chunkdict::reader::{BlobData, BlobNodeReader};
use chunkdict::tree::{Inode, Node, NodeInfo, Tree};
use sha2::Digest;

fn repack_context() -> BuildContext {
    BuildContext {
        blob_id: BlobId::Committed(String::from("earlier")),
        fs_version: RafsVersion::V6,
        conversion_type: ConversionType::DirectoryToRafs,
        compressor: Algorithm::Lz4Block,
        chunk_size: 0x100000,
        blob_features: BlobFeatures::empty(),
    }
}

fn bound_chunk(blob_index: u32, index: u32, compressed_offset: u64, compressed_size: u32, uncompressed_size: u32) -> NodeChunk {
    NodeChunk {
        blob_index,
        index,
        file_offset: index as u64 * 0x100000,
        compressed_offset,
        compressed_size,
        uncompressed_offset: index as u64 * 0x100000,
        uncompressed_size,
        digest: format!("digest-{}-{}", blob_index, index),
    }
}

fn file_node(ino: u64, path: &str, chunks: Vec<NodeChunk>, children: Vec<usize>) -> Node {
    Node {
        inode: Inode {
            version: RafsVersion::V6,
            ino,
            uid: 0,
            gid: 0,
            projid: 0,
            mode: 0o100644,
            nlink: 1,
            name_size: path.len() as u16,
            rdev: 0,
            blocks: 0,
            size: 0,
            child_count: 0,
        },
        info: NodeInfo {
            explicit_uidgid: false,
            src_dev: 0,
            src_ino: ino,
            rdev: 0,
            source: String::from("/"),
            path: String::from(path),
            target: String::from(path),
            v6_force_extended_inode: false,
        },
        layer_idx: 0,
        chunks,
        children,
    }
}

fn source_entry(blob_index: u32, id: &str) -> BlobInfo {
    BlobInfo::new(
        blob_index,
        BlobId::Committed(String::from(id)),
        1 << 20,
        1 << 10,
        0x100000,
        7,
        BlobFeatures::empty(),
    )
}

fn patterned(len: usize, seed: u8) -> Vec<u8> {
    (0..len).map(|i| (i as u8).wrapping_mul(7).wrapping_add(seed)).collect()
}

fn two_source_setup() -> (Tree, BlobTable, Vec<BlobData>) {
    let tree = Tree {
        nodes: vec![
            file_node(1, "/", Vec::new(), vec![1, 2]),
            file_node(2, "/a", vec![bound_chunk(0, 0, 10, 5, 100), bound_chunk(0, 1, 50, 7, 5000)], Vec::new()),
            file_node(3, "/b", vec![bound_chunk(1, 0, 0, 3, 4096)], Vec::new()),
        ],
    };
    let table = BlobTable { entries: vec![source_entry(0, "src-a"), source_entry(1, "src-b")] };
    let store = vec![
        BlobData { blob_id: String::from("src-a"), data: patterned(100, 1) },
        BlobData { blob_id: String::from("src-b"), data: patterned(40, 2) },
    ];
    (tree, table, store)
}

fn sha256_hex(data: &[u8]) -> String {
    format!("{:x}", sha2::Sha256::digest(data))
}

#[test]
fn repacking_two_chunks_aligns_the_second() {
    let tree0 = Tree {
        nodes: vec![file_node(1, "/f", vec![bound_chunk(0, 0, 0, 10, 100), bound_chunk(0, 1, 10, 20, 5000)], Vec::new())],
    };
    let mut tree = Tree {
        nodes: vec![file_node(1, "/f", vec![bound_chunk(0, 0, 0, 10, 100), bound_chunk(0, 1, 10, 20, 5000)], Vec::new())],
    };
    let mut ctx = repack_context();
    let mut table = BlobTable { entries: vec![source_entry(0, "src")] };
    let store = vec![BlobData { blob_id: String::from("src"), data: patterned(64, 9) }];
    let blob = Generator::generate_prefetch(&mut tree, &mut ctx, &mut table, &store, vec![0]).unwrap();
    let chunks = &tree.nodes[0].chunks;
    assert_eq!(chunks[0].uncompressed_offset, 0);
    assert_eq!(chunks[1].uncompressed_offset, 4096);
    assert_ne!(chunks[1].uncompressed_offset, 100);
    assert_eq!(chunks[0].compressed_offset, 0);
    assert_eq!(chunks[1].compressed_offset, 10);
    assert_eq!(chunks[0].index, 0);
    assert_eq!(chunks[1].index, 1);
    assert_eq!(chunks[0].blob_index, 1);
    assert_eq!(chunks[1].blob_index, 1);
    assert_eq!(chunks[0].digest, tree0.nodes[0].chunks[0].digest);
    assert_eq!(chunks[1].uncompressed_size, 5000);
    assert_eq!(blob.data, patterned(64, 9)[..30].to_vec());
    assert_eq!(table.entries[1].uncompressed_size, 4096 + 8192);
    assert_eq!(table.entries[1].compressed_size, 30);
}

#[test]
fn repacking_follows_the_order_of_the_selection() {
    let (mut tree, mut table, store) = two_source_setup();
    let mut ctx = repack_context();
    let blob = Generator::generate_prefetch(&mut tree, &mut ctx, &mut table, &store, vec![2, 1]).unwrap();
    let mut expected = Vec::new();
    expected.extend_from_slice(&store[1].data[0..3]);
    expected.extend_from_slice(&store[0].data[10..15]);
    expected.extend_from_slice(&store[0].data[50..57]);
    assert_eq!(blob.data, expected);
    assert_eq!(blob.blob_id, sha256_hex(&expected));
    let b0 = &tree.nodes[2].chunks[0];
    let a0 = &tree.nodes[1].chunks[0];
    let a1 = &tree.nodes[1].chunks[1];
    assert_eq!((b0.blob_index, b0.index, b0.compressed_offset, b0.uncompressed_offset), (2, 0, 0, 0));
    assert_eq!((a0.blob_index, a0.index, a0.compressed_offset, a0.uncompressed_offset), (2, 1, 3, 4096));
    assert_eq!((a1.blob_index, a1.index, a1.compressed_offset, a1.uncompressed_offset), (2, 2, 8, 8192));
    assert_eq!(a1.compressed_size, 7);
    assert_eq!(a1.uncompressed_size, 5000);
    assert_eq!(a1.file_offset, 0x100000);
    assert_eq!(a1.digest, "digest-0-1");
    assert_eq!(tree.nodes[1].layer_idx, 2);
    assert_eq!(tree.nodes[2].layer_idx, 2);
    assert_eq!(tree.nodes[0].layer_idx, 0);
    assert_eq!(tree.nodes[0].children, vec![1, 2]);
    assert_eq!(tree.nodes[1].info.path, "/a");
    assert_eq!(tree.nodes[1].inode.ino, 2);
}

#[test]
fn repacking_appends_a_sealed_and_committed_entry() {
    let (mut tree, mut table, store) = two_source_setup();
    let mut ctx = repack_context();
    let blob = Generator::generate_prefetch(&mut tree, &mut ctx, &mut table, &store, vec![2, 1]).unwrap();
    assert_eq!(table.entries.len(), 3);
    assert_eq!(table.entries[0], source_entry(0, "src-a"));
    assert_eq!(table.entries[1], source_entry(1, "src-b"));
    assert_eq!(
        table.entries[2],
        BlobInfo {
            blob_index: 2,
            blob_id: BlobId::Committed(blob.blob_id.clone()),
            blob_features: BlobFeatures {
                aligned: true,
                inlined_chunk_digest: true,
                has_tar_header: true,
                has_toc: true,
                cap_tar_toc: true,
            },
            chunk_size: 0x100000,
            chunk_count: 3,
            compressor: Algorithm::Zstd,
            compressed_size: 15,
            uncompressed_size: 16384,
            meta_ci_offset: 0x200 + 48,
            meta_ci_compressed_size: 48,
            meta_ci_uncompressed_size: 48,
        }
    );
    assert_eq!(ctx.blob_id, BlobId::Committed(blob.blob_id.clone()));
    assert_eq!(ctx.compressor, Algorithm::Lz4Block);
    assert_eq!(ctx.chunk_size, 0x100000);
    assert_eq!(ctx.fs_version, RafsVersion::V6);
    assert_eq!(blob.blob_id.len(), 64);
}

#[test]
fn after_commit_no_entry_is_pending_and_one_carries_the_new_identifier() {
    let (mut tree, mut table, store) = two_source_setup();
    let mut ctx = repack_context();
    let blob = Generator::generate_prefetch(&mut tree, &mut ctx, &mut table, &store, vec![1, 2]).unwrap();
    assert!(table.entries.iter().all(|entry| !entry.blob_id.is_pending()));
    assert_eq!(table.entries.iter().filter(|entry| entry.blob_id.is_committed_as(&blob.blob_id)).count(), 1);
    for node in &tree.nodes {
        for chunk in &node.chunks {
            assert!(!table.entries[chunk.blob_index as usize].blob_id.is_pending());
        }
    }
}

#[test]
fn repacked_bytes_read_back_identical() {
    let (mut tree, mut table, mut store) = two_source_setup();
    let before = two_source_setup().0;
    let sources = two_source_setup().2;
    let mut ctx = repack_context();
    let blob = Generator::generate_prefetch(&mut tree, &mut ctx, &mut table, &store, vec![1, 2]).unwrap();
    store.push(blob);
    for place in [1usize, 2] {
        for (moved, original) in tree.nodes[place].chunks.iter().zip(before.nodes[place].chunks.iter()) {
            let id = match &table.entries[moved.blob_index as usize].blob_id {
                BlobId::Committed(id) => id.clone(),
                BlobId::Pending => panic!("pending entry after commit"),
            };
            let new_blob = store.iter().find(|blob| blob.blob_id == id).unwrap();
            let mut reader = BlobNodeReader::new(
                &new_blob.data,
                moved.compressed_offset,
                moved.compressed_offset + moved.compressed_size as u64,
            );
            let mut reread = vec![0u8; moved.compressed_size as usize];
            assert_eq!(reader.read_exact(&mut reread), Ok(()));
            let source = &sources[original.blob_index as usize].data;
            let from = original.compressed_offset as usize;
            assert_eq!(reread, source[from..from + original.compressed_size as usize].to_vec());
            assert_eq!(moved.digest, original.digest);
        }
    }
}

#[test]
fn repacked_indices_are_dense_and_offsets_monotone_and_aligned() {
    let sizes: Vec<(u32, u32)> = vec![(3, 1), (0, 4096), (9, 4097), (1, 0), (20, 100000), (5, 8192)];
    let mut chunks = Vec::new();
    let mut at = 0u64;
    for (i, (compressed, uncompressed)) in sizes.iter().enumerate() {
        chunks.push(bound_chunk(0, i as u32 + 40, at, *compressed, *uncompressed));
        at += *compressed as u64;
    }
    let mut tree = Tree {
        nodes: vec![
            file_node(1, "/x", chunks[..4].to_vec(), Vec::new()),
            file_node(2, "/y", chunks[4..].to_vec(), Vec::new()),
        ],
    };
    let mut ctx = repack_context();
    let mut table = BlobTable { entries: vec![source_entry(0, "src")] };
    let store = vec![BlobData { blob_id: String::from("src"), data: patterned(at as usize, 3) }];
    Generator::generate_prefetch(&mut tree, &mut ctx, &mut table, &store, vec![1, 0]).unwrap();
    let written: Vec<NodeChunk> =
        tree.nodes[1].chunks.iter().chain(tree.nodes[0].chunks.iter()).cloned().collect();
    assert_eq!(written.len(), 6);
    for (position, chunk) in written.iter().enumerate() {
        assert_eq!(chunk.index as usize, position);
        assert_eq!(chunk.uncompressed_offset % 4096, 0);
        assert_eq!(chunk.blob_index, 1);
    }
    for pair in written.windows(2) {
        assert!(pair[0].compressed_offset + pair[0].compressed_size as u64 <= pair[1].compressed_offset);
        assert!(pair[0].uncompressed_offset + pair[0].uncompressed_size as u64 <= pair[1].uncompressed_offset);
    }
    let expected_uncompressed: Vec<u64> = vec![0, 102400, 110592, 110592 + 4096, 110592 + 8192, 110592 + 16384];
    assert_eq!(written.iter().map(|chunk| chunk.uncompressed_offset).collect::<Vec<_>>(), expected_uncompressed);
    assert_eq!(table.entries[1].chunk_count, 6);
    assert_eq!(table.entries[1].meta_ci_uncompressed_size, 96);
    assert_eq!(table.entries[1].meta_ci_compressed_size, 96);
    assert_eq!(table.entries[1].meta_ci_offset, 0x200 + 96);
    assert_eq!(table.entries[1].uncompressed_size, 110592 + 16384);
}

#[test]
fn empty_selection_makes_an_empty_blob() {
    let (mut tree, mut table, store) = two_source_setup();
    let mut ctx = repack_context();
    let blob = Generator::generate_prefetch(&mut tree, &mut ctx, &mut table, &store, Vec::new()).unwrap();
    assert!(blob.data.is_empty());
    assert_eq!(blob.blob_id, "e3b0c44298fc1c149afbf4c8996fb92427ae41e4649b934ca495991b7852b855");
    assert_eq!(tree, two_source_setup().0);
    assert_eq!(table.entries[2].chunk_count, 0);
    assert_eq!(table.entries[2].meta_ci_offset, 0x200);
    assert_eq!(table.entries[2].compressed_size, 0);
}

#[test]
fn selected_node_outside_the_tree_is_reported() {
    let (mut tree, mut table, store) = two_source_setup();
    let mut ctx = repack_context();
    let made = Generator::generate_prefetch(&mut tree, &mut ctx, &mut table, &store, vec![1, 3]);
    assert_eq!(made, Err(BuildError::NodeNotFound));
}

#[test]
fn selected_node_without_chunks_is_unresolved() {
    let (mut tree, mut table, store) = two_source_setup();
    let mut ctx = repack_context();
    let made = Generator::generate_prefetch(&mut tree, &mut ctx, &mut table, &store, vec![0]);
    assert_eq!(made, Err(BuildError::UnresolvedBlobIndex));
}

#[test]
fn chunk_bound_outside_the_table_is_unresolved() {
    let (mut tree, mut table, store) = two_source_setup();
    tree.nodes[2].chunks[0].blob_index = 2;
    let mut ctx = repack_context();
    let made = Generator::generate_prefetch(&mut tree, &mut ctx, &mut table, &store, vec![2]);
    assert_eq!(made, Err(BuildError::UnresolvedBlobIndex));
}

#[test]
fn node_selected_twice_is_unresolved_the_second_time() {
    let (mut tree, mut table, store) = two_source_setup();
    let mut ctx = repack_context();
    let made = Generator::generate_prefetch(&mut tree, &mut ctx, &mut table, &store, vec![1, 2, 1]);
    assert_eq!(made, Err(BuildError::UnresolvedBlobIndex));
}

#[test]
fn missing_source_blob_is_reported() {
    let (mut tree, mut table, mut store) = two_source_setup();
    store.remove(1);
    let mut ctx = repack_context();
    let made = Generator::generate_prefetch(&mut tree, &mut ctx, &mut table, &store, vec![1, 2]);
    assert_eq!(made, Err(BuildError::SourceBlobMissing { blob_index: 1 }));
}

#[test]
fn short_source_blob_is_reported() {
    let (mut tree, mut table, mut store) = two_source_setup();
    store[0].data.truncate(56);
    let mut ctx = repack_context();
    let made = Generator::generate_prefetch(&mut tree, &mut ctx, &mut table, &store, vec![2, 1]);
    assert_eq!(made, Err(BuildError::ShortRead { blob_index: 0, offset: 50, size: 7 }));
    let (mut tree, mut table, mut store) = two_source_setup();
    store[0].data.truncate(57);
    let mut ctx = repack_context();
    assert!(Generator::generate_prefetch(&mut tree, &mut ctx, &mut table, &store, vec![2, 1]).is_ok());
}

#[test]
fn earliest_failure_decides_the_error() {
    let (mut tree, mut table, mut store) = two_source_setup();
    store[0].data.truncate(12);
    tree.nodes[2].chunks[0].blob_index = 9;
    let mut ctx = repack_context();
    let made = Generator::generate_prefetch(&mut tree, &mut ctx, &mut table, &store, vec![1, 2]);
    assert_eq!(made, Err(BuildError::ShortRead { blob_index: 0, offset: 10, size: 5 }));
    let (mut tree, mut table, mut store) = two_source_setup();
    store[0].data.truncate(12);
    tree.nodes[2].chunks[0].blob_index = 9;
    let mut ctx = repack_context();
    let made = Generator::generate_prefetch(&mut tree, &mut ctx, &mut table, &store, vec![2, 1]);
    assert_eq!(made, Err(BuildError::UnresolvedBlobIndex));
}

#[test]
fn pending_entry_in_the_table_fails_the_commit() {
    let (mut tree, mut table, store) = two_source_setup();
    table.entries.push(BlobInfo::new(2, BlobId::Pending, 0, 0, 0x100000, 0, BlobFeatures::empty()));
    let mut ctx = repack_context();
    let made = Generator::generate_prefetch(&mut tree, &mut ctx, &mut table, &store, vec![1]);
    assert_eq!(made, Err(BuildError::PlaceholderCount));
}

#[test]
fn chunk_bound_to_a_pending_entry_has_no_source() {
    let (mut tree, mut table, store) = two_source_setup();
    table.entries[1].blob_id = BlobId::Pending;
    let mut ctx = repack_context();
    let made = Generator::generate_prefetch(&mut tree, &mut ctx, &mut table, &store, vec![2]);
    assert_eq!(made, Err(BuildError::SourceBlobMissing { blob_index: 1 }));
}

#[test]
fn commit_rewrites_the_one_pending_entry() {
    let mut table = BlobTable {
        entries: vec![
            source_entry(0, "one"),
            BlobInfo::new(1, BlobId::Pending, 5, 6, 7, 8, BlobFeatures::repacked()),
            source_entry(2, "two"),
        ],
    };
    assert_eq!(Generator::commit_blob_id(&mut table, &String::from("real")), Ok(()));
    assert_eq!(table.entries[0], source_entry(0, "one"));
    assert_eq!(
        table.entries[1],
        BlobInfo::new(1, BlobId::Committed(String::from("real")), 5, 6, 7, 8, BlobFeatures::repacked())
    );
    assert_eq!(table.entries[2], source_entry(2, "two"));
}

#[test]
fn commit_needs_exactly_one_pending_entry() {
    let mut none = BlobTable { entries: vec![source_entry(0, "one")] };
    assert_eq!(Generator::commit_blob_id(&mut none, &String::from("real")), Err(BuildError::PlaceholderCount));
    assert_eq!(none.entries, vec![source_entry(0, "one")]);
    let mut empty = BlobTable { entries: Vec::new() };
    assert_eq!(Generator::commit_blob_id(&mut empty, &String::from("real")), Err(BuildError::PlaceholderCount));
    let pending = BlobInfo::new(0, BlobId::Pending, 0, 0, 0, 0, BlobFeatures::empty());
    let mut two = BlobTable { entries: vec![pending.clone(), pending.clone()] };
    assert_eq!(Generator::commit_blob_id(&mut two, &String::from("real")), Err(BuildError::PlaceholderCount));
    assert_eq!(two.entries, vec![pending.clone(), pending]);
}

#[test]
fn new_state_is_registered_pending_with_all_features() {
    let ctx = repack_context();
    let state = PrefetchBlobState::new(&ctx, 5);
    assert_eq!(state.phase, RepackPhase::Created);
    assert_eq!(state.blob_info.blob_index, 5);
    assert_eq!(state.blob_info.blob_id, BlobId::Pending);
    assert_eq!(state.blob_info.blob_features, BlobFeatures::repacked());
    assert_eq!(state.blob_info.chunk_size, 0x100000);
    assert_eq!(state.blob_info.chunk_count, u32::MAX);
    assert_eq!(state.blob_info.compressor, Algorithm::Zstd);
    assert_eq!(state.blob_info.compressed_size, 0);
    assert_eq!(state.blob_ctx.blob_id, BlobId::Pending);
    assert!(state.blob_ctx.aligned);
    assert_eq!(state.blob_ctx.blob_compressor, Algorithm::Zstd);
    assert_eq!(state.blob_ctx.chunk_count, 0);
    assert!(state.blob_writer.is_empty());
}

#[test]
fn repack_chunk_moves_one_chunk() {
    let (_, table, store) = two_source_setup();
    let ctx = repack_context();
    let mut state = PrefetchBlobState::new(&ctx, 2);
    let mut first = bound_chunk(0, 4, 90, 10, 1);
    assert_eq!(Generator::repack_chunk(&mut first, &mut state, &table, &store), Ok(()));
    let mut second = bound_chunk(1, 6, 38, 2, 4097);
    assert_eq!(Generator::repack_chunk(&mut second, &mut state, &table, &store), Ok(()));
    assert_eq!((first.blob_index, first.index, first.compressed_offset, first.uncompressed_offset), (2, 0, 0, 0));
    assert_eq!((second.blob_index, second.index, second.compressed_offset, second.uncompressed_offset), (2, 1, 10, 4096));
    assert_eq!(second.digest, "digest-1-6");
    let mut expected = store[0].data[90..100].to_vec();
    expected.extend_from_slice(&store[1].data[38..40]);
    assert_eq!(state.blob_writer, expected);
    assert_eq!(state.blob_ctx.content_digest(), sha2::Sha256::digest(&expected).to_vec());
    assert_eq!(state.blob_ctx.current_compressed_offset, 12);
    assert_eq!(state.blob_ctx.current_uncompressed_offset, 4096 + 8192);
    assert_eq!(state.blob_ctx.blob_meta_info.len(), 2);
    assert_eq!(state.blob_ctx.blob_meta_info[1].uncompressed_offset, 4096);
    assert_eq!(state.blob_ctx.meta_ci_uncompressed_size, 32);
    let mut beyond = bound_chunk(1, 7, 38, 3, 1);
    assert_eq!(
        Generator::repack_chunk(&mut beyond, &mut state, &table, &store),
        Err(BuildError::ShortRead { blob_index: 1, offset: 38, size: 3 })
    );
    let mut far = bound_chunk(1, 7, u64::MAX, 3, 1);
    assert_eq!(
        Generator::repack_chunk(&mut far, &mut state, &table, &store),
        Err(BuildError::ShortRead { blob_index: 1, offset: u64::MAX, size: 3 })
    );
}

#[test]
fn empty_chunk_is_moved_even_beyond_the_source() {
    let (_, table, store) = two_source_setup();
    let ctx = repack_context();
    let mut state = PrefetchBlobState::new(&ctx, 2);
    let mut chunk = bound_chunk(0, 0, 5000, 0, 10);
    assert_eq!(Generator::repack_chunk(&mut chunk, &mut state, &table, &store), Ok(()));
    assert!(state.blob_writer.is_empty());
    assert_eq!(state.blob_ctx.chunk_count, 1);
    assert_eq!(state.blob_ctx.current_uncompressed_offset, 4096);
}

#[test]
fn first_matching_source_blob_is_read() {
    let (mut tree, mut table, mut store) = two_source_setup();
    store.push(BlobData { blob_id: String::from("src-b"), data: vec![0xee; 40] });
    let mut ctx = repack_context();
    let blob = Generator::generate_prefetch(&mut tree, &mut ctx, &mut table, &store, vec![2]).unwrap();
    assert_eq!(blob.data, store[1].data[0..3].to_vec());
}

#[test]
fn blob_goes_from_created_over_writing_and_sealed_to_committed() {
    let (_, mut table, store) = two_source_setup();
    let mut ctx = repack_context();
    let mut state = PrefetchBlobState::new(&ctx, 2);
    assert_eq!(state.phase, RepackPhase::Created);
    let mut chunk = bound_chunk(1, 0, 4, 6, 70000);
    assert_eq!(Generator::repack_chunk(&mut chunk, &mut state, &table, &store), Ok(()));
    assert_eq!(state.phase, RepackPhase::Writing);
    Generator::seal_blob(&mut state);
    assert_eq!(state.phase, RepackPhase::Sealed);
    assert_eq!(table.entries.len(), 2);
    assert_eq!(state.blob_info.blob_id, BlobId::Pending);
    assert_eq!(state.blob_info.chunk_count, 1);
    assert_eq!(state.blob_info.compressed_size, 6);
    assert_eq!(state.blob_info.uncompressed_size, 73728);
    assert_eq!(state.blob_info.meta_ci_offset, 0x200 + 16);
    assert_eq!(state.blob_info.meta_ci_uncompressed_size, 16);
    assert_eq!(state.blob_ctx.meta_ci_offset, 0x200 + 16);
    let id = Generator::finalize_blob(&mut ctx, &mut table, &mut state);
    assert_eq!(state.phase, RepackPhase::Committed);
    assert_eq!(id, sha256_hex(&store[1].data[4..10]));
    assert_eq!(table.entries.len(), 3);
    assert_eq!(table.entries[0], source_entry(0, "src-a"));
    assert_eq!(table.entries[1], source_entry(1, "src-b"));
    assert_eq!(table.entries[2], state.blob_info);
    assert_eq!(table.entries[2].blob_id, BlobId::Pending);
    assert_eq!(state.blob_ctx.blob_id, BlobId::Committed(id.clone()));
    assert_eq!(ctx.blob_id, BlobId::Committed(id.clone()));
    assert_eq!(ctx.compressor, Algorithm::Lz4Block);
    assert_eq!(Generator::commit_blob_id(&mut table, &id), Ok(()));
    assert_eq!(table.entries[2].blob_id, BlobId::Committed(id));
    assert_eq!(table.entries[2].chunk_count, 1);
    assert_eq!(table.entries[1], source_entry(1, "src-b"));
}

#[test]
fn finishing_an_empty_blob_appends_its_pending_record() {
    let mut table = BlobTable { entries: Vec::new() };
    let mut ctx = repack_context();
    let mut state = PrefetchBlobState::new(&ctx, 0);
    Generator::seal_blob(&mut state);
    let id = Generator::finalize_blob(&mut ctx, &mut table, &mut state);
    assert_eq!(id, "e3b0c44298fc1c149afbf4c8996fb92427ae41e4649b934ca495991b7852b855");
    assert_eq!(table.entries.len(), 1);
    assert_eq!(table.entries[0].blob_id, BlobId::Pending);
    assert_eq!(table.entries[0].meta_ci_offset, 0x200);
    assert_eq!(ctx.blob_id, BlobId::Committed(id));
}

#[test]
fn commit_of_a_finished_blob_fails_beside_another_pending_entry() {
    let (_, mut table, _) = two_source_setup();
    table.entries.push(BlobInfo::new(2, BlobId::Pending, 0, 0, 0x100000, 0, BlobFeatures::empty()));
    let mut ctx = repack_context();
    let mut state = PrefetchBlobState::new(&ctx, 3);
    Generator::seal_blob(&mut state);
    let id = Generator::finalize_blob(&mut ctx, &mut table, &mut state);
    assert_eq!(table.entries.len(), 4);
    assert_eq!(Generator::commit_blob_id(&mut table, &id), Err(BuildError::PlaceholderCount));
    assert_eq!(table.entries[2].blob_id, BlobId::Pending);
    assert_eq!(table.entries[3].blob_id, BlobId::Pending);
}

#[test]
fn one_node_is_moved_chunk_by_chunk() {
    let (mut tree, table, store) = two_source_setup();
    let ctx = repack_context();
    let mut state = PrefetchBlobState::new(&ctx, 2);
    assert_eq!(Generator::process_prefetch_node(&mut tree, 1, &mut state, &table, &store), Ok(()));
    assert_eq!(state.phase, RepackPhase::Writing);
    assert_eq!(tree.nodes[1].layer_idx, 2);
    let bound: Vec<(u32, u32, u64, u64)> = tree.nodes[1]
        .chunks
        .iter()
        .map(|chunk| (chunk.blob_index, chunk.index, chunk.compressed_offset, chunk.uncompressed_offset))
        .collect();
    assert_eq!(bound, vec![(2, 0, 0, 0), (2, 1, 5, 4096)]);
    assert_eq!(state.blob_ctx.chunk_count, 2);
    assert_eq!(state.blob_ctx.current_compressed_offset, 12);
    assert_eq!(state.blob_ctx.current_uncompressed_offset, 4096 + 8192);
    let mut expected = store[0].data[10..15].to_vec();
    expected.extend_from_slice(&store[0].data[50..57]);
    assert_eq!(state.blob_writer, expected);
    assert_eq!(tree.nodes[2], two_source_setup().0.nodes[2]);
    assert_eq!(tree.nodes[0], two_source_setup().0.nodes[0]);
    assert_eq!(
        Generator::process_prefetch_node(&mut tree, 7, &mut state, &table, &store),
        Err(BuildError::NodeNotFound)
    );
    assert_eq!(
        Generator::process_prefetch_node(&mut tree, 0, &mut state, &table, &store),
        Err(BuildError::UnresolvedBlobIndex)
    );
}

#[test]
fn layer_is_the_low_half_of_the_blob_index() {
    let (mut tree, _, store) = two_source_setup();
    let table = BlobTable { entries: vec![source_entry(0, "src-a"), source_entry(1, "src-b")] };
    let ctx = repack_context();
    let mut state = PrefetchBlobState::new(&ctx, 0x0012_0034);
    assert_eq!(Generator::process_prefetch_node(&mut tree, 2, &mut state, &table, &store), Ok(()));
    assert_eq!(tree.nodes[2].layer_idx, 0x0034);
    assert_eq!(tree.nodes[2].chunks[0].blob_index, 0x0012_0034);
}
