use chunkdict::align::try_round_up_4k;
use chunkdict::blob::{BlobContext, BlobId, BlobSizeSummary, ChunkMetaRecord, ChunkSlot};
use chunkdict::chunk::NodeChunk;
use chunkdict::compress::Algorithm;
use chunkdict::digest::hex_encode;
use chunkdict::error::BuildError;
use sha2::Digest;

fn placed(compressed_offset: u64, compressed_size: u32, uncompressed_offset: u64, uncompressed_size: u32) -> NodeChunk {
    NodeChunk {
        blob_index: 0,
        index: 0,
        file_offset: 0,
        compressed_offset,
        compressed_size,
        uncompressed_offset,
        uncompressed_size,
        digest: String::from("00"),
    }
}

#[test]
fn round_up_exact_values() {
    assert_eq!(try_round_up_4k(0), Some(0));
    assert_eq!(try_round_up_4k(1), Some(4096));
    assert_eq!(try_round_up_4k(100), Some(4096));
    assert_eq!(try_round_up_4k(4095), Some(4096));
    assert_eq!(try_round_up_4k(4096), Some(4096));
    assert_eq!(try_round_up_4k(4097), Some(8192));
    assert_eq!(try_round_up_4k(5000), Some(8192));
}

#[test]
fn round_up_at_the_end_of_the_range() {
    assert_eq!(try_round_up_4k(u64::MAX - 4095), Some(u64::MAX - 4095));
    assert_eq!(try_round_up_4k(u64::MAX - 4094), None);
    assert_eq!(try_round_up_4k(u64::MAX), None);
}

#[test]
fn fresh_accumulator_is_empty() {
    let ctx = BlobContext::new(BlobId::Pending, true, Algorithm::Zstd);
    assert_eq!(ctx.blob_id, BlobId::Pending);
    assert!(ctx.aligned);
    assert_eq!(ctx.blob_compressor, Algorithm::Zstd);
    assert_eq!(ctx.current_compressed_offset, 0);
    assert_eq!(ctx.current_uncompressed_offset, 0);
    assert_eq!(ctx.chunk_count, 0);
    assert!(ctx.blob_meta_info.is_empty());
    assert_eq!(ctx.meta_ci_offset, 0);
    assert_eq!(ctx.meta_ci_compressed_size, 0);
    assert_eq!(ctx.meta_ci_uncompressed_size, 0);
}

#[test]
fn reserve_hands_out_offsets_before_the_reservation() {
    let mut ctx = BlobContext::new(BlobId::Committed(String::from("b")), false, Algorithm::Uncompressed);
    let first = ctx.reserve_for(30, 100);
    assert_eq!(first, Ok(ChunkSlot { index: 0, compressed_offset: 0, uncompressed_offset: 0 }));
    let second = ctx.reserve_for(70, 5000);
    assert_eq!(second, Ok(ChunkSlot { index: 1, compressed_offset: 30, uncompressed_offset: 100 }));
    assert_eq!(ctx.chunk_count, 2);
    assert_eq!(ctx.current_compressed_offset, 100);
    assert_eq!(ctx.current_uncompressed_offset, 5100);
}

#[test]
fn aligned_reserve_rounds_the_uncompressed_advance() {
    let mut ctx = BlobContext::new(BlobId::Pending, true, Algorithm::Zstd);
    let first = ctx.reserve_for(30, 100);
    assert_eq!(first, Ok(ChunkSlot { index: 0, compressed_offset: 0, uncompressed_offset: 0 }));
    let second = ctx.reserve_for(70, 5000);
    assert_eq!(second, Ok(ChunkSlot { index: 1, compressed_offset: 30, uncompressed_offset: 4096 }));
    let third = ctx.reserve_for(1, 0);
    assert_eq!(third, Ok(ChunkSlot { index: 2, compressed_offset: 100, uncompressed_offset: 12288 }));
    assert_eq!(ctx.current_uncompressed_offset, 12288);
    assert_eq!(ctx.current_compressed_offset, 101);
}

#[test]
fn reserve_signals_exhausted_index_space() {
    let mut ctx = BlobContext::new(BlobId::Pending, false, Algorithm::Zstd);
    ctx.chunk_count = u32::MAX - 1;
    assert_eq!(ctx.reserve_for(1, 1).map(|slot| slot.index), Ok(u32::MAX - 1));
    assert_eq!(ctx.chunk_count, u32::MAX);
    assert_eq!(ctx.reserve_for(1, 1), Err(BuildError::ChunkIndexOverflow));
    assert_eq!(ctx.chunk_count, u32::MAX);
    assert_eq!(ctx.current_compressed_offset, 1);
    assert_eq!(ctx.current_uncompressed_offset, 1);
}

#[test]
fn reserve_signals_offset_overflow_and_changes_nothing() {
    let mut ctx = BlobContext::new(BlobId::Pending, false, Algorithm::Zstd);
    ctx.current_compressed_offset = u64::MAX - 5;
    assert_eq!(ctx.reserve_for(6, 1), Err(BuildError::OffsetOverflow));
    assert_eq!(ctx.chunk_count, 0);
    assert_eq!(ctx.current_compressed_offset, u64::MAX - 5);
    assert_eq!(ctx.current_uncompressed_offset, 0);
    assert_eq!(
        ctx.reserve_for(5, 1),
        Ok(ChunkSlot { index: 0, compressed_offset: u64::MAX - 5, uncompressed_offset: 0 })
    );
    let mut ctx = BlobContext::new(BlobId::Pending, true, Algorithm::Zstd);
    ctx.current_uncompressed_offset = u64::MAX - 4095;
    assert_eq!(ctx.reserve_for(0, 1), Err(BuildError::OffsetOverflow));
    assert_eq!(ctx.reserve_for(0, 0).map(|slot| slot.uncompressed_offset), Ok(u64::MAX - 4095));
}

#[test]
fn record_appends_one_record_and_grows_header_by_its_size() {
    let mut ctx = BlobContext::new(BlobId::Pending, true, Algorithm::Zstd);
    ctx.record_chunk_meta(&placed(0, 30, 0, 100));
    ctx.record_chunk_meta(&placed(30, 70, 4096, 5000));
    assert_eq!(
        ctx.blob_meta_info,
        vec![
            ChunkMetaRecord { compressed_offset: 0, compressed_size: 30, uncompressed_offset: 0, uncompressed_size: 100 },
            ChunkMetaRecord {
                compressed_offset: 30,
                compressed_size: 70,
                uncompressed_offset: 4096,
                uncompressed_size: 5000
            },
        ]
    );
    assert_eq!(ctx.meta_ci_uncompressed_size, 32);
    assert_eq!(ctx.meta_ci_compressed_size, 32);
}

#[test]
fn finalize_places_table_behind_header_and_reports_sizes() {
    let mut ctx = BlobContext::new(BlobId::Pending, true, Algorithm::Zstd);
    for size in [100u32, 5000, 4096] {
        let slot = ctx.reserve_for(size / 2, size).unwrap();
        ctx.record_chunk_meta(&placed(slot.compressed_offset, size / 2, slot.uncompressed_offset, size));
    }
    let summary = ctx.finalize();
    assert_eq!(
        summary,
        BlobSizeSummary {
            chunk_count: 3,
            compressed_size: 50 + 2500 + 2048,
            uncompressed_size: 4096 + 8192 + 4096,
            meta_ci_offset: 0x200 + 48,
            meta_ci_compressed_size: 48,
            meta_ci_uncompressed_size: 48,
        }
    );
    assert_eq!(summary.meta_ci_uncompressed_size, summary.chunk_count as u64 * 16);
    assert_eq!(summary.meta_ci_compressed_size, summary.meta_ci_uncompressed_size);
    assert_eq!(ctx.meta_ci_offset, 0x200 + 48);
}

#[test]
fn finalize_of_empty_blob() {
    let mut ctx = BlobContext::new(BlobId::Pending, true, Algorithm::Zstd);
    let summary = ctx.finalize();
    assert_eq!(
        summary,
        BlobSizeSummary {
            chunk_count: 0,
            compressed_size: 0,
            uncompressed_size: 0,
            meta_ci_offset: 0x200,
            meta_ci_compressed_size: 0,
            meta_ci_uncompressed_size: 0,
        }
    );
}

#[test]
fn digest_of_nothing_is_the_empty_digest() {
    let ctx = BlobContext::new(BlobId::Pending, true, Algorithm::Zstd);
    assert_eq!(
        hex_encode(&ctx.content_digest()),
        "e3b0c44298fc1c149afbf4c8996fb92427ae41e4649b934ca495991b7852b855"
    );
}

#[test]
fn digest_of_abc_is_the_known_digest() {
    let mut ctx = BlobContext::new(BlobId::Pending, true, Algorithm::Zstd);
    ctx.absorb_bytes(b"abc");
    assert_eq!(
        hex_encode(&ctx.content_digest()),
        "ba7816bf8f01cfea414140de5dae2223b00361a396177a9cb410ff61f20015ad"
    );
}

#[test]
fn absorbing_in_pieces_equals_absorbing_at_once() {
    let mut pieces = BlobContext::new(BlobId::Pending, true, Algorithm::Zstd);
    pieces.absorb_bytes(b"a");
    pieces.absorb_bytes(b"");
    pieces.absorb_bytes(b"bc");
    let mut whole = BlobContext::new(BlobId::Pending, true, Algorithm::Zstd);
    whole.absorb_bytes(b"abc");
    assert_eq!(pieces.content_digest(), whole.content_digest());
    assert_eq!(pieces.content_digest().len(), 32);
}

#[test]
fn digest_can_be_taken_twice_and_absorbing_goes_on() {
    let mut ctx = BlobContext::new(BlobId::Pending, true, Algorithm::Zstd);
    ctx.absorb_bytes(b"ab");
    let early = ctx.content_digest();
    assert_eq!(early, ctx.content_digest());
    assert_eq!(early, sha2::Sha256::digest(b"ab").to_vec());
    ctx.absorb_bytes(b"c");
    assert_eq!(ctx.content_digest(), sha2::Sha256::digest(b"abc").to_vec());
    assert_ne!(ctx.content_digest(), early);
}

#[test]
fn hex_encode_writes_two_lower_case_digits_per_byte() {
    assert_eq!(hex_encode(&[]), "");
    assert_eq!(hex_encode(&[0x00]), "00");
    assert_eq!(hex_encode(&[0x0f, 0xf0, 0xab, 0x09, 0x9a]), "0ff0ab099a");
    assert_eq!(hex_encode(&[0x01, 0x23, 0x45, 0x67, 0x89, 0xab, 0xcd, 0xef]), "0123456789abcdef");
    assert_eq!(hex_encode(&[0xff, 0x10]), "ff10");
}

#[test]
fn blob_id_compares_by_text() {
    let id = BlobId::Committed(String::from("abc"));
    assert!(id.is_committed_as(&String::from("abc")));
    assert!(!id.is_committed_as(&String::from("abd")));
    assert!(!id.is_pending());
    assert!(BlobId::Pending.is_pending());
    assert!(!BlobId::Pending.is_committed_as(&String::from("")));
    assert_eq!(id.clone(), id);
}

#[test]
fn compressor_names() {
    assert_eq!(Algorithm::from_name(&String::from("none")), Ok(Algorithm::Uncompressed));
    assert_eq!(Algorithm::from_name(&String::from("lz4_block")), Ok(Algorithm::Lz4Block));
    assert_eq!(Algorithm::from_name(&String::from("gzip")), Ok(Algorithm::GZip));
    assert_eq!(Algorithm::from_name(&String::from("zstd")), Ok(Algorithm::Zstd));
    assert_eq!(Algorithm::from_name(&String::from("Zstd")), Err(BuildError::UnknownCompressor));
    assert_eq!(Algorithm::from_name(&String::from("")), Err(BuildError::UnknownCompressor));
    assert_eq!(Algorithm::from_name(&String::from("lz4")), Err(BuildError::UnknownCompressor));
}
