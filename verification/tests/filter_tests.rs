use chunkdict::chunk::ChunkdictChunkInfo;
use chunkdict::compress::Algorithm;
use chunkdict::blob::BlobId;
use chunkdict::context::{BlobFeatures, BuildContext, ConversionType, RafsVersion};
use chunkdict::filter::UndersizedBlob;
use chunkdict::generator::Generator;

fn described(blob_id: &str, digest: &str, uncompressed_size: u32) -> ChunkdictChunkInfo {
    ChunkdictChunkInfo {
        image_reference: String::from("registry.example/app"),
        version: String::from("v1"),
        chunk_blob_id: String::from(blob_id),
        chunk_digest: String::from(digest),
        chunk_compressed_size: uncompressed_size / 2,
        chunk_uncompressed_size: uncompressed_size,
        chunk_compressed_offset: 0,
        chunk_uncompressed_offset: 0,
    }
}

fn filter_context(conversion_type: ConversionType) -> BuildContext {
    BuildContext {
        blob_id: BlobId::Pending,
        fs_version: RafsVersion::V6,
        conversion_type,
        compressor: Algorithm::Zstd,
        chunk_size: 0x100000,
        blob_features: BlobFeatures::empty(),
    }
}

#[test]
fn group_at_or_above_minimum_survives() {
    let chunks = vec![described("A", "d0", 2048), described("A", "d1", 2048), described("A", "d2", 512)];
    let (kept, dropped) = Generator::validate_and_filter(&chunks, 4096);
    assert_eq!(kept, chunks);
    assert!(dropped.is_empty());
}

#[test]
fn undersized_group_is_dropped_with_one_report() {
    let chunks = vec![
        described("A", "d0", 2048),
        described("A", "d1", 2048),
        described("A", "d2", 512),
        described("B", "d3", 1000),
    ];
    let (kept, dropped) = Generator::validate_and_filter(&chunks, 4096);
    assert_eq!(kept, vec![described("A", "d0", 2048), described("A", "d1", 2048), described("A", "d2", 512)]);
    assert_eq!(dropped, vec![UndersizedBlob { blob_id: String::from("B"), total_size: 1000 }]);
}

#[test]
fn group_total_exactly_minimum_is_kept() {
    let chunks = vec![described("A", "d0", 4095), described("A", "d1", 1)];
    let (kept, dropped) = Generator::validate_and_filter(&chunks, 4096);
    assert_eq!(kept.len(), 2);
    assert!(dropped.is_empty());
}

#[test]
fn group_total_one_below_minimum_is_dropped() {
    let chunks = vec![described("A", "d0", 4094), described("A", "d1", 1)];
    let (kept, dropped) = Generator::validate_and_filter(&chunks, 4096);
    assert!(kept.is_empty());
    assert_eq!(dropped, vec![UndersizedBlob { blob_id: String::from("A"), total_size: 4095 }]);
}

#[test]
fn single_chunk_group_counts_its_one_size() {
    let chunks = vec![described("solo", "d0", 5000), described("tiny", "d1", 10)];
    let (kept, dropped) = Generator::validate_and_filter(&chunks, 4096);
    assert_eq!(kept, vec![described("solo", "d0", 5000)]);
    assert_eq!(dropped, vec![UndersizedBlob { blob_id: String::from("tiny"), total_size: 10 }]);
}

#[test]
fn interleaved_groups_keep_order_of_survivors() {
    let chunks = vec![
        described("A", "a0", 3000),
        described("B", "b0", 100),
        described("C", "c0", 4096),
        described("A", "a1", 3000),
        described("B", "b1", 200),
        described("D", "d0", 1),
        described("C", "c1", 1),
    ];
    let (kept, dropped) = Generator::validate_and_filter(&chunks, 4096);
    assert_eq!(
        kept,
        vec![
            described("A", "a0", 3000),
            described("C", "c0", 4096),
            described("A", "a1", 3000),
            described("C", "c1", 1),
        ]
    );
    assert_eq!(
        dropped,
        vec![
            UndersizedBlob { blob_id: String::from("B"), total_size: 300 },
            UndersizedBlob { blob_id: String::from("D"), total_size: 1 },
        ]
    );
}

#[test]
fn every_survivor_group_reaches_minimum_and_no_dropped_chunk_survives() {
    let chunks = vec![
        described("A", "a0", 10),
        described("B", "b0", 600),
        described("A", "a1", 20),
        described("B", "b1", 600),
        described("C", "c0", 1199),
    ];
    let min = 1200u64;
    let (kept, dropped) = Generator::validate_and_filter(&chunks, min);
    for chunk in &kept {
        let total: u64 = kept
            .iter()
            .filter(|other| other.chunk_blob_id == chunk.chunk_blob_id)
            .map(|other| other.chunk_uncompressed_size as u64)
            .sum();
        assert!(total >= min);
    }
    for report in &dropped {
        assert!(report.total_size < min);
        assert!(kept.iter().all(|chunk| chunk.chunk_blob_id != report.blob_id));
    }
    assert_eq!(kept.len(), 2);
    assert_eq!(dropped.len(), 2);
}

#[test]
fn empty_list_filters_to_empty() {
    let chunks: Vec<ChunkdictChunkInfo> = Vec::new();
    let (kept, dropped) = Generator::validate_and_filter(&chunks, 4096);
    assert!(kept.is_empty());
    assert!(dropped.is_empty());
}

#[test]
fn minimum_zero_keeps_everything() {
    let chunks = vec![described("A", "a0", 0), described("B", "b0", 1)];
    let (kept, dropped) = Generator::validate_and_filter(&chunks, 0);
    assert_eq!(kept, chunks);
    assert!(dropped.is_empty());
}

#[test]
fn large_sizes_are_summed_without_wrapping() {
    let chunks = vec![
        described("A", "a0", u32::MAX),
        described("A", "a1", u32::MAX),
        described("A", "a2", u32::MAX),
    ];
    let (kept, dropped) = Generator::validate_and_filter(&chunks, 3 * (u32::MAX as u64));
    assert_eq!(kept.len(), 3);
    assert!(dropped.is_empty());
    let (kept, dropped) = Generator::validate_and_filter(&chunks, 3 * (u32::MAX as u64) + 1);
    assert!(kept.is_empty());
    assert_eq!(dropped, vec![UndersizedBlob { blob_id: String::from("A"), total_size: 3 * (u32::MAX as u64) }]);
}

#[test]
fn remove_chunks_uses_block_size_of_the_build() {
    let ctx = filter_context(ConversionType::DirectoryToRafs);
    let mut chunks = vec![described("A", "a0", 4096), described("B", "b0", 600)];
    let dropped = Generator::validate_and_remove_chunks(&ctx, &mut chunks);
    assert_eq!(chunks, vec![described("A", "a0", 4096)]);
    assert_eq!(dropped, vec![UndersizedBlob { blob_id: String::from("B"), total_size: 600 }]);
}

#[test]
fn remove_chunks_uses_small_blocks_for_archive_streams() {
    let ctx = filter_context(ConversionType::TarToTarfs);
    let mut chunks = vec![described("A", "a0", 4096), described("B", "b0", 600), described("C", "c0", 511)];
    let dropped = Generator::validate_and_remove_chunks(&ctx, &mut chunks);
    assert_eq!(chunks, vec![described("A", "a0", 4096), described("B", "b0", 600)]);
    assert_eq!(dropped, vec![UndersizedBlob { blob_id: String::from("C"), total_size: 511 }]);
}

#[test]
fn block_size_is_512_for_archive_streams_and_4096_otherwise() {
    assert_eq!(filter_context(ConversionType::TarToTarfs).v6_block_size(), 512);
    assert_eq!(filter_context(ConversionType::TarToRafs).v6_block_size(), 4096);
    assert_eq!(filter_context(ConversionType::DirectoryToRafs).v6_block_size(), 4096);
}

#[test]
fn filtering_again_keeps_everything_and_reports_nothing() {
    let chunks = vec![
        described("A", "a0", 3000),
        described("B", "b0", 100),
        described("C", "c0", 4096),
        described("A", "a1", 3000),
        described("D", "d0", 1),
    ];
    let (kept, _) = Generator::validate_and_filter(&chunks, 4096);
    let (again, reported) = Generator::validate_and_filter(&kept, 4096);
    assert_eq!(again, kept);
    assert!(reported.is_empty());
}
