use chunkdict::error::BuildError;
use chunkdict::reader::BlobNodeReader;

fn counting_blob(len: usize) -> Vec<u8> {
    (0..len).map(|i| i as u8).collect()
}

#[test]
fn read_fills_the_buffer_within_the_range() {
    let blob = counting_blob(100);
    let mut reader = BlobNodeReader::new(&blob, 10, 30);
    assert_eq!(reader.cursor(), 10);
    let mut buf = vec![0xffu8; 8];
    assert_eq!(reader.read(&mut buf), 8);
    assert_eq!(buf, vec![10, 11, 12, 13, 14, 15, 16, 17]);
    assert_eq!(reader.cursor(), 18);
}

#[test]
fn read_stops_at_the_end_of_the_range() {
    let blob = counting_blob(100);
    let mut reader = BlobNodeReader::new(&blob, 10, 30);
    let mut buf = vec![0xffu8; 16];
    assert_eq!(reader.read(&mut buf), 16);
    assert_eq!(reader.read(&mut buf), 4);
    assert_eq!(&buf[..4], &[26, 27, 28, 29]);
    assert_eq!(&buf[4..6], &[14, 15]);
    assert_eq!(reader.cursor(), 30);
    assert_eq!(reader.read(&mut buf), 0);
    assert_eq!(reader.cursor(), 30);
}

#[test]
fn read_past_the_end_yields_nothing_and_no_error() {
    let blob = counting_blob(100);
    let mut reader = BlobNodeReader::new(&blob, 50, 40);
    let mut buf = vec![7u8; 4];
    assert_eq!(reader.read(&mut buf), 0);
    assert_eq!(buf, vec![7, 7, 7, 7]);
    assert_eq!(reader.cursor(), 50);
}

#[test]
fn read_stops_where_the_blob_ends() {
    let blob = counting_blob(20);
    let mut reader = BlobNodeReader::new(&blob, 15, 40);
    let mut buf = vec![0u8; 10];
    assert_eq!(reader.read(&mut buf), 5);
    assert_eq!(&buf[..5], &[15, 16, 17, 18, 19]);
    assert_eq!(reader.read(&mut buf), 0);
    let mut beyond = BlobNodeReader::new(&blob, 25, 40);
    assert_eq!(beyond.read(&mut buf), 0);
}

#[test]
fn read_into_empty_buffer_reads_nothing() {
    let blob = counting_blob(20);
    let mut reader = BlobNodeReader::new(&blob, 0, 20);
    let mut buf: Vec<u8> = Vec::new();
    assert_eq!(reader.read(&mut buf), 0);
    assert_eq!(reader.cursor(), 0);
}

#[test]
fn read_exact_fills_or_reports_a_short_read() {
    let blob = counting_blob(20);
    let mut reader = BlobNodeReader::new(&blob, 4, 10);
    let mut buf = vec![0u8; 6];
    assert_eq!(reader.read_exact(&mut buf), Ok(()));
    assert_eq!(buf, vec![4, 5, 6, 7, 8, 9]);
    let mut reader = BlobNodeReader::new(&blob, 4, 10);
    let mut buf = vec![0u8; 7];
    assert_eq!(reader.read_exact(&mut buf), Err(BuildError::UnexpectedEnd));
    let mut reader = BlobNodeReader::new(&blob, 18, 24);
    let mut buf = vec![0u8; 6];
    assert_eq!(reader.read_exact(&mut buf), Err(BuildError::UnexpectedEnd));
    let mut reader = BlobNodeReader::new(&blob, 30, 30);
    let mut buf: Vec<u8> = Vec::new();
    assert_eq!(reader.read_exact(&mut buf), Ok(()));
}

#[test]
fn read_range_hands_out_the_range_or_nothing() {
    let blob = counting_blob(20);
    assert_eq!(BlobNodeReader::read_range(&blob, 4, 6), Some(vec![4, 5, 6, 7, 8, 9]));
    assert_eq!(BlobNodeReader::read_range(&blob, 0, 20), Some(counting_blob(20)));
    assert_eq!(BlobNodeReader::read_range(&blob, 15, 6), None);
    assert_eq!(BlobNodeReader::read_range(&blob, 20, 1), None);
    assert_eq!(BlobNodeReader::read_range(&blob, u64::MAX, 2), None);
    assert_eq!(BlobNodeReader::read_range(&blob, 20, 0), Some(Vec::new()));
    assert_eq!(BlobNodeReader::read_range(&blob, 500, 0), Some(Vec::new()));
}
