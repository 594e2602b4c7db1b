use flate2::write::GzEncoder;
use flate2::Compression;
use stage1::error::StageError;
use stage1::gzip::{archive_from, decompress};
use std::io::Write;

fn gz(data: &[u8]) -> Vec<u8> {
    let mut encoder = GzEncoder::new(Vec::new(), Compression::default());
    encoder.write_all(data).unwrap();
    encoder.finish().unwrap()
}

#[test]
fn compressed_bytes_come_back() {
    assert_eq!(decompress(&gz(b"Hello, World!")), Ok(b"Hello, World!".to_vec()));
}

#[test]
fn compressed_nothing_comes_back_as_nothing() {
    assert_eq!(decompress(&gz(b"")), Ok(Vec::new()));
}

#[test]
fn a_large_payload_comes_back() {
    let data: Vec<u8> = (0..200_000u32).map(|i| (i % 251) as u8).collect();
    assert_eq!(decompress(&gz(&data)), Ok(data));
}

#[test]
fn the_result_is_not_the_input() {
    let packed = gz(b"Hello, World!");
    assert_ne!(decompress(&packed), Ok(packed));
}

#[test]
fn an_empty_payload_is_not_gzip() {
    assert_eq!(decompress(b""), Err(StageError::Extraction));
}

#[test]
fn plain_text_is_not_gzip() {
    assert_eq!(decompress(b"Hello, World!"), Err(StageError::Extraction));
}

#[test]
fn a_truncated_stream_is_refused() {
    let packed = gz(b"Hello, World! Hello, World! Hello, World!");
    assert_eq!(decompress(&packed[..packed.len() - 5]), Err(StageError::Extraction));
    assert_eq!(decompress(&packed[..10]), Err(StageError::Extraction));
}

#[test]
fn a_wrong_checksum_is_refused() {
    let mut packed = gz(b"Hello, World!");
    let at = packed.len() - 8;
    packed[at] ^= 0xff;
    assert_eq!(decompress(&packed), Err(StageError::Extraction));
}

#[test]
fn a_missing_archive_is_an_extraction_failure() {
    assert_eq!(archive_from(None), Err(StageError::Extraction));
    assert_eq!(archive_from(Some(vec![1u8, 2, 3])), Ok(vec![1u8, 2, 3]));
    assert_eq!(archive_from(Some(Vec::new())), Ok(Vec::new()));
}
