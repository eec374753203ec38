use columnar::compression::{compress_lz4, compress_zstd, decompress_lz4, decompress_zstd};
use columnar::error::Error;

#[test]
fn round_trip_zstd() {
    let data: Vec<u8> = (0..200u8).map(|x| x % 10).collect();
    let mut buffer = vec![];
    compress_zstd(&data, &mut buffer).unwrap();

    let mut result = vec![0; 200];
    decompress_zstd(&buffer, &mut result).unwrap();
    assert_eq!(data, result);
}

#[test]
fn round_trip_lz4() {
    let data: Vec<u8> = (0..200u8).map(|x| x % 10).collect();
    let mut buffer = vec![];
    compress_lz4(&data, &mut buffer).unwrap();

    let mut result = vec![0; 200];
    decompress_lz4(&buffer, &mut result).unwrap();
    assert_eq!(data, result);
}

#[test]
fn round_trip_lz4_empty() {
    let data: Vec<u8> = vec![];
    let mut buffer = vec![];
    compress_lz4(&data, &mut buffer).unwrap();
    assert!(!buffer.is_empty());

    let mut result: Vec<u8> = vec![];
    decompress_lz4(&buffer, &mut result).unwrap();
    assert_eq!(data, result);
}

#[test]
fn round_trip_zstd_empty() {
    let data: Vec<u8> = vec![];
    let mut buffer = vec![];
    compress_zstd(&data, &mut buffer).unwrap();
    assert!(!buffer.is_empty());

    let mut result: Vec<u8> = vec![];
    decompress_zstd(&buffer, &mut result).unwrap();
    assert_eq!(data, result);
}

#[test]
fn compression_changes_the_bytes() {
    // a decompressor handed its own input back would fail this
    let data: Vec<u8> = (0..64u8).collect();
    let mut lz4_frame = vec![];
    compress_lz4(&data, &mut lz4_frame).unwrap();
    assert_ne!(lz4_frame, data);

    let mut zstd_frame = vec![];
    compress_zstd(&data, &mut zstd_frame).unwrap();
    assert_ne!(zstd_frame, data);
    assert_ne!(zstd_frame, lz4_frame);
}

#[test]
fn decompress_rejects_garbage() {
    let garbage: Vec<u8> = vec![1, 2, 3, 4, 5];
    let mut out = vec![0; 16];
    let r = decompress_lz4(&garbage, &mut out);
    assert!(matches!(r, Err(Error::CompressionFailed(_))));
    let r = decompress_zstd(&garbage, &mut out);
    assert!(matches!(r, Err(Error::CompressionFailed(_))));
}
