//! Tests of the compression stage.

use rfc::lz4::{compress_bytes, compress_to_bytes_sized, decompress_to_bytes_sized};

fn sample_bytes() -> Vec<u8> {
    let mut s = String::new();
    for i in 0..128 {
        s.push_str(&format!("entry {i}: a fairly compressible line of text\n"));
    }
    s.into_bytes()
}

#[test]
fn lz4_test_compress_bytes() {
    let original = sample_bytes();

    let compressed = compress_to_bytes_sized(&original).expect("failed to compress");
    let decompressed =
        decompress_to_bytes_sized(&compressed, original.len()).expect("failed to decompress");

    assert_eq!(original, decompressed);
}

#[test]
fn test_compression_transforms() {
    let original = sample_bytes();
    let compressed = compress_bytes(&original);
    // Repetitive text compresses, so the codec visibly transformed it.
    assert!(compressed.len() < original.len());
    assert_ne!(compressed, original);

    let decompressed =
        decompress_to_bytes_sized(&compressed, original.len()).expect("failed to decompress");
    assert_eq!(original, decompressed);
}

#[test]
fn test_decompress_rejects_garbage() {
    // A malformed stream is rejected with the decompression error.
    let r = decompress_to_bytes_sized(&vec![0xffu8; 8], 4);
    assert!(matches!(r, Err(rfc::error::RfcError::Decompression)));
}

#[test]
fn test_empty_round_trip() {
    let empty: Vec<u8> = Vec::new();
    let compressed = compress_bytes(&empty);
    let decompressed =
        decompress_to_bytes_sized(&compressed, 0).expect("failed to decompress");
    assert_eq!(decompressed, empty);
}
