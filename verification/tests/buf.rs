//! Tests of the block chunker and buffer helpers.

use rfc::buf::{blocks_to_bytes, bytes_chunks, fill, push_bytes};

/// `ceil(len/B)` blocks, each exactly `B` bytes, the final one zero-padded,
/// and `extra` reporting the genuine bytes of the last block.
#[test]
fn test_bytes_chunks_shapes() {
    // Empty input: zero blocks, extra == 0.
    let (blocks, extra) = bytes_chunks(&Vec::new(), 16);
    assert_eq!(blocks.len(), 0);
    assert_eq!(extra, 0);

    // An exact multiple: no padding block, extra == 0.
    let data = vec![7u8; 32];
    let (blocks, extra) = bytes_chunks(&data, 16);
    assert_eq!(blocks.len(), 2);
    assert_eq!(extra, 0);
    assert!(blocks.iter().all(|b| b.len() == 16));

    // A partial final block: one more block, zero-padded.
    let data: Vec<u8> = (1u8..=20).collect();
    let (blocks, extra) = bytes_chunks(&data, 16);
    assert_eq!(blocks.len(), 2);
    assert_eq!(extra, 4);
    assert_eq!(blocks[0], (1u8..=16).collect::<Vec<u8>>());
    let mut expected_last: Vec<u8> = (17u8..=20).collect();
    expected_last.resize(16, 0);
    assert_eq!(blocks[1], expected_last);

    // Another block size.
    let data = b"abcdefg".to_vec();
    let (blocks, extra) = bytes_chunks(&data, 3);
    assert_eq!(blocks.len(), 3);
    assert_eq!(extra, 1);
    assert_eq!(blocks[2], vec![b'g', 0, 0]);
}

/// Concatenating the chunks gives the original bytes followed by zeros.
#[test]
fn test_bytes_chunks_concat() {
    let data: Vec<u8> = (0u8..50).collect();
    let (blocks, extra) = bytes_chunks(&data, 16);
    assert_eq!(extra, 2);

    let flat = blocks_to_bytes(&blocks);
    assert_eq!(flat.len() % 16, 0);
    assert_eq!(&flat[..data.len()], &data[..]);
    assert!(flat[data.len()..].iter().all(|b| *b == 0));
}

#[test]
fn test_fill() {
    let mut buf = vec![9u8; 5];
    fill(&mut buf, &vec![1u8, 2]);
    assert_eq!(buf, vec![1, 2, 9, 9, 9]);

    // A source longer than the buffer fills only what fits.
    let mut buf = vec![9u8; 2];
    fill(&mut buf, &vec![1u8, 2, 3, 4]);
    assert_eq!(buf, vec![1, 2]);
}

#[test]
fn test_push_bytes() {
    let mut dst = vec![1u8, 2];
    push_bytes(&mut dst, &vec![3u8, 4]);
    assert_eq!(dst, vec![1, 2, 3, 4]);
}

#[test]
fn test_prealloc_size_b64() {
    assert_eq!(rfc::encoding::prealloc_size_b64(0), 4);
    assert_eq!(rfc::encoding::prealloc_size_b64(3), 8);
}
