//! Tests of the container codec and the hex text encoding.

use rfc::encoding::{decode_hex, encode_hex};
use rfc::wrapper::{Metadata, WrapperBytes};

#[test]
fn test_decode_archived() {
    let h = b"header_bytes".to_vec();
    let d = b"data_bytes".to_vec();

    let encoded = WrapperBytes(Metadata::Salt(h.clone()), d.clone()).encode();
    let decoded = WrapperBytes::decode(&encoded).expect("failed to decode");

    match decoded.0 {
        Metadata::Salt(s) => assert_eq!(h, s),
        _ => panic!("wrong metadata kind"),
    }
    assert_eq!(d, decoded.1);
}

#[test]
fn test_container_round_trip_all_kinds() {
    let payload = b"payload bytes".to_vec();

    for meta in [
        Metadata::Salt(b"some-salt-value".to_vec()),
        Metadata::Salt(Vec::new()),
        Metadata::PaddingCount(0),
        Metadata::PaddingCount(15),
        Metadata::OriginalLength(0),
        Metadata::OriginalLength(u64::MAX),
    ] {
        let encoded = WrapperBytes(meta.clone(), payload.clone()).encode();
        let decoded = WrapperBytes::decode(&encoded).expect("failed to decode");
        assert_eq!(decoded.0, meta);
        assert_eq!(decoded.1, payload);
    }

    // An empty payload round-trips too.
    let encoded = WrapperBytes(Metadata::PaddingCount(3), Vec::new()).encode();
    let decoded = WrapperBytes::decode(&encoded).expect("failed to decode");
    assert_eq!(decoded.0, Metadata::PaddingCount(3));
    assert_eq!(decoded.1, Vec::<u8>::new());
}

#[test]
fn test_container_rejects_malformed() {
    // Too short.
    assert!(WrapperBytes::decode(&Vec::new()).is_err());
    assert!(WrapperBytes::decode(&vec![1u8, 0, 0, 0]).is_err());

    // Unknown tag.
    let mut bad = WrapperBytes(Metadata::PaddingCount(0), b"x".to_vec()).encode();
    bad[0] = 9;
    assert!(matches!(
        WrapperBytes::decode(&bad),
        Err(rfc::error::RfcError::Deserialize(_))
    ));

    // A salt length field pointing past the end of the input.
    let mut bad = WrapperBytes(Metadata::Salt(b"abcd".to_vec()), Vec::new()).encode();
    bad[1] = 200;
    assert!(matches!(
        WrapperBytes::decode(&bad),
        Err(rfc::error::RfcError::Deserialize(_))
    ));

    // Truncating a valid container breaks it.
    let good = WrapperBytes(Metadata::Salt(b"abcd".to_vec()), Vec::new()).encode();
    let truncated = good[..good.len() - 1].to_vec();
    assert!(WrapperBytes::decode(&truncated).is_err());
}

#[test]
fn test_hex_exact_values() {
    assert_eq!(encode_hex(&vec![0xabu8]), b"ab".to_vec());
    assert_eq!(encode_hex(&vec![0x00u8, 0x0f, 0xf0, 0xff]), b"000ff0ff".to_vec());
    assert_eq!(encode_hex(&Vec::new()), Vec::<u8>::new());

    assert_eq!(decode_hex(&b"ab".to_vec()).expect("decode failed"), vec![0xabu8]);
    assert_eq!(
        decode_hex(&b"000ff0ff".to_vec()).expect("decode failed"),
        vec![0x00u8, 0x0f, 0xf0, 0xff]
    );
    // Uppercase digits decode too.
    assert_eq!(decode_hex(&b"AB".to_vec()).expect("decode failed"), vec![0xabu8]);
}

#[test]
fn test_hex_round_trip() {
    let data: Vec<u8> = (0u16..=255).map(|b| b as u8).collect();
    let encoded = encode_hex(&data);
    assert_eq!(encoded.len(), 2 * data.len());
    assert!(encoded
        .iter()
        .all(|c| (b'0'..=b'9').contains(c) || (b'a'..=b'f').contains(c)));
    let decoded = decode_hex(&encoded).expect("decode failed");
    assert_eq!(data, decoded);
}

#[test]
fn test_hex_rejects_invalid() {
    // Odd length.
    assert!(matches!(
        decode_hex(&b"abc".to_vec()),
        Err(rfc::error::RfcError::Encoding(_))
    ));
    // A character outside the hex alphabet.
    assert!(matches!(
        decode_hex(&b"zz".to_vec()),
        Err(rfc::error::RfcError::Encoding(_))
    ));
}
