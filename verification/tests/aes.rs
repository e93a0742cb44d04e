//! Tests of the block cipher adapter and the raw ciphers.

use rfc::aes::{CipherAes128, CipherAes256, CipherRawAes128, CipherRawAes256};

fn cipher_test_cases() -> Vec<Vec<u8>> {
    let mut long = String::new();
    for i in 0..48 {
        long.push_str(&format!("sample content line {i} for the cipher tests\n"));
    }
    vec![
        long.into_bytes(),
        "foo".as_bytes().to_vec(),
        "".as_bytes().to_vec(),
        "1111111111111111".as_bytes().to_vec(),
    ]
}

fn test_cipher_aes128() {
    cipher_test_cases().into_iter().for_each(|plaintext| {
        let key = "this_is_my_key".as_bytes();
        let ciphertext =
            CipherAes128::encrypt(plaintext.clone(), key.to_vec()).expect("encryption failed");
        assert!(ciphertext.len() != 0);

        let plaintext_result =
            CipherAes128::decrypt(ciphertext, key.to_vec()).expect("decryption failed");
        assert_eq!(plaintext, plaintext_result);
    });
}

fn test_cipher_aes256() {
    cipher_test_cases().into_iter().for_each(|plaintext| {
        let key = "this_is_my_key".as_bytes();
        let ciphertext =
            CipherAes256::encrypt(plaintext.clone(), key.to_vec()).expect("encryption failed");
        assert!(ciphertext.len() != 0);

        let plaintext_result =
            CipherAes256::decrypt(ciphertext, key.to_vec()).expect("decryption failed");
        assert_eq!(plaintext, plaintext_result);
    });
}

#[test]
fn test_wrapped_aes() {
    test_cipher_aes256();
    test_cipher_aes128();
}

#[test]
fn test_aes_256() {
    let plaintext = "a sample text that stands in for a small configuration file\n";
    let key = "this_is_my_key";
    let ciphertext = CipherAes256::encrypt(plaintext.as_bytes().to_vec(), key.as_bytes().to_vec())
        .expect("encryption failed");
    assert!(ciphertext.len() != 0);

    let result = CipherAes256::decrypt(ciphertext, key.as_bytes().to_vec())
        .expect("decryption failed");
    assert_eq!(
        plaintext,
        String::from_utf8(result).expect("failed to convert result back to string")
    );
}

fn test_raw_aes_encryption_128() {
    let plaintext = "1111111111111111".as_bytes().to_vec();
    let key = "this_is_my_key".as_bytes().to_vec();
    let (ciphertext, _) = CipherRawAes128::encrypt(&plaintext, &key).expect("encryption failed");
    assert!(ciphertext.len() != 0);
    // The raw cipher must actually transform its input.
    assert_ne!(ciphertext, plaintext);

    let (plaintext_result, _) =
        CipherRawAes128::decrypt(&ciphertext, &key).expect("decryption failed");
    assert_eq!(plaintext, plaintext_result);
}

fn test_raw_aes_encryption_256() {
    let plaintext = "1111111111111111".as_bytes().to_vec();
    let key = "this_is_my_key".as_bytes().to_vec();
    let (ciphertext, _) = CipherRawAes256::encrypt(&plaintext, &key).expect("encryption failed");
    assert!(ciphertext.len() != 0);
    assert_ne!(ciphertext, plaintext);

    let (plaintext_result, _) =
        CipherRawAes256::decrypt(&ciphertext, &key).expect("decryption failed");
    assert_eq!(plaintext, plaintext_result);
}

#[test]
fn test_raw_aes_128() {
    test_raw_aes_encryption_128();
}

#[test]
fn test_raw_aes_256() {
    test_raw_aes_encryption_256();
}

/// The raw 256-bit cipher rejects input that is not a whole number of blocks.
#[test]
fn test_raw_aes_256_rejects_partial_block() {
    let key = "this_is_my_key".as_bytes().to_vec();
    let r = CipherRawAes256::decrypt(&b"short".to_vec(), &key);
    assert!(matches!(r, Err(rfc::error::RfcError::Decryption(_))));
}

/// The adapter rejects a container whose ciphertext is not a whole number of
/// blocks, and containers carrying the wrong metadata kind.
#[test]
fn test_adapter_rejects_malformed() {
    let key = "this_is_my_key".as_bytes().to_vec();

    // 17 payload bytes: not a multiple of the block size.
    let bad = rfc::wrapper::WrapperBytes(
        rfc::wrapper::Metadata::PaddingCount(0),
        vec![0u8; 17],
    )
    .encode();
    let r = CipherAes256::decrypt(bad, key.clone());
    assert!(matches!(r, Err(rfc::error::RfcError::Decryption(_))));

    // A padding count of 16 or more is out of range.
    let bad = rfc::wrapper::WrapperBytes(
        rfc::wrapper::Metadata::PaddingCount(16),
        vec![0u8; 32],
    )
    .encode();
    let r = CipherAes256::decrypt(bad, key.clone());
    assert!(matches!(r, Err(rfc::error::RfcError::Decryption(_))));

    // The wrong metadata kind is a deserialization failure.
    let bad = rfc::wrapper::WrapperBytes(
        rfc::wrapper::Metadata::OriginalLength(4),
        vec![0u8; 16],
    )
    .encode();
    let r = CipherAes128::decrypt(bad, key.clone());
    assert!(matches!(r, Err(rfc::error::RfcError::Deserialize(_))));

    // Truncated input fails to decode at all.
    let r = CipherAes128::decrypt(vec![2u8, 0u8], key);
    assert!(matches!(r, Err(rfc::error::RfcError::Deserialize(_))));
}

/// An input of exactly one block round-trips whole: a padding count of zero
/// means no padding block was appended and nothing is dropped.
#[test]
fn test_exact_multiple_round_trip() {
    let key = "k".as_bytes().to_vec();
    for len in [0usize, 16, 32, 64] {
        let plaintext = vec![7u8; len];
        let ciphertext =
            CipherAes128::encrypt(plaintext.clone(), key.clone()).expect("encryption failed");
        let decrypted = CipherAes128::decrypt(ciphertext, key.clone()).expect("decryption failed");
        assert_eq!(plaintext, decrypted);
    }
}
