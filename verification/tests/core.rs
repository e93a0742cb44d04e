//! End-to-end tests of the pipeline over in-memory buffers.

use rfc::encoding::Encoding::{self, B64, Hex, Plain};
use rfc::{core_buf, core_write, crypt, Mode};

fn test_cases() -> Vec<Vec<u8>> {
    vec![
        sample_text().into_bytes(),
        sample_config().into_bytes(),
        "foo".as_bytes().to_vec(),
        "".as_bytes().to_vec(),
        "1111111111111111".as_bytes().to_vec(),
    ]
}

fn sample_text() -> String {
    let mut s = String::new();
    for i in 0..64 {
        s.push_str(&format!(
            "line {i}: the quick brown fox jumps over the lazy dog.\n"
        ));
    }
    s
}

fn sample_config() -> String {
    String::from(
        "[package]\nname = \"sample\"\nversion = \"0.1.0\"\nedition = \"2021\"\n\n[dependencies]\nserde = \"1\"\n",
    )
}

pub fn test_rfc_crypt(cipher: Mode) {
    test_cases().into_iter().for_each(|plaintext| {
        let key = b"this_is_my_key";

        let ciphertext =
            crypt(false, plaintext.to_vec(), key.to_vec(), cipher).expect("failed to encrypt");

        let decrypt_result =
            crypt(true, ciphertext, key.to_vec(), cipher).expect("failed to decrypt");

        assert_eq!(plaintext, decrypt_result);
    })
}

#[test]
fn test_crypt() {
    test_rfc_crypt(Mode::Aes128);
    test_rfc_crypt(Mode::Aes256);
}

fn test_rfc_core_buf(
    plaintext: Vec<u8>,
    key: Vec<u8>,
    mode: Mode,
    codec: Encoding,
    compress: bool,
) {
    let ciphertext = core_buf(
        false,
        key.clone(),
        mode,
        plaintext.clone(),
        Some(plaintext.len()),
        codec,
        compress,
    )
    .expect("encryption failed");

    let decrypted = core_buf(
        true,
        key,
        mode,
        ciphertext.clone(),
        Some(ciphertext.len()),
        codec,
        compress,
    )
    .expect("decryption failed");

    assert_eq!(plaintext, decrypted);
}

#[test]
fn test_core_buf() {
    let encodings: Vec<Encoding> = vec![Plain, Hex, B64];
    let modes: Vec<Mode> = vec![Mode::Aes128, Mode::Aes256];
    let compresses = vec![false, true];

    let key = b"this_is_my_key".to_vec();
    test_cases().into_iter().for_each(|plaintext| {
        compresses.iter().for_each(|compress| {
            encodings.iter().for_each(|codec| {
                modes.iter().for_each(|mode| {
                    test_rfc_core_buf(plaintext.clone(), key.clone(), *mode, *codec, *compress)
                })
            })
        })
    })
}

#[test]
fn test_core_write_appends() {
    let key = b"this_is_my_key".to_vec();
    let plaintext = b"some plaintext worth writing out".to_vec();

    let mut ciphertext: Vec<u8> = Vec::new();
    let n = core_write(
        false,
        key.clone(),
        Mode::Aes256,
        plaintext.clone(),
        Some(plaintext.len()),
        &mut ciphertext,
        Plain,
        false,
    )
    .expect("encryption failed");
    assert_eq!(n, ciphertext.len());

    let mut decrypted: Vec<u8> = Vec::new();
    let n = core_write(
        true,
        key,
        Mode::Aes256,
        ciphertext.clone(),
        Some(ciphertext.len()),
        &mut decrypted,
        Plain,
        false,
    )
    .expect("decryption failed");
    assert_eq!(n, decrypted.len());
    assert_eq!(plaintext, decrypted);
}

/// Encrypting the three bytes "foo" with the 256-bit variant and decrypting
/// yields back exactly "foo", and the intermediate container's ciphertext is
/// one full block of 16 bytes.
#[test]
fn test_scenario_foo() {
    let key = b"this_is_my_key".to_vec();
    let plaintext = b"foo".to_vec();

    let container = core_buf(
        false,
        key.clone(),
        Mode::Aes256,
        plaintext.clone(),
        None,
        Plain,
        false,
    )
    .expect("encryption failed");

    // The outer container carries the salt; the payload is the cipher
    // adapter's own container, whose payload is the raw ciphertext blocks.
    let outer = rfc::wrapper::WrapperBytes::decode(&container).expect("outer decode failed");
    assert!(matches!(outer.0, rfc::wrapper::Metadata::Salt(_)));
    let inner = rfc::wrapper::WrapperBytes::decode(&outer.1).expect("inner decode failed");
    match inner.0 {
        rfc::wrapper::Metadata::PaddingCount(extra) => assert_eq!(extra, 3),
        _ => panic!("inner container does not carry a padding count"),
    }
    assert!(inner.1.len() > 0);
    assert_eq!(inner.1.len() % 16, 0);
    assert_eq!(inner.1.len(), 16);

    let decrypted = core_buf(true, key, Mode::Aes256, container, None, Plain, false)
        .expect("decryption failed");
    assert_eq!(decrypted, b"foo".to_vec());
}

/// Encrypting an empty buffer and decrypting the result yields an empty
/// buffer: the padding count is zero and no padding block exists.
#[test]
fn test_zero_length_input() {
    for mode in [Mode::Aes128, Mode::Aes256] {
        let key = b"this_is_my_key".to_vec();
        let ciphertext = core_buf(false, key.clone(), mode, Vec::new(), None, Plain, false)
            .expect("encryption failed");
        let decrypted =
            core_buf(true, key, mode, ciphertext, None, Plain, false).expect("decryption failed");
        assert_eq!(decrypted, Vec::<u8>::new());
    }
}

/// A highly repetitive 10 KB buffer compresses to strictly less than 10 KB,
/// and the compressed pipeline round-trips it.
#[test]
fn test_compression_shrinks() {
    let plaintext = vec![b'a'; 10 * 1024];
    let compressed = rfc::lz4::compress_bytes(&plaintext);
    assert!(compressed.len() < plaintext.len());

    let key = b"this_is_my_key".to_vec();
    let ciphertext = core_buf(
        false,
        key.clone(),
        Mode::Aes256,
        plaintext.clone(),
        None,
        Plain,
        true,
    )
    .expect("encryption failed");
    let decrypted =
        core_buf(true, key, Mode::Aes256, ciphertext, None, Plain, true).expect("decryption failed");
    assert_eq!(plaintext, decrypted);
}

/// Hex-encoded pipeline output contains only lowercase hex characters and has
/// even length; Base64 output stays within the standard alphabet.
#[test]
fn test_text_encoding_shape() {
    let key = b"this_is_my_key".to_vec();
    let plaintext = b"some plaintext".to_vec();

    let hex_out = core_buf(
        false,
        key.clone(),
        Mode::Aes256,
        plaintext.clone(),
        None,
        Hex,
        false,
    )
    .expect("encryption failed");
    assert_eq!(hex_out.len() % 2, 0);
    assert!(hex_out
        .iter()
        .all(|c| (b'0'..=b'9').contains(c) || (b'a'..=b'f').contains(c)));

    let b64_out = core_buf(false, key, Mode::Aes256, plaintext, None, B64, false)
        .expect("encryption failed");
    assert!(b64_out.iter().all(|c| {
        (b'A'..=b'Z').contains(c)
            || (b'a'..=b'z').contains(c)
            || (b'0'..=b'9').contains(c)
            || *c == b'+'
            || *c == b'/'
            || *c == b'='
    }));
}

/// Decrypting with options that do not match the input fails instead of
/// returning something that merely looks valid.
#[test]
fn test_mismatched_decrypt_fails() {
    let key = b"this_is_my_key".to_vec();
    // Not hex at all.
    let r = core_buf(
        true,
        key.clone(),
        Mode::Aes256,
        b"zz-not-hex".to_vec(),
        None,
        Hex,
        false,
    );
    assert!(matches!(r, Err(rfc::error::RfcError::Encoding(_))));

    // Too short to be a container.
    let r = core_buf(true, key, Mode::Aes256, b"tiny".to_vec(), None, Plain, false);
    assert!(matches!(r, Err(rfc::error::RfcError::Deserialize(_))));
}

/// The format carries no integrity tag, so decrypting with the wrong password
/// does not fail — but it does not yield the plaintext either.
#[test]
fn test_wrong_password_differs() {
    let plaintext = b"a secret worth keeping".to_vec();
    let ciphertext = core_buf(
        false,
        b"right_password".to_vec(),
        Mode::Aes256,
        plaintext.clone(),
        None,
        Plain,
        false,
    )
    .expect("encryption failed");

    let decrypted = core_buf(
        true,
        b"wrong_password".to_vec(),
        Mode::Aes256,
        ciphertext,
        None,
        Plain,
        false,
    )
    .expect("decryption failed");
    assert_ne!(decrypted, plaintext);
}
