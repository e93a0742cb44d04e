//! Tests of key derivation and salt generation.

use rfc::aes::CipherAes256;
use rfc::pbkdf2::{generate_salt, pbkdf2_key, SALT_LEN};

#[test]
fn test_gen_salt() {
    for _ in 0..5 {
        match generate_salt() {
            Ok(salt) => {
                assert_eq!(salt.len(), SALT_LEN);
                // Salts are text-safe: every byte is in the B64 salt alphabet.
                assert!(salt.iter().all(|c| {
                    (b'a'..=b'z').contains(c)
                        || (b'A'..=b'Z').contains(c)
                        || (b'0'..=b'9').contains(c)
                        || *c == b'/'
                        || *c == b'+'
                        || *c == b'.'
                        || *c == b'-'
                }));
            },
            Err(err) => {
                panic!("generate_salt returned an error: {:?}", err);
            },
        }
    }
}

#[test]
fn test_gen_key() {
    let password = b"password";
    let salt = generate_salt().expect("failed to generate salt");

    let key1 = pbkdf2_key(&password.to_vec(), &salt, 32);
    assert_eq!(key1.len(), 32);

    let key2 = pbkdf2_key(&password.to_vec(), &salt, 32);
    assert_eq!(key1, key2);
}

/// Different salts yield different keys for the same password, and the
/// derived key is not a copy of the password.
#[test]
fn test_different_salts_different_keys() {
    let password = b"password".to_vec();
    let salt1 = b"aaaaaaaaaaaaaaaaaaaaaa".to_vec();
    let salt2 = b"bbbbbbbbbbbbbbbbbbbbbb".to_vec();

    let key1 = pbkdf2_key(&password, &salt1, 32);
    let key2 = pbkdf2_key(&password, &salt2, 32);
    assert_ne!(key1, key2);
    assert_ne!(key1, vec![0u8; 32]);
    assert_ne!(&key1[..8], &password[..]);
}

#[test]
fn test_pbkdf2_encryption() {
    let password = b"password";
    let salt = generate_salt().expect("failed to generate salt");
    let key1 = pbkdf2_key(&password.to_vec(), &salt, 32);

    let mut plaintext = String::new();
    for i in 0..32 {
        plaintext.push_str(&format!("plaintext line {i} for the derivation test\n"));
    }
    let plaintext = plaintext.into_bytes();

    let ciphertext =
        CipherAes256::encrypt(plaintext.clone(), key1).expect("failed to encrypt");

    let key2 = pbkdf2_key(&password.to_vec(), &salt, 32);
    let decrypted = CipherAes256::decrypt(ciphertext, key2).expect("failed to decrypt");

    assert_eq!(plaintext, decrypted);
}
