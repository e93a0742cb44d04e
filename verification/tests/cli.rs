//! Tests of the plain values behind the command-line surface.

use rfc::cli::{validate_filename, Cipher};
use rfc::Mode;

#[test]
fn test_validate_filename() {
    assert!(validate_filename("").is_err());
    assert!(validate_filename("foo").is_ok());
}

#[test]
fn test_rfc_mode() {
    assert_eq!(Cipher::Aes128.rfc_mode(), Mode::Aes128);
    assert_eq!(Cipher::Aes256.rfc_mode(), Mode::Aes256);
}
