//! Plain values behind the command-line surface: the cipher and key-type
//! choices and filename validation. Argument parsing itself is I/O and lives
//! outside the library.

use vstd::prelude::*;

use crate::Mode;

verus! {

/// The cipher choice as the command line spells it.
#[derive(Clone, Debug)]
pub enum Cipher {
    Aes128,
    Aes256,
}

impl Cipher {
    /// The pipeline mode this choice selects.
    pub fn rfc_mode(&self) -> (m: Mode)
        ensures
            m == (match self {
                Cipher::Aes128 => Mode::Aes128,
                Cipher::Aes256 => Mode::Aes256,
            }),
    {
        match self {
            Cipher::Aes128 => Mode::Aes128,
            Cipher::Aes256 => Mode::Aes256,
        }
    }
}

/// Where the key material comes from: an interactive passphrase or the raw
/// bytes of a key file.
#[derive(Clone, Debug)]
pub enum KeyType {
    Passphrase,
    KeyFile,
}

/// A validated, non-empty file name.
pub type Filename = String;

/// Accepts any non-empty name and rejects the empty one.
pub fn validate_filename(name: &str) -> (r: Result<Filename, String>)
    ensures
        match r {
            Ok(v) => name@.len() > 0 && v@ == name@,
            Err(_) => name@.len() == 0,
        },
{
    if name.unicode_len() == 0 {
        return Err(String::from_str("empty filename"));
    }
    Ok(String::from_str(name))
}

} // verus!
