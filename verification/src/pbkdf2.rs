//! Key derivation: PBKDF2-HMAC-SHA256 over a password and a random salt.
//!
//! The derived key is a deterministic function of the password, the salt, the
//! round count, and the requested length — so the same password and salt
//! always re-derive the identical key at decryption time. Salts are fresh
//! 16-byte random values, Base64-encoded without padding into 22 text-safe
//! characters and validated as a salt string.

use vstd::prelude::*;

use crate::encoding::{b64_nopad_of, encode_b64_nopad};
use crate::error::RfcError;

verus! {

/// The fixed PBKDF2 iteration count of the format.
pub const PBKDF2_ROUNDS: u32 = 4096;

/// The decoded length of a fresh salt, before text encoding.
pub const SALT_RAW_LEN: usize = 16;

/// The length in bytes of an encoded salt: 16 random bytes in unpadded
/// Base64.
pub const SALT_LEN: usize = 22;

/// True of the characters a salt string may contain: letters, digits, `/`,
/// `+`, `.`, and `-`. This is the set the salt validation accepts, and it
/// contains the whole standard Base64 alphabet.
pub open spec fn is_salt_char(c: u8) -> bool {
    (97 <= c <= 122) || (65 <= c <= 90) || (48 <= c <= 57) || c == 47 || c == 43 || c == 46 || c
        == 45
}

/// What PBKDF2-HMAC-SHA256 derives from a password, a salt, a round count,
/// and a requested key length. Named abstractly: the value depends on the
/// arguments alone, which is exactly the determinism the pipeline needs.
pub uninterp spec fn pbkdf2_sha256(
    password: Seq<u8>,
    salt: Seq<u8>,
    rounds: u32,
    key_len: nat,
) -> Seq<u8>;

/// A derived key is always exactly as long as requested. The trusted wrapper
/// below carries this fact with every result.
pub open spec fn pbkdf2_len_ok() -> bool {
    forall|p: Seq<u8>, s: Seq<u8>, r: u32, l: nat| (#[trigger] pbkdf2_sha256(p, s, r, l)).len() == l
}

/// What the trusted derivation wrapper guarantees of its result: it is the
/// named PBKDF2 value, of the requested length.
pub open spec fn is_pbkdf2_key(
    r: Seq<u8>,
    password: Seq<u8>,
    salt: Seq<u8>,
    rounds: u32,
    key_len: nat,
) -> bool {
    &&& r == pbkdf2_sha256(password, salt, rounds, key_len)
    &&& r.len() == key_len
    &&& pbkdf2_len_ok()
}

/// Relies on `pbkdf2::pbkdf2_hmac::<sha2::Sha256>`: fills the output buffer
/// with the PBKDF2 stream, a pure function of password, salt, rounds, and
/// length; it never fails, since HMAC accepts keys of any length.
#[verifier::external_body]
fn pbkdf2_hmac_sha256(password: &Vec<u8>, salt: &Vec<u8>, rounds: u32, key_len: usize) -> (r: Vec<
    u8,
>)
    ensures
        r@ == pbkdf2_sha256(password@, salt@, rounds, key_len as nat),
        is_pbkdf2_key(r@, password@, salt@, rounds, key_len as nat),
{
    let mut key = vec![0u8; key_len];
    pbkdf2::pbkdf2_hmac::<sha2::Sha256>(password, salt, rounds, &mut key);
    key
}

/// Derives a `key_len`-byte cipher key from a password and salt with the
/// format's fixed round count.
pub fn pbkdf2_key(password: &Vec<u8>, salt: &Vec<u8>, key_len: usize) -> (r: Vec<u8>)
    ensures
        is_pbkdf2_key(r@, password@, salt@, PBKDF2_ROUNDS, key_len as nat),
{
    pbkdf2_hmac_sha256(password, salt, PBKDF2_ROUNDS, key_len)
}

/// Key derivation is deterministic: the same password and salt always yield
/// the same key. (That different salts yield unrelated keys is a
/// cryptographic property of PBKDF2 and is exercised by tests, not proved.)
pub proof fn lemma_key_derivation_deterministic(
    password1: Seq<u8>,
    salt1: Seq<u8>,
    password2: Seq<u8>,
    salt2: Seq<u8>,
    key_len: nat,
)
    requires
        password1 == password2,
        salt1 == salt2,
    ensures
        pbkdf2_sha256(password1, salt1, PBKDF2_ROUNDS, key_len) == pbkdf2_sha256(
            password2,
            salt2,
            PBKDF2_ROUNDS,
            key_len,
        ),
{
}

/// Relies on `rand_core::OsRng::try_fill_bytes`: fills the buffer from the
/// operating system's randomness source, or reports its failure. Nothing is
/// assumed of the bytes themselves.
#[verifier::external_body]
fn os_random_bytes(n: usize) -> (r: Result<Vec<u8>, RfcError>)
    ensures
        r matches Ok(v) ==> v@.len() == n,
        r matches Err(e) ==> e matches RfcError::Encryption(_),
{
    let mut buf = vec![0u8; n];
    match rand_core::RngCore::try_fill_bytes(&mut rand_core::OsRng, &mut buf) {
        Ok(()) => Ok(buf),
        Err(e) => Err(RfcError::Encryption(format!("randomness source failed: {}", e))),
    }
}

/// Relies on `password_hash::Salt::from_b64` and `Salt::as_str`: validation
/// accepts a 4-to-64-character string whose every character lies in the salt
/// alphabet `[a-zA-Z0-9/+.-]`, rejects anything else, and hands back exactly
/// the characters it was given.
#[verifier::external_body]
fn salt_from_b64(bytes: &Vec<u8>) -> (r: Result<Vec<u8>, RfcError>)
    ensures
        r matches Ok(v) ==> v@ == bytes@ && 4 <= v@.len() <= 64 && forall|i: int|
            0 <= i < v@.len() ==> is_salt_char(#[trigger] v@[i]),
        r matches Err(e) ==> e matches RfcError::Encryption(_),
{
    let s = match core::str::from_utf8(bytes) {
        Ok(s) => s,
        Err(e) => {
            return Err(RfcError::Encryption(format!("salt is not UTF-8: {}", e)));
        },
    };
    match password_hash::Salt::from_b64(s) {
        Ok(salt) => Ok(salt.as_str().as_bytes().to_vec()),
        Err(e) => Err(RfcError::Encryption(format!("failed to generate salt from b64: {}", e))),
    }
}

/// Produces a fresh salt: 16 bytes of OS randomness, Base64-encoded without
/// padding into 22 characters and validated as a salt string. A returned salt
/// is therefore always the unpadded Base64 encoding of some 16-byte buffer —
/// 22 characters, every one text-safe (in the salt alphabet). Fails only if
/// the randomness source does.
pub fn generate_salt() -> (r: Result<Vec<u8>, RfcError>)
    ensures
        r matches Ok(s) ==> s@.len() == SALT_LEN && (forall|i: int|
            0 <= i < s@.len() ==> is_salt_char(#[trigger] s@[i])) && exists|raw: Seq<u8>|
            raw.len() == SALT_RAW_LEN && s@ == b64_nopad_of(raw),
        r matches Err(e) ==> e matches RfcError::Encryption(_),
{
    let raw = os_random_bytes(SALT_RAW_LEN)?;
    let ghost raw_view = raw@;
    let encoded = encode_b64_nopad(&raw);
    let out = salt_from_b64(&encoded);
    proof {
        if out is Ok {
            let s = out.unwrap()@;
            assert(s == b64_nopad_of(raw_view));
            assert(raw_view.len() == SALT_RAW_LEN && s == b64_nopad_of(raw_view));
        }
    }
    out
}

} // verus!
