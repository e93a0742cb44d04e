//! A verified single-file encryption pipeline.
//!
//! Plaintext flows through an optional LZ4 compression stage, an AES block
//! cipher stage keyed by PBKDF2 over a fresh random salt, and an optional
//! text-encoding stage (hex or Base64). Every intermediate result is framed
//! by a self-describing binary container that pairs a metadata value (salt,
//! padding count, or original length) with a payload, so that decryption can
//! run the exact mirror sequence.
//!
//! Compression always happens before encryption on the way in and after
//! decryption on the way out; the text encoding is always the outermost
//! stage. A failure in any stage aborts the whole pipeline.

pub mod aes;
pub mod buf;
pub mod cli;
pub mod encoding;
pub mod error;
pub mod lz4;
pub mod pbkdf2;
pub mod wrapper;

use vstd::prelude::*;

use crate::aes::{
    aes_cipher_good, cipher_decrypt_spec, cipher_encrypt_spec, lemma_cipher_round_trip, pad_key,
    CipherAes128, CipherAes256,
};
use crate::encoding::{
    b64_dec, b64_of, b64_round_trip_ok, decode_b64_buf, encode_b64_buf, hex_decode_spec,
    hex_encode_spec, lemma_hex_round_trip, Encoding,
};
use crate::error::RfcError;
use crate::lz4::{compress_bytes, decompress_to_bytes_sized, lz4_dec, lz4_of, lz4_round_trip_ok};
use crate::pbkdf2::{
    generate_salt, pbkdf2_key, pbkdf2_len_ok, pbkdf2_sha256, PBKDF2_ROUNDS, SALT_LEN,
};
use crate::wrapper::{decode_spec, encode_spec, MetaView, Metadata, WrapperBytes};

verus! {

/// The supported cipher variants: AES with a 128-bit or a 256-bit key.
#[derive(Clone, Copy, PartialEq, Eq, Structural, Debug)]
pub enum Mode {
    Aes128,
    Aes256,
}

impl Mode {
    /// The key length in bytes that this variant derives and feeds to the
    /// block cipher.
    pub open spec fn spec_key_size(self) -> nat {
        match self {
            Mode::Aes128 => 16,
            Mode::Aes256 => 32,
        }
    }

    /// Executable form of [`Mode::spec_key_size`].
    pub fn key_size(self) -> (n: usize)
        ensures
            n == self.spec_key_size(),
    {
        match self {
            Mode::Aes128 => 16,
            Mode::Aes256 => 32,
        }
    }
}

// ---------------------------------------------------------------------------
// The pipeline at the specification level
// ---------------------------------------------------------------------------
/// The crypto stage on the way in: derive the key from the password and the
/// salt, encrypt with the chosen variant, and wrap salt and ciphertext into
/// one container.
pub open spec fn crypt_encrypt_spec(p: Seq<u8>, password: Seq<u8>, mode: Mode, salt: Seq<u8>) -> Seq<
    u8,
> {
    encode_spec(
        MetaView::Salt(salt),
        cipher_encrypt_spec(
            mode,
            p,
            pbkdf2_sha256(password, salt, PBKDF2_ROUNDS, mode.spec_key_size()),
        ),
    )
}

/// The crypto stage on the way out: unwrap the salt, re-derive the key, and
/// decrypt; nothing if the container or the ciphertext is malformed.
pub open spec fn crypt_decrypt_spec(input: Seq<u8>, password: Seq<u8>, mode: Mode) -> Option<
    Seq<u8>,
> {
    match decode_spec(input) {
        Some((MetaView::Salt(salt), ct)) => cipher_decrypt_spec(
            mode,
            ct,
            pbkdf2_sha256(password, salt, PBKDF2_ROUNDS, mode.spec_key_size()),
        ),
        _ => None,
    }
}

/// The compression stage on the way in: compress and wrap the compressed
/// bytes with the original length, so decompression can size its output.
pub open spec fn compress_wrap_spec(p: Seq<u8>) -> Seq<u8> {
    encode_spec(MetaView::OriginalLength(p.len() as u64), lz4_of(p))
}

/// The compression stage on the way out: unwrap the original length and
/// decompress at it; nothing if the container or the stream is malformed.
pub open spec fn decompress_unwrap_spec(b: Seq<u8>) -> Option<Seq<u8>> {
    match decode_spec(b) {
        Some((MetaView::OriginalLength(n), c)) => if (n as nat) <= (usize::MAX as nat)
            && (lz4_dec(c) matches Some(v) && v.len() <= n as nat) {
            lz4_dec(c)
        } else {
            None
        },
        _ => None,
    }
}

/// The outermost text-encoding stage.
pub open spec fn encode_stage_spec(codec: Encoding, b: Seq<u8>) -> Seq<u8> {
    match codec {
        Encoding::Plain => b,
        Encoding::Hex => hex_encode_spec(b),
        Encoding::B64 => b64_of(b),
    }
}

/// The inverse of the text-encoding stage; nothing on input the codec
/// rejects.
pub open spec fn decode_stage_spec(codec: Encoding, b: Seq<u8>) -> Option<Seq<u8>> {
    match codec {
        Encoding::Plain => Some(b),
        Encoding::Hex => hex_decode_spec(b),
        Encoding::B64 => b64_dec(b),
    }
}

/// The whole encrypt path for a given salt: optional compression, then the
/// crypto stage, then the text encoding.
pub open spec fn core_encrypt_spec(
    p: Seq<u8>,
    password: Seq<u8>,
    mode: Mode,
    codec: Encoding,
    compress: bool,
    salt: Seq<u8>,
) -> Seq<u8> {
    encode_stage_spec(
        codec,
        crypt_encrypt_spec(
            if compress {
                compress_wrap_spec(p)
            } else {
                p
            },
            password,
            mode,
            salt,
        ),
    )
}

/// The whole decrypt path: text decoding, then the crypto stage, then
/// optional decompression. Nothing if any stage rejects its input.
pub open spec fn core_decrypt_spec(
    input: Seq<u8>,
    password: Seq<u8>,
    mode: Mode,
    codec: Encoding,
    compress: bool,
) -> Option<Seq<u8>> {
    match decode_stage_spec(codec, input) {
        None => None,
        Some(b) => match crypt_decrypt_spec(b, password, mode) {
            None => None,
            Some(d) => if compress {
                decompress_unwrap_spec(d)
            } else {
                Some(d)
            },
        },
    }
}

/// The pipeline round trip: for every plaintext, password, variant, encoding,
/// and compression choice, decrypting an encryption (made with any salt)
/// yields back exactly the plaintext. The premises name what the outside
/// primitives provide: the AES block-cipher property, the PBKDF2 output
/// length, and the LZ4 and Base64 round trips where those stages are used.
pub proof fn lemma_core_round_trip(
    p: Seq<u8>,
    password: Seq<u8>,
    mode: Mode,
    codec: Encoding,
    compress: bool,
    salt: Seq<u8>,
)
    requires
        aes_cipher_good(mode),
        pbkdf2_len_ok(),
        compress ==> lz4_round_trip_ok(),
        codec is B64 ==> b64_round_trip_ok(),
        salt.len() <= u64::MAX,
        p.len() <= usize::MAX,
    ensures
        core_decrypt_spec(
            core_encrypt_spec(p, password, mode, codec, compress, salt),
            password,
            mode,
            codec,
            compress,
        ) == Some(p),
{
    let pre = if compress {
        compress_wrap_spec(p)
    } else {
        p
    };
    let key = pbkdf2_sha256(password, salt, PBKDF2_ROUNDS, mode.spec_key_size());
    let ct = cipher_encrypt_spec(mode, pre, key);
    let wrapped = encode_spec(MetaView::Salt(salt), ct);
    let out = core_encrypt_spec(p, password, mode, codec, compress, salt);

    // The outermost text encoding decodes back to the wrapped container.
    match codec {
        Encoding::Plain => {},
        Encoding::Hex => lemma_hex_round_trip(wrapped),
        Encoding::B64 => {},
    }
    assert(decode_stage_spec(codec, out) == Some(wrapped));

    // The salt container decodes back to the salt and the cipher output.
    crate::wrapper::lemma_container_round_trip(MetaView::Salt(salt), ct);

    // The cipher stage round-trips under the re-derived key.
    assert(key.len() == mode.spec_key_size());
    lemma_cipher_round_trip(mode, pre, key);
    assert(crypt_decrypt_spec(wrapped, password, mode) == Some(pre));

    // The compression stage round-trips at the recorded original length.
    if compress {
        crate::wrapper::lemma_container_round_trip(
            MetaView::OriginalLength(p.len() as u64),
            lz4_of(p),
        );
        assert((p.len() as u64) as nat == p.len());
        assert(lz4_dec(lz4_of(p)) == Some(p));
        assert(decompress_unwrap_spec(pre) == Some(p));
    }
}

// ---------------------------------------------------------------------------
// Executable pipeline
// ---------------------------------------------------------------------------
/// Derives a key from `key` and the given salt and encrypts `bytes`, wrapping
/// salt and ciphertext into one container. This is the whole crypto stage as
/// an exact function of its arguments; [`crypt`] supplies a fresh random salt
/// when encrypting.
pub fn rfc_encrypt_with_salt(bytes: Vec<u8>, key: Vec<u8>, mode: Mode, salt: Vec<u8>) -> (r: Vec<
    u8,
>)
    ensures
        r@ == crypt_encrypt_spec(bytes@, key@, mode, salt@),
        aes_cipher_good(mode) && pbkdf2_len_ok(),
{
    let ks = mode.key_size();
    let derived = pbkdf2_key(&key, &salt, ks);
    proof {
        assert(pad_key(derived@, mode.spec_key_size()) =~= derived@);
    }
    let ciphertext = match mode {
        Mode::Aes128 => CipherAes128::encrypt(bytes, derived),
        Mode::Aes256 => CipherAes256::encrypt(bytes, derived),
    };
    let ciphertext = match ciphertext {
        Ok(c) => c,
        Err(_) => {
            proof {
                assert(false);
            }
            vstd::pervasive::unreached()
        },
    };
    WrapperBytes(Metadata::Salt(salt), ciphertext).encode()
}

/// Expands `key` with a fresh random salt and encrypts `bytes` under the
/// derived key; the salt is persisted inside the returned container. Fails
/// only if the randomness source does.
fn rfc_encrypt(bytes: Vec<u8>, key: Vec<u8>, mode: Mode) -> (r: Result<Vec<u8>, RfcError>)
    ensures
        match r {
            Ok(c) => exists|salt: Seq<u8>|
                #![auto]
                salt.len() == SALT_LEN && c@ == crypt_encrypt_spec(bytes@, key@, mode, salt),
            Err(e) => e matches RfcError::Encryption(_),
        },
        r is Ok ==> aes_cipher_good(mode) && pbkdf2_len_ok(),
{
    let salt = generate_salt()?;
    let ghost salt_view = salt@;
    let out = rfc_encrypt_with_salt(bytes, key, mode, salt);
    proof {
        assert(salt_view.len() == SALT_LEN && out@ == crypt_encrypt_spec(
            bytes@,
            key@,
            mode,
            salt_view,
        ));
    }
    Ok(out)
}

/// Extracts the salt and ciphertext from `bytes`, re-derives the key, and
/// decrypts; rejects malformed containers and ciphertexts.
fn rfc_decrypt(bytes: Vec<u8>, key: Vec<u8>, mode: Mode) -> (r: Result<Vec<u8>, RfcError>)
    ensures
        match r {
            Ok(v) => crypt_decrypt_spec(bytes@, key@, mode) == Some(v@),
            Err(e) => crypt_decrypt_spec(bytes@, key@, mode) is None && (e matches
                RfcError::Deserialize(_) || e matches RfcError::Decryption(_)),
        },
{
    let decoded = WrapperBytes::decode(&bytes)?;
    let salt = match decoded.0 {
        Metadata::Salt(s) => s,
        _ => {
            return Err(RfcError::Deserialize(String::from_str("container does not carry a salt")));
        },
    };
    let ciphertext = decoded.1;
    let ks = mode.key_size();
    let derived = pbkdf2_key(&key, &salt, ks);
    proof {
        assert(pad_key(derived@, mode.spec_key_size()) =~= derived@);
    }
    match mode {
        Mode::Aes128 => CipherAes128::decrypt(ciphertext, derived),
        Mode::Aes256 => CipherAes256::decrypt(ciphertext, derived),
    }
}

/// Derives a key from `key` (and a fresh salt when encrypting) and runs the
/// crypto stage in the requested direction.
pub fn crypt(decrypt: bool, bytes: Vec<u8>, key: Vec<u8>, mode: Mode) -> (r: Result<
    Vec<u8>,
    RfcError,
>)
    ensures
        decrypt ==> match r {
            Ok(v) => crypt_decrypt_spec(bytes@, key@, mode) == Some(v@),
            Err(e) => crypt_decrypt_spec(bytes@, key@, mode) is None && (e matches
                RfcError::Deserialize(_) || e matches RfcError::Decryption(_)),
        },
        !decrypt ==> match r {
            Ok(c) => exists|salt: Seq<u8>|
                #![auto]
                salt.len() == SALT_LEN && c@ == crypt_encrypt_spec(bytes@, key@, mode, salt),
            Err(e) => e matches RfcError::Encryption(_),
        },
        !decrypt && r is Ok ==> aes_cipher_good(mode) && pbkdf2_len_ok(),
{
    if decrypt {
        rfc_decrypt(bytes, key, mode)
    } else {
        rfc_encrypt(bytes, key, mode)
    }
}

/// Compresses the input and wraps the compressed bytes with the original
/// length, so decompression can size its output exactly.
fn compress_read(input: Vec<u8>) -> (r: Result<Vec<u8>, RfcError>)
    ensures
        r matches Ok(v) && v@ == compress_wrap_spec(input@),
        lz4_round_trip_ok(),
{
    let compressed = compress_bytes(&input);
    Ok(WrapperBytes(Metadata::OriginalLength(input.len() as u64), compressed).encode())
}

/// Unwraps the original length and decompresses the payload at it: framing
/// failures are `Deserialize` errors, a rejected stream is `Decompression`.
fn decompress_buf(bytes: Vec<u8>) -> (r: Result<Vec<u8>, RfcError>)
    ensures
        match r {
            Ok(v) => decompress_unwrap_spec(bytes@) == Some(v@),
            Err(e) => decompress_unwrap_spec(bytes@) is None && (e matches RfcError::Deserialize(_)
                || e matches RfcError::Decompression),
        },
{
    let decoded = WrapperBytes::decode(&bytes)?;
    let n = match decoded.0 {
        Metadata::OriginalLength(n) => n,
        _ => {
            return Err(
                RfcError::Deserialize(
                    String::from_str("container does not carry an original length"),
                ),
            );
        },
    };
    if n > (usize::MAX as u64) {
        return Err(RfcError::Decompression);
    }
    decompress_to_bytes_sized(&decoded.1, n as usize)
}

/// Decodes input text according to the chosen codec; rejected text is an
/// `Encoding` error.
fn decode_read(codec: Encoding, input: Vec<u8>) -> (r: Result<Vec<u8>, RfcError>)
    ensures
        match r {
            Ok(v) => decode_stage_spec(codec, input@) == Some(v@),
            Err(e) => decode_stage_spec(codec, input@) is None && e matches RfcError::Encoding(_),
        },
{
    match codec {
        Encoding::Plain => Ok(input),
        Encoding::Hex => crate::encoding::decode_hex(&input),
        Encoding::B64 => decode_b64_buf(&input),
    }
}

/// Encodes output bytes according to the chosen codec.
fn encode_buf(codec: Encoding, bytes: Vec<u8>) -> (r: Result<Vec<u8>, RfcError>)
    ensures
        r matches Ok(v) && v@ == encode_stage_spec(codec, bytes@),
        codec is B64 ==> b64_round_trip_ok(),
{
    match codec {
        Encoding::Plain => Ok(bytes),
        Encoding::Hex => Ok(crate::encoding::encode_hex(&bytes)),
        Encoding::B64 => Ok(encode_b64_buf(&bytes)),
    }
}

/// Pre-processes the input: text-decodes it when decrypting, compresses and
/// wraps it when encrypting with compression, and passes it through
/// otherwise.
fn pre_process(decrypt: bool, input: Vec<u8>, codec: Encoding, compress: bool) -> (r: Result<
    Vec<u8>,
    RfcError,
>)
    ensures
        decrypt ==> match r {
            Ok(v) => decode_stage_spec(codec, input@) == Some(v@),
            Err(e) => decode_stage_spec(codec, input@) is None && e matches RfcError::Encoding(_),
        },
        !decrypt ==> match r {
            Ok(v) => if compress {
                v@ == compress_wrap_spec(input@) && lz4_round_trip_ok()
            } else {
                v@ == input@
            },
            Err(_) => false,
        },
{
    if decrypt {
        decode_read(codec, input)
    } else if compress {
        compress_read(input)
    } else {
        Ok(input)
    }
}

/// Post-processes the crypto stage's output: decompresses it when decrypting
/// with compression, text-encodes it when encrypting, and passes it through
/// otherwise.
fn post_process_buf(decrypt: bool, bytes: Vec<u8>, codec: Encoding, compress: bool) -> (r: Result<
    Vec<u8>,
    RfcError,
>)
    ensures
        decrypt ==> match r {
            Ok(v) => if compress {
                decompress_unwrap_spec(bytes@) == Some(v@)
            } else {
                v@ == bytes@
            },
            Err(e) => compress && decompress_unwrap_spec(bytes@) is None && (e matches
                RfcError::Deserialize(_) || e matches RfcError::Decompression),
        },
        !decrypt ==> match r {
            Ok(v) => v@ == encode_stage_spec(codec, bytes@) && (codec is B64
                ==> b64_round_trip_ok()),
            Err(_) => false,
        },
{
    if decrypt {
        if compress {
            decompress_buf(bytes)
        } else {
            Ok(bytes)
        }
    } else {
        encode_buf(codec, bytes)
    }
}

/// Runs the whole pipeline over an in-memory buffer and returns the result.
///
/// Encrypting: optional compression, the crypto stage under a fresh salt,
/// then the chosen text encoding; the result is pinned, up to the random
/// salt, to [`core_encrypt_spec`]. Decrypting: the exact mirror, pinned to
/// [`core_decrypt_spec`]; it returns a value exactly when that specification
/// does. `input_len` is only a sizing hint and does not affect the result.
pub fn core_buf(
    decrypt: bool,
    key: Vec<u8>,
    mode: Mode,
    input: Vec<u8>,
    input_len: Option<usize>,
    codec: Encoding,
    compress: bool,
) -> (r: Result<Vec<u8>, RfcError>)
    ensures
        decrypt ==> match r {
            Ok(v) => core_decrypt_spec(input@, key@, mode, codec, compress) == Some(v@),
            Err(e) => core_decrypt_spec(input@, key@, mode, codec, compress) is None && (e matches
                RfcError::Encoding(_) || e matches RfcError::Deserialize(_) || e matches
                RfcError::Decryption(_) || e matches RfcError::Decompression),
        },
        !decrypt ==> match r {
            Ok(c) => exists|salt: Seq<u8>|
                #![auto]
                salt.len() == SALT_LEN && c@ == core_encrypt_spec(
                    input@,
                    key@,
                    mode,
                    codec,
                    compress,
                    salt,
                ),
            Err(e) => e matches RfcError::Encryption(_),
        },
        !decrypt && r is Ok ==> aes_cipher_good(mode) && pbkdf2_len_ok() && (compress
            ==> lz4_round_trip_ok()) && (codec is B64 ==> b64_round_trip_ok()),
{
    let ghost input_view = input@;
    let bytes = pre_process(decrypt, input, codec, compress)?;
    let bytes = crypt(decrypt, bytes, key, mode)?;
    let ghost crypted = bytes@;
    let out = post_process_buf(decrypt, bytes, codec, compress);
    proof {
        if !decrypt && out is Ok {
            let salt = choose|salt: Seq<u8>|
                #![auto]
                salt.len() == SALT_LEN && crypted == crypt_encrypt_spec(
                    if compress {
                        compress_wrap_spec(input_view)
                    } else {
                        input_view
                    },
                    key@,
                    mode,
                    salt,
                );
            assert(out.unwrap()@ == core_encrypt_spec(
                input_view,
                key@,
                mode,
                codec,
                compress,
                salt,
            ));
        }
    }
    out
}

/// Runs the whole pipeline over an in-memory buffer, appends the result to
/// `output`, and returns how many bytes were written. On failure `output` is
/// left untouched.
pub fn core_write(
    decrypt: bool,
    key: Vec<u8>,
    mode: Mode,
    input: Vec<u8>,
    input_len: Option<usize>,
    output: &mut Vec<u8>,
    codec: Encoding,
    compress: bool,
) -> (r: Result<usize, RfcError>)
    ensures
        match r {
            Ok(n) => ({
                let written = final(output)@.skip(old(output)@.len() as int);
                &&& final(output)@ == old(output)@ + written
                &&& n == written.len()
                &&& (decrypt ==> core_decrypt_spec(input@, key@, mode, codec, compress) == Some(
                    written,
                ))
                &&& (!decrypt ==> exists|salt: Seq<u8>|
                    #![auto]
                    salt.len() == SALT_LEN && written == core_encrypt_spec(
                        input@,
                        key@,
                        mode,
                        codec,
                        compress,
                        salt,
                    ))
            }),
            Err(e) => {
                &&& final(output)@ == old(output)@
                &&& decrypt ==> core_decrypt_spec(input@, key@, mode, codec, compress) is None && (
                e matches RfcError::Encoding(_) || e matches RfcError::Deserialize(_) || e matches
                    RfcError::Decryption(_) || e matches RfcError::Decompression)
                &&& !decrypt ==> e matches RfcError::Encryption(_)
            },
        },
{
    let out = core_buf(decrypt, key, mode, input, input_len, codec, compress)?;
    let n = out.len();
    crate::buf::push_bytes(output, &out);
    proof {
        assert(output@.skip(old(output)@.len() as int) =~= out@);
    }
    Ok(n)
}


} // verus!
