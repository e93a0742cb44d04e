//! The block cipher adapter: AES-128 and AES-256 over chunked blocks.
//!
//! Each 16-byte block is transformed independently by the AES permutation
//! from the `aes` crate — with no chaining mode and no integrity tag, so two
//! equal plaintext blocks under one key give two equal ciphertext blocks; a
//! future chained or authenticated mode would replace only this adapter. The
//! adapter zero-pads the input
//! via the chunker, records the padding count in a container beside the
//! ciphertext, and removes the padding again after decryption. A padding
//! count of zero means no padding block was appended, so nothing is removed.

use vstd::prelude::*;

use crate::buf::{
    blocks_to_bytes, bytes_chunks, flatten_bytes, lemma_zero_pad_len, zero_pad,
};
use crate::error::RfcError;
use crate::wrapper::{encode_spec, MetaView, Metadata, WrapperBytes};
use crate::Mode;

verus! {

/// The AES block size in bytes.
pub const AES_BLOCKSIZE: usize = 16;

// ---------------------------------------------------------------------------
// The abstract block permutation, named per variant
// ---------------------------------------------------------------------------
/// What AES-128 block encryption returns for a key and a 16-byte block.
pub uninterp spec fn aes128_enc_block(key: Seq<u8>, block: Seq<u8>) -> Seq<u8>;

/// What AES-128 block decryption returns for a key and a 16-byte block.
pub uninterp spec fn aes128_dec_block(key: Seq<u8>, block: Seq<u8>) -> Seq<u8>;

/// What AES-256 block encryption returns for a key and a 16-byte block.
pub uninterp spec fn aes256_enc_block(key: Seq<u8>, block: Seq<u8>) -> Seq<u8>;

/// What AES-256 block decryption returns for a key and a 16-byte block.
pub uninterp spec fn aes256_dec_block(key: Seq<u8>, block: Seq<u8>) -> Seq<u8>;

/// The block encryption of the chosen variant.
pub open spec fn enc_block(mode: Mode, key: Seq<u8>, block: Seq<u8>) -> Seq<u8> {
    match mode {
        Mode::Aes128 => aes128_enc_block(key, block),
        Mode::Aes256 => aes256_enc_block(key, block),
    }
}

/// The block decryption of the chosen variant.
pub open spec fn dec_block(mode: Mode, key: Seq<u8>, block: Seq<u8>) -> Seq<u8> {
    match mode {
        Mode::Aes128 => aes128_dec_block(key, block),
        Mode::Aes256 => aes256_dec_block(key, block),
    }
}

/// The facts the AES implementation provides for a variant: blocks keep their
/// size and decryption inverts encryption under the same key. The trusted
/// wrappers below carry this predicate with every result.
pub open spec fn aes_cipher_good(mode: Mode) -> bool {
    &&& forall|k: Seq<u8>, b: Seq<u8>|
        k.len() == mode.spec_key_size() && b.len() == 16 ==> (#[trigger] enc_block(
            mode,
            k,
            b,
        )).len() == 16
    &&& forall|k: Seq<u8>, b: Seq<u8>|
        k.len() == mode.spec_key_size() && b.len() == 16 ==> (#[trigger] dec_block(
            mode,
            k,
            b,
        )).len() == 16
    &&& forall|k: Seq<u8>, b: Seq<u8>|
        k.len() == mode.spec_key_size() && b.len() == 16 ==> dec_block(
            mode,
            k,
            #[trigger] enc_block(mode, k, b),
        ) == b
}

// ---------------------------------------------------------------------------
// Trusted wrappers over the aes crate
// ---------------------------------------------------------------------------
/// What the trusted block-encryption wrappers guarantee of their result: one
/// output block per input block, each the variant's block encryption of its
/// input, with [`aes_cipher_good`] holding of the variant.
pub open spec fn blocks_encrypted_post(
    r: Seq<Vec<u8>>,
    blocks: Seq<Vec<u8>>,
    mode: Mode,
    key: Seq<u8>,
) -> bool {
    &&& r.len() == blocks.len()
    &&& forall|i: int| 0 <= i < r.len() ==> (#[trigger] r[i])@ == enc_block(mode, key, blocks[i]@)
    &&& aes_cipher_good(mode)
}

/// The decryption counterpart of [`blocks_encrypted_post`].
pub open spec fn blocks_decrypted_post(
    r: Seq<Vec<u8>>,
    blocks: Seq<Vec<u8>>,
    mode: Mode,
    key: Seq<u8>,
) -> bool {
    &&& r.len() == blocks.len()
    &&& forall|i: int| 0 <= i < r.len() ==> (#[trigger] r[i])@ == dec_block(mode, key, blocks[i]@)
    &&& aes_cipher_good(mode)
}

/// Relies on `aes::Aes128` with `cipher::{KeyInit, BlockEncrypt}`: the AES-128
/// block permutation, applied independently to each 16-byte block. AES-128 is
/// a family of permutations of 16-byte blocks, one per 16-byte key, which
/// `BlockDecrypt` inverts — that is [`aes_cipher_good`], carried with the
/// result.
#[verifier::external_body]
fn aes128_encrypt_blocks(key: &Vec<u8>, blocks: &Vec<Vec<u8>>) -> (r: Vec<Vec<u8>>)
    requires
        key@.len() == 16,
        forall|i: int| 0 <= i < blocks@.len() ==> (#[trigger] blocks@[i])@.len() == 16,
    ensures
        forall|i: int|
            0 <= i < r@.len() ==> (#[trigger] r@[i])@ == aes128_enc_block(key@, blocks@[i]@),
        blocks_encrypted_post(r@, blocks@, Mode::Aes128, key@),
{
    let cipher = <aes::Aes128 as aes::cipher::KeyInit>::new_from_slice(key.as_slice()).unwrap();
    let mut raw: Vec<aes::Block> =
        blocks.iter().map(|b| aes::Block::clone_from_slice(b.as_slice())).collect();
    aes::cipher::BlockEncrypt::encrypt_blocks(&cipher, &mut raw);
    raw.iter().map(|b| b.as_slice().to_vec()).collect()
}

/// Relies on `aes::Aes128` with `cipher::{KeyInit, BlockDecrypt}`: the inverse
/// AES-128 block permutation, applied independently to each 16-byte block.
#[verifier::external_body]
fn aes128_decrypt_blocks(key: &Vec<u8>, blocks: &Vec<Vec<u8>>) -> (r: Vec<Vec<u8>>)
    requires
        key@.len() == 16,
        forall|i: int| 0 <= i < blocks@.len() ==> (#[trigger] blocks@[i])@.len() == 16,
    ensures
        forall|i: int|
            0 <= i < r@.len() ==> (#[trigger] r@[i])@ == aes128_dec_block(key@, blocks@[i]@),
        blocks_decrypted_post(r@, blocks@, Mode::Aes128, key@),
{
    let cipher = <aes::Aes128 as aes::cipher::KeyInit>::new_from_slice(key.as_slice()).unwrap();
    let mut raw: Vec<aes::Block> =
        blocks.iter().map(|b| aes::Block::clone_from_slice(b.as_slice())).collect();
    aes::cipher::BlockDecrypt::decrypt_blocks(&cipher, &mut raw);
    raw.iter().map(|b| b.as_slice().to_vec()).collect()
}

/// Relies on `aes::Aes256` with `cipher::{KeyInit, BlockEncrypt}`: the AES-256
/// block permutation, applied independently to each 16-byte block. AES-256 is
/// a family of permutations of 16-byte blocks, one per 32-byte key, which
/// `BlockDecrypt` inverts — that is [`aes_cipher_good`], carried with the
/// result.
#[verifier::external_body]
fn aes256_encrypt_blocks(key: &Vec<u8>, blocks: &Vec<Vec<u8>>) -> (r: Vec<Vec<u8>>)
    requires
        key@.len() == 32,
        forall|i: int| 0 <= i < blocks@.len() ==> (#[trigger] blocks@[i])@.len() == 16,
    ensures
        forall|i: int|
            0 <= i < r@.len() ==> (#[trigger] r@[i])@ == aes256_enc_block(key@, blocks@[i]@),
        blocks_encrypted_post(r@, blocks@, Mode::Aes256, key@),
{
    let cipher = <aes::Aes256 as aes::cipher::KeyInit>::new_from_slice(key.as_slice()).unwrap();
    let mut raw: Vec<aes::Block> =
        blocks.iter().map(|b| aes::Block::clone_from_slice(b.as_slice())).collect();
    aes::cipher::BlockEncrypt::encrypt_blocks(&cipher, &mut raw);
    raw.iter().map(|b| b.as_slice().to_vec()).collect()
}

/// Relies on `aes::Aes256` with `cipher::{KeyInit, BlockDecrypt}`: the inverse
/// AES-256 block permutation, applied independently to each 16-byte block.
#[verifier::external_body]
fn aes256_decrypt_blocks(key: &Vec<u8>, blocks: &Vec<Vec<u8>>) -> (r: Vec<Vec<u8>>)
    requires
        key@.len() == 32,
        forall|i: int| 0 <= i < blocks@.len() ==> (#[trigger] blocks@[i])@.len() == 16,
    ensures
        forall|i: int|
            0 <= i < r@.len() ==> (#[trigger] r@[i])@ == aes256_dec_block(key@, blocks@[i]@),
        blocks_decrypted_post(r@, blocks@, Mode::Aes256, key@),
{
    let cipher = <aes::Aes256 as aes::cipher::KeyInit>::new_from_slice(key.as_slice()).unwrap();
    let mut raw: Vec<aes::Block> =
        blocks.iter().map(|b| aes::Block::clone_from_slice(b.as_slice())).collect();
    aes::cipher::BlockDecrypt::decrypt_blocks(&cipher, &mut raw);
    raw.iter().map(|b| b.as_slice().to_vec()).collect()
}

// ---------------------------------------------------------------------------
// The cipher over whole buffers, at the specification level
// ---------------------------------------------------------------------------
/// Block-by-block encryption of a buffer whose length is a whole number of
/// blocks (any trailing partial block is ignored).
pub open spec fn enc_stream(mode: Mode, key: Seq<u8>, data: Seq<u8>) -> Seq<u8>
    decreases data.len(),
{
    if data.len() < 16 {
        Seq::empty()
    } else {
        enc_block(mode, key, data.take(16)) + enc_stream(mode, key, data.skip(16))
    }
}

/// Block-by-block decryption, the mirror of [`enc_stream`].
pub open spec fn dec_stream(mode: Mode, key: Seq<u8>, data: Seq<u8>) -> Seq<u8>
    decreases data.len(),
{
    if data.len() < 16 {
        Seq::empty()
    } else {
        dec_block(mode, key, data.take(16)) + dec_stream(mode, key, data.skip(16))
    }
}

/// `key` zero-padded on the right to `n` bytes.
pub open spec fn pad_key(key: Seq<u8>, n: nat) -> Seq<u8> {
    key + Seq::new((n - key.len()) as nat, |i: int| 0u8)
}

/// Removing the padding: with a zero count the buffer is already exact;
/// otherwise the final block contributed only its first `extra` bytes.
pub open spec fn unpad(p: Seq<u8>, extra: nat) -> Seq<u8> {
    if extra == 0 {
        p
    } else {
        p.take(p.len() - 16 + extra)
    }
}

/// True of input that at least frames as a padding-count container. The
/// adapter reports a `Deserialize` error where this fails (no container, or
/// one carrying the wrong metadata kind) and a `Decryption` error where the
/// framing holds but the ciphertext or the count is implausible.
pub open spec fn cipher_decrypt_frames(container: Seq<u8>) -> bool {
    match crate::wrapper::decode_spec(container) {
        Some((MetaView::PaddingCount(_), _)) => true,
        _ => false,
    }
}

/// The complete output of the cipher adapter: the encrypted blocks wrapped in
/// a container that records the padding count.
pub open spec fn cipher_encrypt_spec(mode: Mode, bytes: Seq<u8>, key: Seq<u8>) -> Seq<u8> {
    encode_spec(
        MetaView::PaddingCount((bytes.len() % 16) as u64),
        enc_stream(mode, key, zero_pad(bytes, 16)),
    )
}

/// What the cipher adapter recovers from a container: the decrypted,
/// unpadded plaintext, or nothing if the container is malformed, carries the
/// wrong metadata kind, or frames a ciphertext that is not a whole number of
/// blocks with a plausible padding count.
pub open spec fn cipher_decrypt_spec(mode: Mode, container: Seq<u8>, key: Seq<u8>) -> Option<
    Seq<u8>,
> {
    match crate::wrapper::decode_spec(container) {
        Some((MetaView::PaddingCount(extra), ct)) => {
            if ct.len() % 16 == 0 && (extra == 0 || (0 < extra < 16 && ct.len() >= 16)) {
                Some(unpad(dec_stream(mode, key, ct), extra as nat))
            } else {
                None
            }
        },
        _ => None,
    }
}

/// Encrypting a whole number of blocks keeps the length.
pub proof fn lemma_enc_stream_len(mode: Mode, key: Seq<u8>, data: Seq<u8>)
    requires
        aes_cipher_good(mode),
        key.len() == mode.spec_key_size(),
        data.len() % 16 == 0,
    ensures
        enc_stream(mode, key, data).len() == data.len(),
    decreases data.len(),
{
    if data.len() >= 16 {
        assert(data.skip(16).len() % 16 == 0);
        lemma_enc_stream_len(mode, key, data.skip(16));
        assert(data.take(16).len() == 16);
    }
}

/// Decrypting a whole number of blocks keeps the length.
pub proof fn lemma_dec_stream_len(mode: Mode, key: Seq<u8>, data: Seq<u8>)
    requires
        aes_cipher_good(mode),
        key.len() == mode.spec_key_size(),
        data.len() % 16 == 0,
    ensures
        dec_stream(mode, key, data).len() == data.len(),
    decreases data.len(),
{
    if data.len() >= 16 {
        assert(data.skip(16).len() % 16 == 0);
        lemma_dec_stream_len(mode, key, data.skip(16));
    }
}

/// Decrypting an encrypted stream of whole blocks gives back the stream.
pub proof fn lemma_dec_enc_stream(mode: Mode, key: Seq<u8>, data: Seq<u8>)
    requires
        aes_cipher_good(mode),
        key.len() == mode.spec_key_size(),
        data.len() % 16 == 0,
    ensures
        dec_stream(mode, key, enc_stream(mode, key, data)) == data,
    decreases data.len(),
{
    if data.len() < 16 {
        assert(dec_stream(mode, key, enc_stream(mode, key, data)) =~= data);
    } else {
        let head = data.take(16);
        let tail = data.skip(16);
        assert(tail.len() % 16 == 0);
        lemma_dec_enc_stream(mode, key, tail);
        lemma_enc_stream_len(mode, key, tail);
        let e = enc_stream(mode, key, data);
        assert(enc_block(mode, key, head).len() == 16);
        assert(e.take(16) =~= enc_block(mode, key, head));
        assert(e.skip(16) =~= enc_stream(mode, key, tail));
        assert(dec_block(mode, key, enc_block(mode, key, head)) == head);
        assert(dec_stream(mode, key, e) =~= data);
    }
}

/// A sequence of blocks that are, in order, the block encryptions of the
/// 16-byte windows of `data` flattens to the encrypted stream of `data`.
pub proof fn lemma_enc_blocks_flatten(mode: Mode, key: Seq<u8>, data: Seq<u8>, ebs: Seq<Seq<u8>>)
    requires
        data.len() == ebs.len() * 16,
        forall|i: int|
            0 <= i < ebs.len() ==> ebs[i] == enc_block(
                mode,
                key,
                data.subrange(i * 16, i * 16 + 16),
            ),
    ensures
        flatten_bytes(ebs) == enc_stream(mode, key, data),
    decreases ebs.len(),
{
    if ebs.len() == 0 {
        assert(flatten_bytes(ebs) =~= enc_stream(mode, key, data));
    } else {
        let tail = ebs.drop_first();
        let rest = data.skip(16);
        assert(ebs.len() * 16 == tail.len() * 16 + 16) by (nonlinear_arith)
            requires
                ebs.len() == tail.len() + 1,
        ;
        assert forall|i: int| 0 <= i < tail.len() implies tail[i] == enc_block(
            mode,
            key,
            rest.subrange(i * 16, i * 16 + 16),
        ) by {
            assert(tail[i] == ebs[i + 1]);
            assert((i + 1) * 16 == i * 16 + 16) by (nonlinear_arith);
            assert(0 <= i * 16 && i * 16 + 32 <= tail.len() * 16 + 16) by (nonlinear_arith)
                requires
                    0 <= i < tail.len(),
            ;
            assert(ebs[i + 1] == enc_block(
                mode,
                key,
                data.subrange(i * 16 + 16, i * 16 + 32),
            ));
            assert(data.subrange(i * 16 + 16, i * 16 + 32) =~= rest.subrange(i * 16, i * 16 + 16));
        }
        lemma_enc_blocks_flatten(mode, key, rest, tail);
        assert(ebs[0] == enc_block(mode, key, data.subrange(0, 16)));
        assert(data.subrange(0, 16) =~= data.take(16));
        assert(flatten_bytes(ebs) =~= enc_stream(mode, key, data));
    }
}

/// The decryption counterpart of [`lemma_enc_blocks_flatten`].
pub proof fn lemma_dec_blocks_flatten(mode: Mode, key: Seq<u8>, data: Seq<u8>, dbs: Seq<Seq<u8>>)
    requires
        data.len() == dbs.len() * 16,
        forall|i: int|
            0 <= i < dbs.len() ==> dbs[i] == dec_block(
                mode,
                key,
                data.subrange(i * 16, i * 16 + 16),
            ),
    ensures
        flatten_bytes(dbs) == dec_stream(mode, key, data),
    decreases dbs.len(),
{
    if dbs.len() == 0 {
        assert(flatten_bytes(dbs) =~= dec_stream(mode, key, data));
    } else {
        let tail = dbs.drop_first();
        let rest = data.skip(16);
        assert(dbs.len() * 16 == tail.len() * 16 + 16) by (nonlinear_arith)
            requires
                dbs.len() == tail.len() + 1,
        ;
        assert forall|i: int| 0 <= i < tail.len() implies tail[i] == dec_block(
            mode,
            key,
            rest.subrange(i * 16, i * 16 + 16),
        ) by {
            assert(tail[i] == dbs[i + 1]);
            assert((i + 1) * 16 == i * 16 + 16) by (nonlinear_arith);
            assert(0 <= i * 16 && i * 16 + 32 <= tail.len() * 16 + 16) by (nonlinear_arith)
                requires
                    0 <= i < tail.len(),
            ;
            assert(dbs[i + 1] == dec_block(
                mode,
                key,
                data.subrange(i * 16 + 16, i * 16 + 32),
            ));
            assert(data.subrange(i * 16 + 16, i * 16 + 32) =~= rest.subrange(i * 16, i * 16 + 16));
        }
        lemma_dec_blocks_flatten(mode, key, rest, tail);
        assert(dbs[0] == dec_block(mode, key, data.subrange(0, 16)));
        assert(data.subrange(0, 16) =~= data.take(16));
        assert(flatten_bytes(dbs) =~= dec_stream(mode, key, data));
    }
}

/// The adapter round trip: decrypting what the adapter encrypted, with the
/// same key, recovers the plaintext exactly — for every buffer, including the
/// empty one and exact multiples of the block size. The premise is the
/// block-cipher property that the AES implementation provides.
pub proof fn lemma_cipher_round_trip(mode: Mode, p: Seq<u8>, key: Seq<u8>)
    requires
        aes_cipher_good(mode),
        key.len() == mode.spec_key_size(),
    ensures
        cipher_decrypt_spec(mode, cipher_encrypt_spec(mode, p, key), key) == Some(p),
{
    lemma_zero_pad_len(p, 16);
    let padded = zero_pad(p, 16);
    let ct = enc_stream(mode, key, padded);
    let extra = p.len() % 16;
    lemma_enc_stream_len(mode, key, padded);
    crate::wrapper::lemma_container_round_trip(
        MetaView::PaddingCount(extra as u64),
        ct,
    );
    lemma_dec_enc_stream(mode, key, padded);
    if extra == 0 {
        assert(unpad(dec_stream(mode, key, ct), 0) == padded);
        assert(padded == p);
    } else {
        assert(padded.len() >= 16);
        assert(padded.len() == p.len() + 16 - extra);
        assert(unpad(dec_stream(mode, key, ct), extra as nat) =~= p);
    }
}

// ---------------------------------------------------------------------------
// Executable adapter
// ---------------------------------------------------------------------------
/// Zero-pads `key` on the right to exactly `key_size` bytes.
pub fn aes_key(key: &Vec<u8>, key_size: usize) -> (r: Vec<u8>)
    requires
        key@.len() <= key_size,
    ensures
        r@ == pad_key(key@, key_size as nat),
        r@.len() == key_size,
{
    let mut out = key.clone();
    proof {
        assert(out@ == key@);
    }
    let mut i: usize = key.len();
    while i < key_size
        invariant
            key@.len() <= i <= key_size,
            out@.len() == i,
            out@ == key@ + Seq::new((i - key@.len()) as nat, |j: int| 0u8),
        decreases key_size - i,
    {
        out.push(0u8);
        proof {
            assert(out@ =~= key@ + Seq::new((i + 1 - key@.len()) as nat, |j: int| 0u8));
        }
        i += 1;
    }
    proof {
        assert(out@ =~= pad_key(key@, key_size as nat));
    }
    out
}

/// Drops the zero padding from a decrypted buffer: with `extra == 0` the
/// buffer is returned whole, otherwise the final block keeps only its first
/// `extra` bytes.
pub fn truncate_padding(plaintext: Vec<u8>, extra: usize) -> (r: Vec<u8>)
    requires
        extra == 0 || (extra < 16 && plaintext@.len() >= 16),
    ensures
        r@ == unpad(plaintext@, extra as nat),
{
    let ghost orig = plaintext@;
    let mut plaintext = plaintext;
    if extra > 0 {
        let final_len = plaintext.len() - 16 + extra;
        plaintext.truncate(final_len);
        proof {
            assert(plaintext@ =~= unpad(orig, extra as nat));
        }
    }
    plaintext
}

/// Wraps a ciphertext and its padding count into an encoded container.
pub fn encode_encryption_output(ciphertext: Vec<u8>, extra: usize) -> (r: Vec<u8>)
    ensures
        r@ == encode_spec(MetaView::PaddingCount(extra as u64), ciphertext@),
{
    WrapperBytes(Metadata::PaddingCount(extra as u64), ciphertext).encode()
}

/// Shared encryption path of both variants: chunk, encrypt every block, wrap.
fn aes_encrypt_impl(mode: Mode, bytes: &Vec<u8>, key: &Vec<u8>) -> (r: Vec<u8>)
    requires
        key@.len() == mode.spec_key_size(),
    ensures
        r@ == cipher_encrypt_spec(mode, bytes@, key@),
        aes_cipher_good(mode),
{
    proof {
        lemma_zero_pad_len(bytes@, 16);
    }
    let ghost padded = zero_pad(bytes@, 16);
    let (blocks, extra) = bytes_chunks(bytes, AES_BLOCKSIZE);
    let eblocks = match mode {
        Mode::Aes128 => aes128_encrypt_blocks(key, &blocks),
        Mode::Aes256 => aes256_encrypt_blocks(key, &blocks),
    };
    let ciphertext = blocks_to_bytes(&eblocks);
    proof {
        let ebs = eblocks@.map_values(|b: Vec<u8>| b@);
        assert(padded.len() == ebs.len() * 16);
        assert forall|i: int| 0 <= i < ebs.len() implies ebs[i] == enc_block(
            mode,
            key@,
            padded.subrange(i * 16, i * 16 + 16),
        ) by {
            assert(eblocks@[i]@ == enc_block(mode, key@, blocks@[i]@));
            assert(blocks@[i]@ == padded.subrange(i * 16, (i + 1) * 16));
        }
        lemma_enc_blocks_flatten(mode, key@, padded, ebs);
    }
    encode_encryption_output(ciphertext, extra)
}

/// Shared decryption path of both variants: unwrap, check the framing,
/// decrypt every block, drop the padding.
fn aes_decrypt_impl(mode: Mode, bytes: &Vec<u8>, key: &Vec<u8>) -> (r: Result<Vec<u8>, RfcError>)
    requires
        key@.len() == mode.spec_key_size(),
    ensures
        match r {
            Ok(v) => cipher_decrypt_spec(mode, bytes@, key@) == Some(v@),
            Err(e) => cipher_decrypt_spec(mode, bytes@, key@) is None && (if cipher_decrypt_frames(
                bytes@,
            ) {
                e matches RfcError::Decryption(_)
            } else {
                e matches RfcError::Deserialize(_)
            }),
        },
{
    let decoded = WrapperBytes::decode(bytes)?;
    let extra64 = match &decoded.0 {
        Metadata::PaddingCount(e) => *e,
        _ => {
            return Err(
                RfcError::Deserialize(String::from_str("container does not carry a padding count")),
            );
        },
    };
    let ciphertext = decoded.1;
    if ciphertext.len() % AES_BLOCKSIZE != 0 {
        return Err(
            RfcError::Decryption(String::from_str("input not full AES blocks: got extra trailing")),
        );
    }
    if !(extra64 == 0 || (extra64 < 16 && ciphertext.len() >= 16)) {
        return Err(RfcError::Decryption(String::from_str("padding count out of range")));
    }
    let extra = extra64 as usize;
    let (blocks, _ct_extra) = bytes_chunks(&ciphertext, AES_BLOCKSIZE);
    let dblocks = match mode {
        Mode::Aes128 => aes128_decrypt_blocks(key, &blocks),
        Mode::Aes256 => aes256_decrypt_blocks(key, &blocks),
    };
    let plaintext = blocks_to_bytes(&dblocks);
    proof {
        lemma_zero_pad_len(ciphertext@, 16);
        assert(zero_pad(ciphertext@, 16) == ciphertext@);
        let dbs = dblocks@.map_values(|b: Vec<u8>| b@);
        assert(ciphertext@.len() == dbs.len() * 16);
        assert forall|i: int| 0 <= i < dbs.len() implies dbs[i] == dec_block(
            mode,
            key@,
            ciphertext@.subrange(i * 16, i * 16 + 16),
        ) by {
            assert(dblocks@[i]@ == dec_block(mode, key@, blocks@[i]@));
            assert(blocks@[i]@ == ciphertext@.subrange(i * 16, (i + 1) * 16));
        }
        lemma_dec_blocks_flatten(mode, key@, ciphertext@, dbs);
        lemma_dec_stream_len(mode, key@, ciphertext@);
    }
    Ok(truncate_padding(plaintext, extra))
}

/// The AES-128 adapter. Encryption wraps the padded, block-encrypted input
/// with its padding count; decryption inverts it exactly.
pub struct CipherAes128 {}

/// The AES-256 adapter, identical to [`CipherAes128`] but for the key size.
pub struct CipherAes256 {}

impl CipherAes128 {
    /// The key length in bytes this variant expects (shorter keys are
    /// zero-padded with trailing zeros).
    pub const KEY_SIZE: usize = 16;

    /// Encrypts `bytes` under `key`, returning the encoded container.
    pub fn encrypt(bytes: Vec<u8>, key: Vec<u8>) -> (r: Result<Vec<u8>, RfcError>)
        requires
            key@.len() <= 16,
        ensures
            r matches Ok(c) && c@ == cipher_encrypt_spec(Mode::Aes128, bytes@, pad_key(key@, 16)),
            aes_cipher_good(Mode::Aes128),
    {
        let k = aes_key(&key, 16);
        Ok(aes_encrypt_impl(Mode::Aes128, &bytes, &k))
    }

    /// Decrypts a container produced by [`CipherAes128::encrypt`] under the
    /// same key; rejects malformed framing.
    pub fn decrypt(bytes: Vec<u8>, key: Vec<u8>) -> (r: Result<Vec<u8>, RfcError>)
        requires
            key@.len() <= 16,
        ensures
            match r {
                Ok(v) => cipher_decrypt_spec(Mode::Aes128, bytes@, pad_key(key@, 16)) == Some(v@),
                Err(e) => cipher_decrypt_spec(Mode::Aes128, bytes@, pad_key(key@, 16)) is None
                    && (if cipher_decrypt_frames(bytes@) {
                    e matches RfcError::Decryption(_)
                } else {
                    e matches RfcError::Deserialize(_)
                }),
            },
    {
        let k = aes_key(&key, 16);
        aes_decrypt_impl(Mode::Aes128, &bytes, &k)
    }
}

impl CipherAes256 {
    /// The key length in bytes this variant expects (shorter keys are
    /// zero-padded with trailing zeros).
    pub const KEY_SIZE: usize = 32;

    /// Encrypts `bytes` under `key`, returning the encoded container.
    pub fn encrypt(bytes: Vec<u8>, key: Vec<u8>) -> (r: Result<Vec<u8>, RfcError>)
        requires
            key@.len() <= 32,
        ensures
            r matches Ok(c) && c@ == cipher_encrypt_spec(Mode::Aes256, bytes@, pad_key(key@, 32)),
            aes_cipher_good(Mode::Aes256),
    {
        let k = aes_key(&key, 32);
        Ok(aes_encrypt_impl(Mode::Aes256, &bytes, &k))
    }

    /// Decrypts a container produced by [`CipherAes256::encrypt`] under the
    /// same key; rejects malformed framing.
    pub fn decrypt(bytes: Vec<u8>, key: Vec<u8>) -> (r: Result<Vec<u8>, RfcError>)
        requires
            key@.len() <= 32,
        ensures
            match r {
                Ok(v) => cipher_decrypt_spec(Mode::Aes256, bytes@, pad_key(key@, 32)) == Some(v@),
                Err(e) => cipher_decrypt_spec(Mode::Aes256, bytes@, pad_key(key@, 32)) is None
                    && (if cipher_decrypt_frames(bytes@) {
                    e matches RfcError::Decryption(_)
                } else {
                    e matches RfcError::Deserialize(_)
                }),
            },
    {
        let k = aes_key(&key, 32);
        aes_decrypt_impl(Mode::Aes256, &bytes, &k)
    }
}

/// The raw AES-128 cipher: block encryption of the zero-padded input with no
/// container and no padding removal, so decryption of a padded buffer leaves
/// the zero bytes in place.
pub struct CipherRawAes128 {}

/// The raw AES-256 cipher: like [`CipherRawAes128`], but decryption insists
/// on whole blocks.
pub struct CipherRawAes256 {}

impl CipherRawAes128 {
    /// Encrypts the zero-padded input block by block, returning the raw
    /// ciphertext blocks and how many input bytes the last block held.
    pub fn encrypt(bytes: &Vec<u8>, key: &Vec<u8>) -> (r: Result<(Vec<u8>, usize), RfcError>)
        requires
            key@.len() <= 16,
        ensures
            r matches Ok(p) && p.0@ == enc_stream(
                Mode::Aes128,
                pad_key(key@, 16),
                zero_pad(bytes@, 16),
            ) && p.1 == bytes@.len() % 16,
            aes_cipher_good(Mode::Aes128),
    {
        let k = aes_key(key, 16);
        Ok(raw_crypt_impl(Mode::Aes128, false, bytes, &k))
    }

    /// Decrypts block by block without removing any padding; a partial final
    /// block is zero-padded before decryption, as encryption would pad it.
    pub fn decrypt(bytes: &Vec<u8>, key: &Vec<u8>) -> (r: Result<(Vec<u8>, usize), RfcError>)
        requires
            key@.len() <= 16,
        ensures
            r matches Ok(p) && p.0@ == dec_stream(
                Mode::Aes128,
                pad_key(key@, 16),
                zero_pad(bytes@, 16),
            ) && p.1 == bytes@.len() % 16,
            aes_cipher_good(Mode::Aes128),
    {
        let k = aes_key(key, 16);
        Ok(raw_crypt_impl(Mode::Aes128, true, bytes, &k))
    }
}

impl CipherRawAes256 {
    /// Encrypts the zero-padded input block by block, returning the raw
    /// ciphertext blocks and how many input bytes the last block held.
    pub fn encrypt(bytes: &Vec<u8>, key: &Vec<u8>) -> (r: Result<(Vec<u8>, usize), RfcError>)
        requires
            key@.len() <= 32,
        ensures
            r matches Ok(p) && p.0@ == enc_stream(
                Mode::Aes256,
                pad_key(key@, 32),
                zero_pad(bytes@, 16),
            ) && p.1 == bytes@.len() % 16,
            aes_cipher_good(Mode::Aes256),
    {
        let k = aes_key(key, 32);
        Ok(raw_crypt_impl(Mode::Aes256, false, bytes, &k))
    }

    /// Decrypts block by block without removing any padding, rejecting input
    /// that is not a whole number of blocks.
    pub fn decrypt(bytes: &Vec<u8>, key: &Vec<u8>) -> (r: Result<(Vec<u8>, usize), RfcError>)
        requires
            key@.len() <= 32,
        ensures
            match r {
                Ok(p) => bytes@.len() % 16 == 0 && p.0@ == dec_stream(
                    Mode::Aes256,
                    pad_key(key@, 32),
                    bytes@,
                ) && p.1 == 0 && aes_cipher_good(Mode::Aes256),
                Err(e) => bytes@.len() % 16 != 0 && e matches RfcError::Decryption(_),
            },
    {
        if bytes.len() % 16 != 0 {
            return Err(
                RfcError::Decryption(String::from_str("input not full AES blocks: got trail")),
            );
        }
        let k = aes_key(key, 32);
        let out = raw_crypt_impl(Mode::Aes256, true, bytes, &k);
        proof {
            assert(zero_pad(bytes@, 16) == bytes@);
        }
        Ok(out)
    }
}

/// Shared body of the raw ciphers: chunk, transform every block, flatten.
fn raw_crypt_impl(mode: Mode, decrypt: bool, bytes: &Vec<u8>, key: &Vec<u8>) -> (r: (Vec<u8>, usize))
    requires
        key@.len() == mode.spec_key_size(),
    ensures
        !decrypt ==> r.0@ == enc_stream(mode, key@, zero_pad(bytes@, 16)),
        decrypt ==> r.0@ == dec_stream(mode, key@, zero_pad(bytes@, 16)),
        r.1 == bytes@.len() % 16,
        aes_cipher_good(mode),
{
    proof {
        lemma_zero_pad_len(bytes@, 16);
    }
    let ghost padded = zero_pad(bytes@, 16);
    let (blocks, extra) = bytes_chunks(bytes, AES_BLOCKSIZE);
    let tblocks = match (mode, decrypt) {
        (Mode::Aes128, false) => aes128_encrypt_blocks(key, &blocks),
        (Mode::Aes128, true) => aes128_decrypt_blocks(key, &blocks),
        (Mode::Aes256, false) => aes256_encrypt_blocks(key, &blocks),
        (Mode::Aes256, true) => aes256_decrypt_blocks(key, &blocks),
    };
    let out = blocks_to_bytes(&tblocks);
    proof {
        let tbs = tblocks@.map_values(|b: Vec<u8>| b@);
        assert(padded.len() == tbs.len() * 16);
        if decrypt {
            assert forall|i: int| 0 <= i < tbs.len() implies tbs[i] == dec_block(
                mode,
                key@,
                padded.subrange(i * 16, i * 16 + 16),
            ) by {
                assert(tblocks@[i]@ == dec_block(mode, key@, blocks@[i]@));
                assert(blocks@[i]@ == padded.subrange(i * 16, (i + 1) * 16));
            }
            lemma_dec_blocks_flatten(mode, key@, padded, tbs);
        } else {
            assert forall|i: int| 0 <= i < tbs.len() implies tbs[i] == enc_block(
                mode,
                key@,
                padded.subrange(i * 16, i * 16 + 16),
            ) by {
                assert(tblocks@[i]@ == enc_block(mode, key@, blocks@[i]@));
                assert(blocks@[i]@ == padded.subrange(i * 16, (i + 1) * 16));
            }
            lemma_enc_blocks_flatten(mode, key@, padded, tbs);
        }
    }
    (out, extra)
}

} // verus!
