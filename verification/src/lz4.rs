//! The compression stage: LZ4 block compression via the `lz4_flex` crate.
//!
//! Compression and decompression are named abstractly as functions of the
//! byte stream alone. Decompression takes the expected uncompressed length,
//! which the pipeline stores beside the compressed bytes in a container; the
//! verified caller enforces that the output does not exceed it. The trusted
//! compressor carries the fact that decompressing its output gives the input
//! back.

use vstd::prelude::*;

use crate::error::RfcError;

verus! {

/// A compression-level choice as the command line carries it; `None` means
/// no compression was requested. The LZ4 block codec itself takes no level.
#[derive(Clone, Copy, Debug)]
pub struct Level(pub Option<i32>);

/// What LZ4 block compression produces for a byte buffer. Named abstractly:
/// the output is a pure function of the input bytes.
pub uninterp spec fn lz4_of(bytes: Seq<u8>) -> Seq<u8>;

/// What LZ4 block decompression recovers from a compressed buffer: the full
/// decompressed bytes of a well-formed block, nothing otherwise. The stream
/// itself determines its output, so this too is a function of the bytes
/// alone. Named abstractly beside [`lz4_of`].
pub uninterp spec fn lz4_dec(compressed: Seq<u8>) -> Option<Seq<u8>>;

/// Decompressing a compression gives the original: the lossless round trip
/// of the codec. The trusted compressor carries this fact; callers that
/// compressed something may rely on it.
pub open spec fn lz4_round_trip_ok() -> bool {
    forall|v: Seq<u8>| lz4_dec(#[trigger] lz4_of(v)) == Some(v)
}

/// What the trusted compressor guarantees of its result: it is the named
/// compression of the input, and it decompresses back to the input.
pub open spec fn is_lz4_compression(r: Seq<u8>, src: Seq<u8>) -> bool {
    &&& r == lz4_of(src)
    &&& lz4_dec(r) == Some(src)
    &&& lz4_round_trip_ok()
}

/// Relies on `lz4_flex::compress`: LZ4 block compression of all input bytes,
/// a pure function of the input, inverted by `lz4_flex::decompress`.
#[verifier::external_body]
pub fn compress_bytes(bytes: &Vec<u8>) -> (r: Vec<u8>)
    ensures
        r@ == lz4_of(bytes@),
        is_lz4_compression(r@, bytes@),
{
    lz4_flex::compress(bytes.as_slice())
}

/// Relies on `lz4_flex::decompress`: a returned buffer is always the whole
/// decompression of a well-formed block, never a truncation; malformed input
/// is rejected, as is output beyond the given bound (the bound is a capacity,
/// so output within it always succeeds, while output beyond it may or may
/// not — the verified caller re-checks the length).
#[verifier::external_body]
fn decompress_bytes(bytes: &Vec<u8>, expected_len: usize) -> (r: Result<Vec<u8>, RfcError>)
    ensures
        r matches Ok(v) ==> lz4_dec(bytes@) == Some(v@),
        r matches Err(e) ==> e matches RfcError::Decompression && !(lz4_dec(bytes@) matches Some(v)
            && v.len() <= expected_len),
{
    lz4_flex::decompress(bytes.as_slice(), expected_len).map_err(|_e| RfcError::Decompression)
}

/// Compresses a whole buffer to a fresh buffer.
pub fn compress_to_bytes_sized(bytes: &Vec<u8>) -> (r: Result<Vec<u8>, RfcError>)
    ensures
        r matches Ok(v) && is_lz4_compression(v@, bytes@),
{
    Ok(compress_bytes(bytes))
}

/// Decompresses a whole buffer, given the uncompressed length recorded at
/// compression time: returns the decompressed bytes exactly when the input is
/// a well-formed block whose decompression fits that length, and the
/// `Decompression` error otherwise.
pub fn decompress_to_bytes_sized(bytes: &Vec<u8>, expected_len: usize) -> (r: Result<
    Vec<u8>,
    RfcError,
>)
    ensures
        match r {
            Ok(v) => lz4_dec(bytes@) == Some(v@) && v@.len() <= expected_len,
            Err(e) => e matches RfcError::Decompression && !(lz4_dec(bytes@) matches Some(v)
                && v.len() <= expected_len),
        },
{
    let out = decompress_bytes(bytes, expected_len)?;
    if out.len() > expected_len {
        return Err(RfcError::Decompression);
    }
    Ok(out)
}

} // verus!
