//! The outermost text-encoding stage: raw bytes, lowercase hex, or Base64.
//!
//! Hex is implemented and verified here byte by byte. Base64 goes through the
//! `base64` crate behind trusted wrappers whose contracts name the encoding
//! as an abstract function and state that decoding inverts it.

use base64::Engine;
use vstd::prelude::*;

use crate::error::RfcError;

verus! {

/// Which text encoding the pipeline applies as its outermost stage.
#[derive(Copy, Clone, PartialEq, Eq, Structural, Debug)]
pub enum Encoding {
    Plain,
    Hex,
    B64,
}

// ---------------------------------------------------------------------------
// Hex
// ---------------------------------------------------------------------------
/// The lowercase hex character for a value below 16: `0-9` then `a-f`.
pub open spec fn hex_digit_char(v: u8) -> u8 {
    if v < 10 {
        (48 + v) as u8
    } else {
        (87 + v) as u8
    }
}

/// True of the bytes that can appear in lowercase hex output.
pub open spec fn is_lower_hex_char(c: u8) -> bool {
    (48 <= c <= 57) || (97 <= c <= 102)
}

/// Lowercase hex encoding: two characters per input byte, high nibble first.
pub open spec fn hex_encode_spec(b: Seq<u8>) -> Seq<u8>
    decreases b.len(),
{
    if b.len() == 0 {
        Seq::empty()
    } else {
        seq![hex_digit_char(b[0] / 16), hex_digit_char(b[0] % 16)] + hex_encode_spec(b.drop_first())
    }
}

/// The value of one hex character, upper or lower case, if it is one.
pub open spec fn hex_val(c: u8) -> Option<u8> {
    if 48 <= c <= 57 {
        Some((c - 48) as u8)
    } else if 97 <= c <= 102 {
        Some((c - 87) as u8)
    } else if 65 <= c <= 70 {
        Some((c - 55) as u8)
    } else {
        None
    }
}

/// Hex decoding: pairs of hex characters back to bytes; odd length or a
/// non-hex character yields nothing.
pub open spec fn hex_decode_spec(h: Seq<u8>) -> Option<Seq<u8>>
    decreases h.len(),
{
    if h.len() % 2 != 0 {
        None
    } else if h.len() == 0 {
        Some(Seq::empty())
    } else {
        match (hex_val(h[0]), hex_val(h[1])) {
            (Some(hi), Some(lo)) => match hex_decode_spec(h.skip(2)) {
                Some(rest) => Some(seq![(hi * 16 + lo) as u8] + rest),
                None => None,
            },
            _ => None,
        }
    }
}

/// Hex output doubles the length and contains only lowercase hex characters.
pub proof fn lemma_hex_encode_shape(b: Seq<u8>)
    ensures
        hex_encode_spec(b).len() == 2 * b.len(),
        forall|i: int|
            0 <= i < hex_encode_spec(b).len() ==> is_lower_hex_char(#[trigger] hex_encode_spec(b)[i]),
    decreases b.len(),
{
    if b.len() != 0 {
        lemma_hex_encode_shape(b.drop_first());
    }
}

/// Hex decoding inverts hex encoding on every byte buffer.
pub proof fn lemma_hex_round_trip(b: Seq<u8>)
    ensures
        hex_decode_spec(hex_encode_spec(b)) == Some(b),
    decreases b.len(),
{
    lemma_hex_encode_shape(b);
    let h = hex_encode_spec(b);
    if b.len() == 0 {
        assert(hex_decode_spec(h) =~= Some(Seq::<u8>::empty()));
        assert(Seq::<u8>::empty() =~= b);
    } else {
        lemma_hex_round_trip(b.drop_first());
        lemma_hex_encode_shape(b.drop_first());
        assert(h.skip(2) =~= hex_encode_spec(b.drop_first()));
        assert(hex_val(h[0]) == Some(b[0] / 16));
        assert(hex_val(h[1]) == Some(b[0] % 16));
        assert((b[0] / 16) * 16 + b[0] % 16 == b[0]) by (nonlinear_arith);
        let rest = hex_decode_spec(h.skip(2)).unwrap();
        assert(seq![b[0]] + rest =~= b);
    }
}

/// Appending one byte extends the hex encoding by its two characters.
proof fn lemma_hex_encode_push(b: Seq<u8>, x: u8)
    ensures
        hex_encode_spec(b.push(x)) == hex_encode_spec(b) + seq![
            hex_digit_char(x / 16),
            hex_digit_char(x % 16),
        ],
    decreases b.len(),
{
    if b.len() == 0 {
        assert(b.push(x)[0] == x);
        assert(b.push(x).drop_first() =~= Seq::<u8>::empty());
        assert(hex_encode_spec(Seq::<u8>::empty()) == Seq::<u8>::empty());
        assert(hex_encode_spec(b.push(x)) =~= hex_encode_spec(b) + seq![
            hex_digit_char(x / 16),
            hex_digit_char(x % 16),
        ]);
    } else {
        assert(b.push(x).drop_first() =~= b.drop_first().push(x));
        lemma_hex_encode_push(b.drop_first(), x);
        assert(b.push(x)[0] == b[0]);
        assert(hex_encode_spec(b.push(x)) =~= hex_encode_spec(b) + seq![
            hex_digit_char(x / 16),
            hex_digit_char(x % 16),
        ]);
    }
}

/// Encodes bytes as lowercase hex text: two characters per byte.
pub fn encode_hex(plain: &Vec<u8>) -> (r: Vec<u8>)
    ensures
        r@ == hex_encode_spec(plain@),
        r@.len() == 2 * plain@.len(),
        forall|i: int| 0 <= i < r@.len() ==> is_lower_hex_char(#[trigger] r@[i]),
{
    let mut out: Vec<u8> = Vec::new();
    let mut i: usize = 0;
    while i < plain.len()
        invariant
            i <= plain@.len(),
            out@ == hex_encode_spec(plain@.take(i as int)),
        decreases plain@.len() - i,
    {
        let x = plain[i];
        let hi = x / 16;
        let lo = x % 16;
        let c_hi = if hi < 10 {
            48 + hi
        } else {
            87 + hi
        };
        let c_lo = if lo < 10 {
            48 + lo
        } else {
            87 + lo
        };
        proof {
            lemma_hex_encode_push(plain@.take(i as int), x);
            assert(plain@.take(i as int).push(x) =~= plain@.take(i + 1int));
        }
        out.push(c_hi);
        out.push(c_lo);
        i += 1;
    }
    proof {
        assert(plain@.take(plain@.len() as int) =~= plain@);
        lemma_hex_encode_shape(plain@);
    }
    out
}

/// Splitting an even-length prefix off a hex string decodes the parts
/// independently.
proof fn lemma_hex_decode_append(a: Seq<u8>, b: Seq<u8>)
    requires
        a.len() % 2 == 0,
    ensures
        hex_decode_spec(a + b) == match (hex_decode_spec(a), hex_decode_spec(b)) {
            (Some(x), Some(y)) => Some(x + y),
            _ => None,
        },
    decreases a.len(),
{
    let whole = a + b;
    if a.len() == 0 {
        assert(whole =~= b);
        if hex_decode_spec(b) is Some {
            assert(Seq::<u8>::empty() + hex_decode_spec(b).unwrap() =~= hex_decode_spec(
                b,
            ).unwrap());
        }
    } else {
        assert(whole.len() % 2 == a.len() % 2 + b.len() % 2 || whole.len() % 2 == (a.len() % 2
            + b.len() % 2) % 2) by (nonlinear_arith)
            requires
                whole.len() == a.len() + b.len(),
        ;
        if b.len() % 2 != 0 {
            assert(whole.len() % 2 != 0) by (nonlinear_arith)
                requires
                    whole.len() == a.len() + b.len(),
                    a.len() % 2 == 0,
                    b.len() % 2 != 0,
            ;
        } else {
            assert(whole.len() % 2 == 0) by (nonlinear_arith)
                requires
                    whole.len() == a.len() + b.len(),
                    a.len() % 2 == 0,
                    b.len() % 2 == 0,
            ;
            assert(whole[0] == a[0] && whole[1] == a[1]);
            assert(whole.skip(2) =~= a.skip(2) + b);
            assert(a.skip(2).len() % 2 == 0) by (nonlinear_arith)
                requires
                    a.len() % 2 == 0,
                    a.len() >= 2,
                    a.skip(2).len() == a.len() - 2,
            ;
            lemma_hex_decode_append(a.skip(2), b);
            match (hex_val(a[0]), hex_val(a[1])) {
                (Some(hi), Some(lo)) => {
                    match (hex_decode_spec(a.skip(2)), hex_decode_spec(b)) {
                        (Some(x), Some(y)) => {
                            assert(seq![(hi * 16 + lo) as u8] + (x + y) =~= (seq![
                                (hi * 16 + lo) as u8,
                            ] + x) + y);
                        },
                        _ => {},
                    }
                },
                _ => {},
            }
        }
    }
}

/// Decodes hex text back to bytes, accepting upper- or lowercase characters
/// and rejecting odd lengths and non-hex characters with an `Encoding` error.
pub fn decode_hex(hex_data: &Vec<u8>) -> (r: Result<Vec<u8>, RfcError>)
    ensures
        match r {
            Ok(v) => hex_decode_spec(hex_data@) == Some(v@),
            Err(e) => hex_decode_spec(hex_data@) is None && e matches RfcError::Encoding(_),
        },
{
    if hex_data.len() % 2 != 0 {
        return Err(RfcError::Encoding(String::from_str("odd hex length")));
    }
    let mut out: Vec<u8> = Vec::new();
    let mut i: usize = 0;
    while i < hex_data.len()
        invariant
            i <= hex_data@.len(),
            i % 2 == 0,
            hex_data@.len() % 2 == 0,
            hex_decode_spec(hex_data@.take(i as int)) == Some(out@),
        decreases hex_data@.len() - i,
    {
        let c_hi = hex_data[i];
        let c_lo = hex_data[i + 1];
        let hi = match hex_char_value(c_hi) {
            Some(v) => v,
            None => {
                proof {
                    lemma_hex_decode_none(hex_data@, i as int);
                }
                return Err(RfcError::Encoding(String::from_str("invalid hex character")));
            },
        };
        let lo = match hex_char_value(c_lo) {
            Some(v) => v,
            None => {
                proof {
                    lemma_hex_decode_none(hex_data@, i as int);
                }
                return Err(RfcError::Encoding(String::from_str("invalid hex character")));
            },
        };
        proof {
            let prefix = hex_data@.take(i as int);
            let pair = seq![hex_data@[i as int], hex_data@[i + 1int]];
            lemma_hex_decode_append(prefix, pair);
            assert(prefix + pair =~= hex_data@.take(i + 2int));
            assert(pair.skip(2) =~= Seq::<u8>::empty());
            assert(hex_decode_spec(Seq::<u8>::empty()) == Some(Seq::<u8>::empty()));
            assert(seq![(hi * 16 + lo) as u8] + Seq::<u8>::empty() =~= seq![(hi * 16 + lo) as u8]);
            assert(hex_decode_spec(pair) == Some(seq![(hi * 16 + lo) as u8]));
            assert(out@ + seq![(hi * 16 + lo) as u8] =~= out@.push((hi * 16 + lo) as u8));
        }
        out.push(hi * 16 + lo);
        i += 2;
    }
    proof {
        assert(hex_data@.take(hex_data@.len() as int) =~= hex_data@);
    }
    Ok(out)
}

/// If the pair at even position `i` contains a non-hex character, the whole
/// string fails to decode.
proof fn lemma_hex_decode_none(h: Seq<u8>, i: int)
    requires
        h.len() % 2 == 0,
        0 <= i,
        i % 2 == 0,
        i + 2 <= h.len(),
        hex_val(h[i]) is None || hex_val(h[i + 1]) is None,
    ensures
        hex_decode_spec(h) is None,
{
    let prefix = h.take(i);
    let rest = h.skip(i);
    assert(prefix.len() % 2 == 0);
    assert(rest.len() % 2 == 0) by (nonlinear_arith)
        requires
            h.len() % 2 == 0,
            i % 2 == 0,
            0 <= i <= h.len(),
            rest.len() == h.len() - i,
    ;
    lemma_hex_decode_append(prefix, rest);
    assert(prefix + rest =~= h);
    assert(rest[0] == h[i] && rest[1] == h[i + 1]);
    assert(hex_decode_spec(rest) is None);
}

/// Executable form of [`hex_val`].
fn hex_char_value(c: u8) -> (r: Option<u8>)
    ensures
        r == hex_val(c),
{
    if 48 <= c && c <= 57 {
        Some(c - 48)
    } else if 97 <= c && c <= 102 {
        Some(c - 87)
    } else if 65 <= c && c <= 70 {
        Some(c - 55)
    } else {
        None
    }
}

// ---------------------------------------------------------------------------
// Base64
// ---------------------------------------------------------------------------
/// The Base64 (standard alphabet, padded) encoding of a byte buffer, as
/// computed by the `base64` crate. Named abstractly: the contracts below pin
/// its length and that decoding inverts it.
pub uninterp spec fn b64_of(bytes: Seq<u8>) -> Seq<u8>;

/// What Base64 decoding yields on a byte buffer: the decoded bytes for valid
/// input, nothing otherwise. Named abstractly beside [`b64_of`].
pub uninterp spec fn b64_dec(text: Seq<u8>) -> Option<Seq<u8>>;

/// Decoding inverts encoding for every buffer. The trusted encoder below
/// carries this fact; callers that encoded something may rely on it.
pub open spec fn b64_round_trip_ok() -> bool {
    forall|v: Seq<u8>| b64_dec(#[trigger] b64_of(v)) == Some(v)
}

/// How many bytes a Base64 encoding of `len` input bytes occupies, with
/// padding: four characters for every started group of three bytes.
pub open spec fn spec_b64_len(len: nat) -> nat {
    ((len + 2) / 3) * 4
}

/// What the trusted Base64 encoder guarantees of its result: it is the named
/// encoding of the source, and everything it produces decodes back.
pub open spec fn is_b64_encoding(r: Seq<u8>, src: Seq<u8>) -> bool {
    &&& r == b64_of(src)
    &&& r.len() == spec_b64_len(src.len())
    &&& b64_round_trip_ok()
}

/// Relies on `base64::engine::general_purpose::STANDARD.encode`: standard
/// alphabet with padding, four output characters per started three-byte
/// group, inverted exactly by `decode` of the same engine.
#[verifier::external_body]
pub(crate) fn encode_b64_buf(bytes: &Vec<u8>) -> (r: Vec<u8>)
    ensures
        r@ == b64_of(bytes@),
        is_b64_encoding(r@, bytes@),
{
    base64::engine::general_purpose::STANDARD.encode(bytes).into_bytes()
}

/// Relies on `base64::engine::general_purpose::STANDARD.decode`: returns the
/// decoded bytes exactly on valid padded standard-alphabet input.
#[verifier::external_body]
pub(crate) fn decode_b64_buf(text: &Vec<u8>) -> (r: Result<Vec<u8>, RfcError>)
    ensures
        match r {
            Ok(v) => b64_dec(text@) == Some(v@),
            Err(e) => b64_dec(text@) is None && e matches RfcError::Encoding(_),
        },
{
    base64::engine::general_purpose::STANDARD.decode(text.as_slice()).map_err(
        |e| RfcError::Encoding(format!("invalid base64: {}", e)),
    )
}

/// The unpadded Base64 (standard alphabet) encoding of a byte buffer, as
/// computed by the `base64` crate's `STANDARD_NO_PAD` engine. Named
/// abstractly: the output is a pure function of the input bytes.
pub uninterp spec fn b64_nopad_of(bytes: Seq<u8>) -> Seq<u8>;

/// True of the characters the standard Base64 alphabet uses (no padding):
/// letters, digits, `+`, and `/`.
pub open spec fn is_std_b64_char(c: u8) -> bool {
    (65 <= c <= 90) || (97 <= c <= 122) || (48 <= c <= 57) || c == 43 || c == 47
}

/// What the trusted unpadded encoder guarantees of its result: it is the
/// named encoding of the source, `ceil(len * 4 / 3)` characters long, every
/// one of them in the standard Base64 alphabet.
pub open spec fn is_b64_nopad_encoding(r: Seq<u8>, src: Seq<u8>) -> bool {
    &&& r == b64_nopad_of(src)
    &&& r.len() == (src.len() * 4 + 2) / 3
    &&& forall|i: int| 0 <= i < r.len() ==> is_std_b64_char(#[trigger] r[i])
}

/// Relies on `base64::engine::general_purpose::STANDARD_NO_PAD.encode`: the
/// unpadded standard-alphabet encoding, `ceil(len * 4 / 3)` characters long
/// and drawn entirely from the standard alphabet.
#[verifier::external_body]
pub(crate) fn encode_b64_nopad(bytes: &Vec<u8>) -> (r: Vec<u8>)
    ensures
        r@ == b64_nopad_of(bytes@),
        is_b64_nopad_encoding(r@, bytes@),
{
    base64::engine::general_purpose::STANDARD_NO_PAD.encode(bytes).into_bytes()
}

/// A buffer size that always fits the plain bytes decoded from Base64 input
/// of length `len`.
pub fn prealloc_size_b64(len: usize) -> (r: usize)
    requires
        len <= usize::MAX / 4,
    ensures
        r == len * 4 / 3 + 4,
{
    len * 4 / 3 + 4
}

} // verus!
