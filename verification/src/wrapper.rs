//! The container codec: a two-field binary record `(metadata, payload)`.
//!
//! The same codec carries three kinds of metadata — the salt at the crypto
//! boundary, the padding count inside the cipher adapter, and the original
//! length at the compression boundary. The wire format is self-describing:
//! one tag byte names the metadata kind, a fixed-width little-endian field
//! (prefixed by its length for the salt) carries the metadata, and the whole
//! remainder of the record is the payload. Decoding rejects anything
//! truncated or mis-tagged instead of returning garbage.

use vstd::bytes::{
    lemma_auto_spec_u64_to_from_le_bytes, spec_u64_from_le_bytes, spec_u64_to_le_bytes,
    u64_from_le_bytes, u64_to_le_bytes,
};
use vstd::prelude::*;

use crate::error::RfcError;

verus! {

/// Tag byte introducing a salt record.
pub const TAG_SALT: u8 = 1;

/// Tag byte introducing a padding-count record.
pub const TAG_PADDING: u8 = 2;

/// Tag byte introducing an original-length record.
pub const TAG_ORIGINAL_LEN: u8 = 3;

/// The metadata a container can carry, one variant per pipeline stage.
#[derive(Clone, PartialEq, Eq, Debug)]
pub enum Metadata {
    /// The random salt stored beside the ciphertext at the crypto boundary.
    Salt(Vec<u8>),
    /// How many bytes of the final cipher block were genuine plaintext.
    PaddingCount(u64),
    /// The uncompressed length stored beside the compressed bytes.
    OriginalLength(u64),
}

/// The mathematical value of a [`Metadata`].
pub enum MetaView {
    Salt(Seq<u8>),
    PaddingCount(u64),
    OriginalLength(u64),
}

impl View for Metadata {
    type V = MetaView;

    open spec fn view(&self) -> MetaView {
        match self {
            Metadata::Salt(s) => MetaView::Salt(s@),
            Metadata::PaddingCount(c) => MetaView::PaddingCount(*c),
            Metadata::OriginalLength(n) => MetaView::OriginalLength(*n),
        }
    }
}

/// The encoded metadata header: tag byte followed by the fixed-width fields.
pub open spec fn encode_meta_spec(m: MetaView) -> Seq<u8> {
    match m {
        MetaView::Salt(s) => seq![TAG_SALT] + spec_u64_to_le_bytes(s.len() as u64) + s,
        MetaView::PaddingCount(c) => seq![TAG_PADDING] + spec_u64_to_le_bytes(c),
        MetaView::OriginalLength(n) => seq![TAG_ORIGINAL_LEN] + spec_u64_to_le_bytes(n),
    }
}

/// The full encoded container: metadata header followed by the raw payload.
pub open spec fn encode_spec(m: MetaView, payload: Seq<u8>) -> Seq<u8> {
    encode_meta_spec(m) + payload
}

/// What decoding a byte string yields: the metadata and payload if the bytes
/// are a well-formed container, nothing otherwise.
pub open spec fn decode_spec(b: Seq<u8>) -> Option<(MetaView, Seq<u8>)> {
    if b.len() < 9 {
        None
    } else if b[0] == TAG_SALT {
        let n = spec_u64_from_le_bytes(b.subrange(1, 9)) as int;
        if b.len() - 9 < n {
            None
        } else {
            Some((MetaView::Salt(b.subrange(9, 9 + n)), b.subrange(9 + n, b.len() as int)))
        }
    } else if b[0] == TAG_PADDING {
        Some(
            (
                MetaView::PaddingCount(spec_u64_from_le_bytes(b.subrange(1, 9))),
                b.subrange(9, b.len() as int),
            ),
        )
    } else if b[0] == TAG_ORIGINAL_LEN {
        Some(
            (
                MetaView::OriginalLength(spec_u64_from_le_bytes(b.subrange(1, 9))),
                b.subrange(9, b.len() as int),
            ),
        )
    } else {
        None
    }
}

/// Decoding inverts encoding: every container round-trips through the codec.
pub proof fn lemma_container_round_trip(m: MetaView, payload: Seq<u8>)
    requires
        m matches MetaView::Salt(s) ==> s.len() <= u64::MAX,
    ensures
        decode_spec(encode_spec(m, payload)) == Some((m, payload)),
{
    lemma_auto_spec_u64_to_from_le_bytes();
    let b = encode_spec(m, payload);
    match m {
        MetaView::Salt(s) => {
            let n = s.len() as int;
            assert(b.len() == 9 + n + payload.len());
            assert(b[0] == TAG_SALT);
            assert(b.subrange(1, 9) =~= spec_u64_to_le_bytes(s.len() as u64));
            assert(spec_u64_from_le_bytes(b.subrange(1, 9)) == s.len() as u64);
            assert(b.subrange(9, 9 + n) =~= s);
            assert(b.subrange(9 + n, b.len() as int) =~= payload);
        },
        MetaView::PaddingCount(c) => {
            assert(b.len() == 9 + payload.len());
            assert(b[0] == TAG_PADDING);
            assert(b.subrange(1, 9) =~= spec_u64_to_le_bytes(c));
            assert(b.subrange(9, b.len() as int) =~= payload);
        },
        MetaView::OriginalLength(n) => {
            assert(b.len() == 9 + payload.len());
            assert(b[0] == TAG_ORIGINAL_LEN);
            assert(b.subrange(1, 9) =~= spec_u64_to_le_bytes(n));
            assert(b.subrange(9, b.len() as int) =~= payload);
        },
    }
}

/// The format is canonical: whatever decodes was the encoding of exactly what
/// it decodes to. Decoding therefore never produces a pair whose encoding
/// differs from the input — corrupted bytes either fail or were a valid
/// container all along.
pub proof fn lemma_container_canonical(b: Seq<u8>)
    requires
        decode_spec(b) is Some,
    ensures
        b == encode_spec(decode_spec(b).unwrap().0, decode_spec(b).unwrap().1),
{
    lemma_auto_spec_u64_to_from_le_bytes();
    let (m, p) = decode_spec(b).unwrap();
    if b[0] == TAG_SALT {
        let n = spec_u64_from_le_bytes(b.subrange(1, 9)) as int;
        assert(m matches MetaView::Salt(s) && s == b.subrange(9, 9 + n));
        assert(spec_u64_to_le_bytes(spec_u64_from_le_bytes(b.subrange(1, 9))) == b.subrange(1, 9));
        assert(encode_spec(m, p) =~= b);
    } else if b[0] == TAG_PADDING {
        assert(spec_u64_to_le_bytes(spec_u64_from_le_bytes(b.subrange(1, 9))) == b.subrange(1, 9));
        assert(encode_spec(m, p) =~= b);
    } else {
        assert(spec_u64_to_le_bytes(spec_u64_from_le_bytes(b.subrange(1, 9))) == b.subrange(1, 9));
        assert(encode_spec(m, p) =~= b);
    }
}

/// A container: a metadata value paired with a payload byte vector. This one
/// record shape is reused by every stage of the pipeline.
#[derive(Clone, PartialEq, Eq, Debug)]
pub struct WrapperBytes(pub Metadata, pub Vec<u8>);

impl WrapperBytes {
    /// Serializes the container into its self-describing byte form.
    pub fn encode(&self) -> (r: Vec<u8>)
        ensures
            r@ == encode_spec(self.0@, self.1@),
    {
        let mut out: Vec<u8> = Vec::new();
        match &self.0 {
            Metadata::Salt(s) => {
                out.push(TAG_SALT);
                let len_bytes = u64_to_le_bytes(s.len() as u64);
                out.extend_from_slice(len_bytes.as_slice());
                out.extend_from_slice(s.as_slice());
                proof {
                    assert(out@ =~= encode_meta_spec(self.0@));
                }
            },
            Metadata::PaddingCount(c) => {
                out.push(TAG_PADDING);
                let field = u64_to_le_bytes(*c);
                out.extend_from_slice(field.as_slice());
                proof {
                    assert(out@ =~= encode_meta_spec(self.0@));
                }
            },
            Metadata::OriginalLength(n) => {
                out.push(TAG_ORIGINAL_LEN);
                let field = u64_to_le_bytes(*n);
                out.extend_from_slice(field.as_slice());
                proof {
                    assert(out@ =~= encode_meta_spec(self.0@));
                }
            },
        }
        out.extend_from_slice(self.1.as_slice());
        proof {
            assert(out@ =~= encode_spec(self.0@, self.1@));
        }
        out
    }

    /// Parses a container from bytes, rejecting truncated or mis-tagged
    /// input with a `Deserialize` error.
    pub fn decode(bytes: &Vec<u8>) -> (r: Result<WrapperBytes, RfcError>)
        ensures
            match r {
                Ok(w) => decode_spec(bytes@) == Some((w.0@, w.1@)),
                Err(e) => decode_spec(bytes@) is None && e matches RfcError::Deserialize(_),
            },
    {
        if bytes.len() < 9 {
            return Err(RfcError::Deserialize(String::from_str("container too short")));
        }
        let tag = bytes[0];
        let field = u64_from_le_bytes(vstd::slice::slice_subrange(bytes.as_slice(), 1, 9));
        if tag == TAG_SALT {
            proof {
                lemma_auto_spec_u64_to_from_le_bytes();
            }
            let rest = bytes.len() - 9;
            if (rest as u64) < field {
                return Err(RfcError::Deserialize(String::from_str("salt length out of range")));
            }
            let n = field as usize;
            let salt = vstd::slice::slice_to_vec(
                vstd::slice::slice_subrange(bytes.as_slice(), 9, 9 + n),
            );
            let payload = vstd::slice::slice_to_vec(
                vstd::slice::slice_subrange(bytes.as_slice(), 9 + n, bytes.len()),
            );
            Ok(WrapperBytes(Metadata::Salt(salt), payload))
        } else if tag == TAG_PADDING {
            let payload = vstd::slice::slice_to_vec(
                vstd::slice::slice_subrange(bytes.as_slice(), 9, bytes.len()),
            );
            Ok(WrapperBytes(Metadata::PaddingCount(field), payload))
        } else if tag == TAG_ORIGINAL_LEN {
            let payload = vstd::slice::slice_to_vec(
                vstd::slice::slice_subrange(bytes.as_slice(), 9, bytes.len()),
            );
            Ok(WrapperBytes(Metadata::OriginalLength(field), payload))
        } else {
            Err(RfcError::Deserialize(String::from_str("unknown container tag")))
        }
    }
}

} // verus!
