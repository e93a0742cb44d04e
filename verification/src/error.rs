//! Error kinds for the encryption pipeline.
//!
//! Every stage returns one of these kinds; the orchestrator propagates the
//! first failure unchanged. Nothing is recovered locally.

use vstd::prelude::*;

verus! {

/// The error taxonomy of the pipeline. Each fallible stage reports the kind
/// that names it: container decoding yields `Deserialize`, a ciphertext whose
/// length is not a whole number of blocks yields `Decryption`, a rejected
/// text encoding yields `Encoding`, and so on.
#[derive(Debug)]
pub enum RfcError {
    NotImplemented(String),
    IoError(String),
    Serialize(String),
    Deserialize(String),
    Encryption(String),
    Decryption(String),
    Encoding(String),
    Compression,
    Decompression,
}

} // verus!
