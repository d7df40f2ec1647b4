//! The hash primitive every identifier in the ledger is built from:
//! SHA-256, rendered as 64 lowercase hex digits (stored as ASCII bytes).

use vstd::prelude::*;
use crypto::digest::Digest;
use crypto::sha2::Sha256;

verus! {

/// The hex rendering of the SHA-256 digest of `data`: what
/// `crypto::sha2::Sha256` computes. It depends on the input bytes alone.
pub uninterp spec fn sha256_hex_of(data: Seq<u8>) -> Seq<u8>;

/// Relies on crypto::sha2::Sha256 (with crypto::digest::Digest::result_str):
/// the digest is a function of the input bytes alone, and its hex rendering
/// is 64 characters long.
#[verifier::external_body]
pub(crate) fn sha256_hex(data: &[u8]) -> (r: Vec<u8>)
    ensures
        r@ == sha256_hex_of(data@),
        r@.len() == 64,
{
    let mut hasher = Sha256::new();
    hasher.input(data);
    hasher.result_str().into_bytes()
}

} // verus!
