//! Ed25519 signing and verification, as the `crypto` crate provides them.

use vstd::prelude::*;

verus! {

/// The signature ed25519 computes over `msg` with the 64-byte secret key
/// `sk`: deterministic in its arguments.
pub uninterp spec fn sig_of(msg: Seq<u8>, sk: Seq<u8>) -> Seq<u8>;

/// The secret half of the keypair ed25519 derives from a 32-byte seed.
pub uninterp spec fn sk_of(seed: Seq<u8>) -> Seq<u8>;

/// The public half of the keypair ed25519 derives from a 32-byte seed.
pub uninterp spec fn pk_of(seed: Seq<u8>) -> Seq<u8>;

/// What ed25519 signature checking answers on these exact bytes:
/// deterministic in its arguments.
pub uninterp spec fn ed_verify(msg: Seq<u8>, pk: Seq<u8>, sig: Seq<u8>) -> bool;

/// Relies on crypto::ed25519::signature: a deterministic 64-byte signature
/// over the message, computed from the message and the secret key alone.
/// A signature made with the secret half of a keypair derived from a
/// 32-byte seed (crypto::ed25519::keypair) passes crypto::ed25519::verify
/// against that keypair's public half. Panics on a secret key that is not
/// 64 bytes, so that input is excluded.
#[verifier::external_body]
pub(crate) fn ed_sign(msg: &[u8], sk: &[u8]) -> (r: Vec<u8>)
    requires
        sk@.len() == 64,
    ensures
        r@ == sig_of(msg@, sk@),
        r@.len() == 64,
        forall|seed: Seq<u8>|
            seed.len() == 32 && sk@ == sk_of(seed) ==> ed_verify(msg@, pk_of(seed), r@),
{
    crypto::ed25519::signature(msg, sk).to_vec()
}

/// Relies on crypto::ed25519::verify: a deterministic boolean answer,
/// computed from the message, public key and signature alone. Panics on a
/// public key that is not 32 bytes or a signature that is not 64 bytes, so
/// those inputs are excluded.
#[verifier::external_body]
pub(crate) fn ed_check(msg: &[u8], pk: &[u8], sig: &[u8]) -> (r: bool)
    requires
        pk@.len() == 32,
        sig@.len() == 64,
    ensures
        r == ed_verify(msg@, pk@, sig@),
{
    crypto::ed25519::verify(msg, pk, sig)
}

} // verus!
