//! Transaction inputs and outputs.
//!
//! An output locks a value to the hash of a public key; an input consumes a
//! prior output by naming its transaction id and index, and carries the
//! spender's public key together with a signature over the spend.

use vstd::prelude::*;
use crate::bytes::{bytes_eq, clone_bytes};
use crate::hashing::{sha256_hex, sha256_hex_of};

verus! {

/// One consumed prior output. The coinbase sentinel input has an empty
/// `txid`, `vout == -1`, and carries a memo in `signature`.
pub struct TxInput {
    /// Id of the transaction whose output is being spent.
    pub txid: Vec<u8>,
    /// Index of that output within the referenced transaction.
    pub vout: i32,
    /// Signature over the spend (empty until signed); the memo, for the
    /// coinbase sentinel.
    pub signature: Vec<u8>,
    /// The spender's public key.
    pub pub_key: Vec<u8>,
}

/// The mathematical value of a `TxInput`.
#[verifier::ext_equal]
pub struct TxInputView {
    pub txid: Seq<u8>,
    pub vout: i32,
    pub signature: Seq<u8>,
    pub pub_key: Seq<u8>,
}

impl View for TxInput {
    type V = TxInputView;

    open spec fn view(&self) -> TxInputView {
        TxInputView {
            txid: self.txid@,
            vout: self.vout,
            signature: self.signature@,
            pub_key: self.pub_key@,
        }
    }
}

impl DeepView for TxInput {
    type V = TxInputView;

    open spec fn deep_view(&self) -> TxInputView {
        self.view()
    }
}

/// A value locked to the hash of a public key.
pub struct TxOutput {
    /// The amount this output carries.
    pub value: i32,
    /// The locking hash: the address whose key may spend this output.
    pub pub_key_hash: Vec<u8>,
}

/// The mathematical value of a `TxOutput`.
#[verifier::ext_equal]
pub struct TxOutputView {
    pub value: i32,
    pub pub_key_hash: Seq<u8>,
}

impl View for TxOutput {
    type V = TxOutputView;

    open spec fn view(&self) -> TxOutputView {
        TxOutputView { value: self.value, pub_key_hash: self.pub_key_hash@ }
    }
}

impl DeepView for TxOutput {
    type V = TxOutputView;

    open spec fn deep_view(&self) -> TxOutputView {
        self.view()
    }
}

impl TxInputView {
    /// The address this input's key material answers for: inputs spend
    /// outputs locked to the hash of their public key.
    pub open spec fn spec_can_unlock(self, pub_key_hash: Seq<u8>) -> bool {
        sha256_hex_of(self.pub_key) == pub_key_hash
    }
}

impl TxInput {
    /// Whether this input spends outputs belonging to the address
    /// `pub_key_hash`: true exactly when the hash of its public key is that
    /// address.
    pub fn can_unlock_output_with(&self, pub_key_hash: &[u8]) -> (r: bool)
        ensures
            r == self@.spec_can_unlock(pub_key_hash@),
    {
        let h = sha256_hex(self.pub_key.as_slice());
        bytes_eq(h.as_slice(), pub_key_hash)
    }

    /// An exact copy of this input.
    pub fn duplicate(&self) -> (r: TxInput)
        ensures
            r@ == self@,
    {
        TxInput {
            txid: clone_bytes(&self.txid),
            vout: self.vout,
            signature: clone_bytes(&self.signature),
            pub_key: clone_bytes(&self.pub_key),
        }
    }
}

impl TxOutputView {
    /// The output is locked to the address `pub_key_hash`.
    pub open spec fn spec_can_be_unlocked(self, pub_key_hash: Seq<u8>) -> bool {
        self.pub_key_hash == pub_key_hash
    }
}

impl TxOutput {
    /// Build an output of `value` units locked to `pub_key_hash`.
    pub fn new(value: i32, pub_key_hash: Vec<u8>) -> (r: TxOutput)
        requires
            value >= 0,
        ensures
            r@.value == value,
            r@.pub_key_hash == pub_key_hash@,
    {
        TxOutput { value, pub_key_hash }
    }

    /// Whether the address `pub_key_hash` may spend this output.
    pub fn can_be_unlocked_with(&self, pub_key_hash: &[u8]) -> (r: bool)
        ensures
            r == self@.spec_can_be_unlocked(pub_key_hash@),
    {
        bytes_eq(self.pub_key_hash.as_slice(), pub_key_hash)
    }

    /// An exact copy of this output.
    pub fn duplicate(&self) -> (r: TxOutput)
        ensures
            r@ == self@,
    {
        TxOutput { value: self.value, pub_key_hash: clone_bytes(&self.pub_key_hash) }
    }
}

} // verus!
