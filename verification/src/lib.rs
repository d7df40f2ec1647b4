//! A single-node educational ledger: a hash-linked chain of blocks holding
//! transactions that move value between addresses under an
//! unspent-transaction-output (UTXO) accounting model, sealed by a
//! lightweight proof-of-work rule and guarded by public-key signatures.

use vstd::prelude::*;

pub mod block;
pub mod blockchain;
pub mod bytes;
pub mod clock;
pub mod codec;
pub mod errors;
pub mod hashing;
pub mod signing;
pub mod store;
pub mod transaction;
pub mod tx;
pub mod utxo;

verus! {

} // verus!
