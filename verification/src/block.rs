//! Blocks: immutable batches of transactions sealed by proof-of-work.

use vstd::prelude::*;
use crate::bytes::{bytes_eq, clone_bytes};
use crate::clock::current_millis;
use crate::codec::{enc_pow_data, encode_pow_data};
use crate::errors::Error;
use crate::hashing::{sha256_hex, sha256_hex_of};
use crate::transaction::{Transaction, TransactionView};

verus! {

/// How many leading hex digits of a block's hash must be '0' for the block
/// to be admitted.
pub const TARGET_HEXT: usize = 4;

/// One sealed record of the chain. Immutable once built: the hash covers
/// the linkage metadata, the transactions, the timestamp, the difficulty
/// parameter and the nonce.
pub struct Block {
    /// Milliseconds since the Unix epoch at sealing time.
    pub timestamp: u128,
    /// The transactions this block carries.
    pub transaction: Vec<Transaction>,
    /// Hash of the parent block; empty for the genesis block.
    pub prev_block_hash: Vec<u8>,
    /// This block's own hash: 64 hex digits, as ASCII bytes.
    pub hash: Vec<u8>,
    /// Distance from the genesis block, which sits at height 0.
    pub height: usize,
    /// The proof-of-work witness found by the sealing search.
    pub nonce: i32,
}

/// The mathematical value of a `Block`.
#[verifier::ext_equal]
pub struct BlockView {
    pub timestamp: u128,
    pub transactions: Seq<TransactionView>,
    pub prev_block_hash: Seq<u8>,
    pub hash: Seq<u8>,
    pub height: usize,
    pub nonce: i32,
}

impl View for Block {
    type V = BlockView;

    open spec fn view(&self) -> BlockView {
        BlockView {
            timestamp: self.timestamp,
            transactions: self.transaction.deep_view(),
            prev_block_hash: self.prev_block_hash@,
            hash: self.hash@,
            height: self.height,
            nonce: self.nonce,
        }
    }
}

impl DeepView for Block {
    type V = BlockView;

    open spec fn deep_view(&self) -> BlockView {
        self.view()
    }
}

/// The difficulty predicate: the first `TARGET_HEXT` hex digits of the
/// hash are '0' (ASCII 48).
pub open spec fn difficulty_ok(h: Seq<u8>) -> bool {
    &&& h.len() >= TARGET_HEXT
    &&& forall|k: int| 0 <= k < TARGET_HEXT ==> h[k] == 48u8
}

/// The hash the proof-of-work search computes for a block's current
/// fields: the hex SHA-256 digest of its sealing data.
pub open spec fn spec_pow_hash(b: BlockView) -> Seq<u8> {
    sha256_hex_of(enc_pow_data(b.prev_block_hash, b.transactions, b.timestamp, b.nonce))
}

/// A properly sealed block: its stored hash is the hash of its own fields
/// and satisfies the difficulty predicate.
pub open spec fn sealed(b: BlockView) -> bool {
    &&& b.hash == spec_pow_hash(b)
    &&& difficulty_ok(b.hash)
}

/// Check the difficulty predicate on a hash.
fn meets_difficulty(h: &Vec<u8>) -> (r: bool)
    ensures
        r == difficulty_ok(h@),
{
    if h.len() < TARGET_HEXT {
        return false;
    }
    let mut k: usize = 0;
    while k < TARGET_HEXT
        invariant
            k <= TARGET_HEXT && h@.len() >= TARGET_HEXT,
            forall|j: int| 0 <= j < k ==> h@[j] == 48u8,
        decreases TARGET_HEXT - k,
    {
        if h[k] != 48u8 {
            return false;
        }
        k = k + 1;
    }
    true
}

impl Block {
    /// The transactions this block carries.
    pub fn get_transaction(&self) -> (r: &Vec<Transaction>)
        ensures
            r.deep_view() == self@.transactions,
    {
        &self.transaction
    }

    /// The parent block's hash; empty for the genesis block.
    pub fn get_prev_hash(&self) -> (r: Vec<u8>)
        ensures
            r@ == self@.prev_block_hash,
    {
        clone_bytes(&self.prev_block_hash)
    }

    /// This block's own hash.
    pub fn get_hash(&self) -> (r: Vec<u8>)
        ensures
            r@ == self@.hash,
    {
        clone_bytes(&self.hash)
    }

    /// Distance from the genesis block.
    pub fn get_height(&self) -> (r: usize)
        ensures
            r == self@.height,
    {
        self.height
    }

    /// The proof-of-work search: try nonces from 0 upward until the hash
    /// of the block's sealing data satisfies the difficulty predicate,
    /// then store that hash. Fails only if the whole nonce space is
    /// exhausted.
    fn run_proof_if_work(&mut self) -> (r: Result<(), Error>)
        ensures
            r is Ok ==> ({
                &&& final(self)@.timestamp == old(self)@.timestamp
                &&& final(self)@.transactions == old(self)@.transactions
                &&& final(self)@.prev_block_hash == old(self)@.prev_block_hash
                &&& final(self)@.height == old(self)@.height
                &&& sealed(final(self)@)
                &&& final(self)@.hash.len() == 64
            }),
            r is Err ==> r == Err::<(), Error>(Error::NonceExhausted),
    {
        let mut n: i32 = 0;
        loop
            invariant
                0 <= n,
                self@.timestamp == old(self)@.timestamp,
                self@.transactions == old(self)@.transactions,
                self@.prev_block_hash == old(self)@.prev_block_hash,
                self@.height == old(self)@.height,
            decreases i32::MAX - n,
        {
            self.nonce = n;
            let data = encode_pow_data(self);
            let h = sha256_hex(data.as_slice());
            if meets_difficulty(&h) {
                self.hash = h;
                return Ok(());
            }
            if n == i32::MAX {
                return Err(Error::NonceExhausted);
            }
            n = n + 1;
        }
    }

    /// Seal a new block over `data` at the given height, linked to the
    /// parent hash, stamped with the current time. On success the block's
    /// hash is the hash of its own fields and meets the difficulty.
    pub fn new_block(data: Vec<Transaction>, prev_block_hash: Vec<u8>, height: usize) -> (r:
        Result<Block, Error>)
        ensures
            (match r {
                Ok(b) => {
                    &&& b@.transactions == data.deep_view()
                    &&& b@.prev_block_hash == prev_block_hash@
                    &&& b@.height == height
                    &&& sealed(b@)
                    &&& b@.hash.len() == 64
                },
                Err(e) => e == Error::Clock || e == Error::NonceExhausted,
            }),
    {
        let timestamp = match current_millis() {
            Ok(t) => t,
            Err(e) => {
                return Err(e);
            },
        };
        let mut block = Block {
            timestamp,
            transaction: data,
            prev_block_hash,
            hash: Vec::new(),
            height,
            nonce: 0,
        };
        match block.run_proof_if_work() {
            Ok(()) => Ok(block),
            Err(e) => Err(e),
        }
    }

    /// Seal the genesis block: height 0, empty parent hash, wrapping the
    /// given coinbase transaction alone.
    pub fn new_genesis_block(coinbase: Transaction) -> (r: Result<Block, Error>)
        ensures
            (match r {
                Ok(b) => {
                    &&& b@.transactions =~= seq![coinbase@]
                    &&& b@.prev_block_hash.len() == 0
                    &&& b@.height == 0
                    &&& sealed(b@)
                    &&& b@.hash.len() == 64
                },
                Err(e) => e == Error::Clock || e == Error::NonceExhausted,
            }),
    {
        let txs = vec![coinbase];
        assert(txs.deep_view() =~= seq![txs@[0]@]);
        Block::new_block(txs, Vec::new(), 0)
    }

    /// Whether this block's stored hash meets the difficulty predicate.
    pub fn check_difficulty(&self) -> (r: bool)
        ensures
            r == difficulty_ok(self@.hash),
    {
        meets_difficulty(&self.hash)
    }

    /// Recompute this block's hash from its stored fields and check it:
    /// true exactly when the stored hash equals the recomputation and
    /// meets the difficulty.
    pub fn validate(&self) -> (r: bool)
        ensures
            r == sealed(self@),
    {
        let data = encode_pow_data(self);
        let h = sha256_hex(data.as_slice());
        let same = bytes_eq(h.as_slice(), self.hash.as_slice());
        let hard = meets_difficulty(&self.hash);
        same && hard
    }
}

} // verus!
