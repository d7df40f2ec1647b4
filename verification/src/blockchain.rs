//! The ledger: a persisted, hash-linked chain of blocks and its tip.
//!
//! The store maps each block's hash to the block's encoding, and the
//! reserved key `LAST` to the tip hash. The chain's shape is carried as a
//! ghost sequence of block views, genesis first: following `prev_hash`
//! from the tip walks that sequence backward and reaches the genesis
//! block, whose parent hash is empty, in exactly `height + 1` steps.

use vstd::prelude::*;
use vstd::slice::slice_to_vec;
use crate::block::{difficulty_ok, sealed, Block, BlockView};
use crate::bytes::{bytes_eq, clone_bytes};
use crate::codec::{block_len_ok, dec_block, decode_block, enc_block, encode_block,
    lemma_block_round_trip};
use crate::errors::Error;
use crate::store::{store_flush, store_get, store_put, store_view};
use crate::transaction::{spec_coinbase, txs_values_ok, values_ok_check, Transaction,
    TransactionView};

verus! {

/// The reserved store key the tip hash sits under: the ASCII bytes of
/// "LAST".
pub open spec fn spec_last_key() -> Seq<u8> {
    seq![76u8, 65u8, 83u8, 84u8]
}

fn last_key() -> (r: Vec<u8>)
    ensures
        r@ == spec_last_key(),
{
    let mut v: Vec<u8> = Vec::new();
    v.push(76u8);
    v.push(65u8);
    v.push(83u8);
    v.push(84u8);
    assert(v@ =~= spec_last_key());
    v
}

/// The ledger: the tip hash, its height, the owned store handle, and the
/// chain the store holds, as a ghost sequence ordered genesis first.
pub struct Blockchain {
    /// Hash of the most recently appended block.
    pub current_hash: Vec<u8>,
    /// Height of that block: the chain holds `height + 1` blocks.
    pub height: usize,
    /// The backing store; this ledger owns it exclusively.
    pub db: sled::Db,
    /// The blocks of the chain, genesis first.
    pub chain: Ghost<Seq<BlockView>>,
}

impl Blockchain {
    /// The chain the ledger carries, genesis first.
    pub open spec fn spec_chain(self) -> Seq<BlockView> {
        self.chain@
    }

    /// The chain in traversal order: tip first.
    pub open spec fn tip_first(self) -> Seq<BlockView> {
        self.chain@.reverse()
    }

    /// Well-formedness: the chain is nonempty; the tip pointer names its
    /// last block; heights count up from the genesis block, whose parent
    /// hash is empty; every later block names its parent's hash; every
    /// block's hash is 64 hex digits meeting the difficulty, its record
    /// is encodable and its amounts are sane; and the store maps each
    /// block's hash to that block's encoding.
    pub open spec fn wf(self) -> bool {
        let c = self.chain@;
        &&& c.len() >= 1
        &&& self.current_hash@ == c.last().hash
        &&& self.height == c.len() - 1
        &&& c[0].prev_block_hash.len() == 0
        &&& forall|i: int| 0 <= i < c.len() ==> (#[trigger] c[i]).height == i
        &&& forall|i: int| 1 <= i < c.len() ==> (#[trigger] c[i]).prev_block_hash == c[i - 1].hash
        &&& forall|i: int| 0 <= i < c.len() ==> (#[trigger] c[i]).hash.len() == 64
        &&& forall|i: int| 0 <= i < c.len() ==> difficulty_ok((#[trigger] c[i]).hash)
        &&& forall|i: int| 0 <= i < c.len() ==> block_len_ok(#[trigger] c[i])
        &&& forall|i: int| 0 <= i < c.len() ==> txs_values_ok((#[trigger] c[i]).transactions)
        &&& forall|i: int|
            0 <= i < c.len() ==> store_view(self.db).contains_key((#[trigger] c[i]).hash)
                && store_view(self.db)[c[i].hash] == enc_block(c[i])
    }

    /// The tip hash.
    pub fn get_current_hash(&self) -> (r: Vec<u8>)
        ensures
            self.wf() ==> r@ == self.spec_chain().last().hash,
    {
        clone_bytes(&self.current_hash)
    }

    /// The tip height: the chain holds `height + 1` blocks.
    pub fn get_height(&self) -> (r: usize)
        ensures
            r == self.height,
    {
        self.height
    }

    /// Create a fresh ledger in the given store: build the coinbase
    /// transaction rewarding `address`, seal the genesis block around it,
    /// write the block under its hash and the tip key, and flush.
    pub fn create_blockchain(db: sled::Db, address: &[u8]) -> (r: Result<Blockchain, Error>)
        ensures
            (match r {
                Ok(bc) => {
                    &&& bc.wf()
                    &&& bc.spec_chain().len() == 1
                    &&& bc.spec_chain()[0].transactions =~= seq![
                        spec_coinbase(address@, Seq::<u8>::empty()),
                    ]
                    &&& sealed(bc.spec_chain()[0])
                },
                Err(e) => e == Error::Clock || e == Error::NonceExhausted || e == Error::Storage,
            }),
    {
        let cbtx = Transaction::new_coinbase(slice_to_vec(address), Vec::new());
        let ghost cbv = cbtx@;
        let genesis = match Block::new_genesis_block(cbtx) {
            Ok(b) => b,
            Err(e) => {
                return Err(e);
            },
        };
        let bytes = encode_block(&genesis);
        let ghash = genesis.get_hash();
        let mut db = db;
        match store_put(&mut db, ghash.as_slice(), bytes.as_slice()) {
            Ok(()) => (),
            Err(e) => {
                return Err(e);
            },
        }
        let lk = last_key();
        match store_put(&mut db, lk.as_slice(), ghash.as_slice()) {
            Ok(()) => (),
            Err(e) => {
                return Err(e);
            },
        }
        match store_flush(&db) {
            Ok(()) => (),
            Err(e) => {
                return Err(e);
            },
        }
        let ghost c0: Seq<BlockView> = seq![genesis@];
        let bc = Blockchain { current_hash: ghash, height: 0, db, chain: Ghost(c0) };
        proof {
            let c = bc.chain@;
            assert(c.len() == 1 && c[0] == genesis@);
            assert(c.last() == c[0]);
            assert(genesis@.hash.len() == 64 && spec_last_key().len() == 4);
            assert(genesis@.hash != spec_last_key());
            assert(store_view(bc.db).contains_key(genesis@.hash));
            assert(store_view(bc.db)[genesis@.hash] == enc_block(genesis@));
            assert(txs_values_ok(genesis@.transactions)) by {
                assert(genesis@.transactions =~= seq![cbv]);
                assert(cbv.vout.len() == 1 && cbv.vout[0].value == 100);
            }
            assert(bc.wf());
        }
        Ok(bc)
    }

    /// Open an existing ledger in the given store: read the tip key, then
    /// walk the chain backward, checking each record against its key and
    /// the chain's shape, down to the genesis block. Fails with
    /// `NotInitialized` when no tip key exists (the chain was never
    /// created), and with `Storage` when the store misbehaves or holds a
    /// record that does not check out.
    pub fn new(db: sled::Db) -> (r: Result<Blockchain, Error>)
        ensures
            (match r {
                Ok(bc) => bc.wf() && store_view(db).contains_key(spec_last_key())
                    && bc.spec_chain().last().hash == store_view(db)[spec_last_key()],
                Err(e) => e == Error::NotInitialized || e == Error::Storage,
            }),
            r == Err::<Blockchain, Error>(Error::NotInitialized) ==> !store_view(
                db,
            ).contains_key(spec_last_key()),
    {
        let lk = last_key();
        let tip = match store_get(&db, lk.as_slice()) {
            Ok(Some(v)) => v,
            Ok(None) => {
                return Err(Error::NotInitialized);
            },
            Err(e) => {
                return Err(e);
            },
        };
        let first = match Self::fetch_checked(&db, &tip) {
            Ok(b) => b,
            Err(e) => {
                return Err(e);
            },
        };
        let ghost a0: Seq<BlockView> = seq![first@];
        let mut acc: Ghost<Seq<BlockView>> = Ghost(a0);
        let mut cur = first.get_prev_hash();
        let h_top = first.get_height();
        let mut h = h_top;
        let ghost h0 = first@.height;
        while cur.len() > 0
            invariant
                acc@.len() >= 1,
                acc@[0].height == h0,
                h == acc@.last().height,
                cur@ == acc@.last().prev_block_hash,
                forall|j: int| 0 <= j < acc@.len() ==> (#[trigger] acc@[j]).height == h0 - j,
                forall|j: int|
                    0 <= j < acc@.len() - 1 ==> (#[trigger] acc@[j]).prev_block_hash == acc@[j
                        + 1].hash,
                forall|j: int| 0 <= j < acc@.len() ==> (#[trigger] acc@[j]).hash.len() == 64,
                forall|j: int| 0 <= j < acc@.len() ==> difficulty_ok((#[trigger] acc@[j]).hash),
                forall|j: int| 0 <= j < acc@.len() ==> block_len_ok(#[trigger] acc@[j]),
                forall|j: int|
                    0 <= j < acc@.len() ==> txs_values_ok((#[trigger] acc@[j]).transactions),
                forall|j: int|
                    0 <= j < acc@.len() ==> store_view(db).contains_key((#[trigger] acc@[j]).hash)
                        && store_view(db)[acc@[j].hash] == enc_block(acc@[j]),
                acc@[0].hash == tip@,
                acc@.len() == h0 - h + 1,
            decreases h,
        {
            if h == 0 {
                return Err(Error::Storage);
            }
            let b = match Self::fetch_checked(&db, &cur) {
                Ok(b) => b,
                Err(e) => {
                    return Err(e);
                },
            };
            if b.get_height() != h - 1 {
                return Err(Error::Storage);
            }
            acc = Ghost(acc@.push(b@));
            cur = b.get_prev_hash();
            h = h - 1;
        }
        if h != 0 {
            return Err(Error::Storage);
        }
        let bc = Blockchain {
            current_hash: tip,
            height: h_top,
            db,
            chain: Ghost(acc@.reverse()),
        };
        proof {
            let a = acc@;
            let c = bc.chain@;
            let n = a.len() as int;
            assert(c.len() == n);
            assert(a.last().height == 0 && h0 == n - 1);
            assert(forall|i: int| 0 <= i < n ==> #[trigger] c[i] == a[n - 1 - i]);
            assert(c[0].prev_block_hash.len() == 0) by {
                assert(c[0] == a[n - 1]);
                assert(a.last() == a[n - 1]);
                assert(cur@.len() == 0);
            }
            assert(bc.current_hash@ == c.last().hash) by {
                assert(c.last() == c[n - 1]);
                assert(c[n - 1] == a[0]);
            }
            assert forall|i: int| 1 <= i < n implies (#[trigger] c[i]).prev_block_hash == c[i
                - 1].hash by {
                assert(c[i] == a[n - 1 - i]);
                assert(c[i - 1] == a[n - i]);
                assert(a[n - 1 - i].prev_block_hash == a[n - i].hash);
            }
            assert forall|i: int| 0 <= i < n implies (#[trigger] c[i]).height == i by {
                assert(c[i] == a[n - 1 - i]);
                assert(a[n - 1 - i].height == h0 - (n - 1 - i));
            }
            assert(bc.wf());
        }
        Ok(bc)
    }

    /// Fetch the record stored under `key` and check it: it must decode
    /// to a block that re-encodes to the very same bytes, whose own hash
    /// is the 64-digit key, which meets the difficulty and carries sane
    /// amounts.
    fn fetch_checked(db: &sled::Db, key: &Vec<u8>) -> (r: Result<Block, Error>)
        ensures
            (match r {
                Ok(b) => {
                    &&& store_view(*db).contains_key(key@)
                    &&& store_view(*db)[key@] == enc_block(b@)
                    &&& b@.hash == key@
                    &&& b@.hash.len() == 64
                    &&& difficulty_ok(b@.hash)
                    &&& block_len_ok(b@)
                    &&& txs_values_ok(b@.transactions)
                },
                Err(e) => e == Error::Storage,
            }),
    {
        let bytes = match store_get(db, key.as_slice()) {
            Ok(Some(v)) => v,
            Ok(None) => {
                return Err(Error::Storage);
            },
            Err(e) => {
                return Err(e);
            },
        };
        let b = match decode_block(bytes.as_slice()) {
            Some(b) => b,
            None => {
                return Err(Error::Storage);
            },
        };
        let reenc = encode_block(&b);
        if !bytes_eq(reenc.as_slice(), bytes.as_slice()) {
            return Err(Error::Storage);
        }
        if b.hash.len() != 64 {
            return Err(Error::Storage);
        }
        if !bytes_eq(b.hash.as_slice(), key.as_slice()) {
            return Err(Error::Storage);
        }
        if !b.check_difficulty() {
            return Err(Error::Storage);
        }
        if !values_ok_check(&b.transaction) {
            return Err(Error::Storage);
        }
        Ok(b)
    }

    /// Append a batch of transactions: seal a new block whose parent is
    /// the tip, at the next height, write it under its hash, move the tip
    /// key to it, and advance the in-memory tip. The two writes are
    /// sequential, not atomic: a failure in between leaves an unreferenced
    /// but valid block record behind.
    pub fn add_block(&mut self, data: Vec<Transaction>) -> (r: Result<(), Error>)
        requires
            old(self).wf(),
            old(self).spec_chain().len() < usize::MAX,
            txs_values_ok(data.deep_view()),
        ensures
            (match r {
                Ok(()) => {
                    &&& final(self).wf()
                    &&& final(self).spec_chain().len() == old(self).spec_chain().len() + 1
                    &&& final(self).spec_chain().drop_last() == old(self).spec_chain()
                    &&& final(self).spec_chain().last().transactions == data.deep_view()
                    &&& final(self).spec_chain().last().prev_block_hash == old(
                        self,
                    ).spec_chain().last().hash
                    &&& final(self).spec_chain().last().height == old(self).spec_chain().len()
                    &&& sealed(final(self).spec_chain().last())
                },
                Err(e) => e == Error::Clock || e == Error::NonceExhausted || e == Error::Storage,
            }),
    {
        let prev_hash = clone_bytes(&self.current_hash);
        let nb = match Block::new_block(data, prev_hash, self.height + 1) {
            Ok(b) => b,
            Err(e) => {
                return Err(e);
            },
        };
        let bytes = encode_block(&nb);
        let h = nb.get_hash();
        match store_get(&self.db, h.as_slice()) {
            Ok(None) => (),
            Ok(Some(_)) => {
                return Err(Error::Storage);
            },
            Err(e) => {
                return Err(e);
            },
        }
        match store_put(&mut self.db, h.as_slice(), bytes.as_slice()) {
            Ok(()) => (),
            Err(e) => {
                return Err(e);
            },
        }
        let lk = last_key();
        match store_put(&mut self.db, lk.as_slice(), h.as_slice()) {
            Ok(()) => (),
            Err(e) => {
                return Err(e);
            },
        }
        let ghost oldchain = self.chain@;
        self.current_hash = h;
        self.height = self.height + 1;
        self.chain = Ghost(oldchain.push(nb@));
        proof {
            let c = self.chain@;
            let n = oldchain.len() as int;
            assert(c.len() == n + 1);
            assert(c.last() == nb@);
            assert(c.drop_last() =~= oldchain);
            assert(nb@.hash != spec_last_key());
            assert forall|i: int| 0 <= i < n implies #[trigger] c[i] == oldchain[i] by {}
            assert forall|i: int|
                0 <= i < c.len() implies store_view(self.db).contains_key((#[trigger] c[i]).hash)
                    && store_view(self.db)[c[i].hash] == enc_block(c[i]) by {
                if i < n {
                    assert(oldchain[i].hash != nb@.hash);
                    assert(oldchain[i].hash != spec_last_key());
                }
            }
            assert(nb@.prev_block_hash == oldchain.last().hash);
            assert(self.wf());
        }
        Ok(())
    }

    /// A one-shot backward cursor starting at the tip.
    pub fn iter(&self) -> (r: BlockchainIter)
        requires
            self.wf(),
        ensures
            r.wf(),
            r.ledger() == self,
            r.pos() == 0,
    {
        let it = BlockchainIter {
            current_hash: clone_bytes(&self.current_hash),
            bc: self,
            pos: Ghost(0),
        };
        proof {
            let c = self.chain@;
            assert(self.tip_first()[0] == c[c.len() - 1]);
            assert(c.last() == c[c.len() - 1]);
        }
        it
    }
}

/// Where backward traversal stands after `steps` hops: starting from the
/// hash `h`, each hop looks the current hash up in the store, decodes the
/// record, and moves to its parent hash. `None` when a hop finds no
/// record or one that does not decode.
pub open spec fn spec_walk(m: Map<Seq<u8>, Seq<u8>>, h: Seq<u8>, steps: nat) -> Option<Seq<u8>>
    decreases steps,
{
    if steps == 0 {
        Some(h)
    } else if m.contains_key(h) {
        match dec_block(m[h], 0) {
            Some(t) => spec_walk(m, t.0.prev_block_hash, (steps - 1) as nat),
            None => None,
        }
    } else {
        None
    }
}

/// Chain reachability: following `prev_hash` from the tip, every hop up
/// to the tip height lands on a block of the chain, and after exactly
/// `height + 1` hops the walk stands on the empty hash — the genesis
/// block's parent, which is never a store key.
pub proof fn lemma_chain_reachability(bc: &Blockchain)
    requires
        bc.wf(),
    ensures
        forall|s: int|
            0 <= s <= bc.spec_chain().len() - 1 ==> #[trigger] spec_walk(
                store_view(bc.db),
                bc.spec_chain().last().hash,
                s as nat,
            ) == Some(bc.spec_chain()[bc.spec_chain().len() - 1 - s].hash),
        spec_walk(
            store_view(bc.db),
            bc.spec_chain().last().hash,
            bc.spec_chain().len() as nat,
        ) == Some(Seq::<u8>::empty()),
        bc.spec_chain().len() == bc.spec_chain().last().height + 1,
{
    let m = store_view(bc.db);
    let c = bc.spec_chain();
    let n = c.len() as int;
    assert(c.last() == c[n - 1]);
    assert forall|s: int|
        0 <= s <= n - 1 implies #[trigger] spec_walk(m, c[n - 1].hash, s as nat) == Some(
        c[n - 1 - s].hash) by {
        lemma_walk_steps(bc, s);
    }
    lemma_walk_steps(bc, n - 1);
    assert(spec_walk(m, c[n - 1].hash, (n - 1) as nat) == Some(c[0].hash));
    lemma_walk_one(bc, 0);
    lemma_walk_append(m, c[n - 1].hash, (n - 1) as nat, c[0].hash);
    assert(c[0].prev_block_hash =~= Seq::<u8>::empty());
}

/// One hop from chain position `i` lands on the parent's hash.
proof fn lemma_walk_one(bc: &Blockchain, i: int)
    requires
        bc.wf(),
        0 <= i < bc.spec_chain().len(),
    ensures
        spec_walk(store_view(bc.db), bc.spec_chain()[i].hash, 1) == Some(
            bc.spec_chain()[i].prev_block_hash,
        ),
{
    let m = store_view(bc.db);
    let c = bc.spec_chain();
    assert(m.contains_key(c[i].hash) && m[c[i].hash] == enc_block(c[i]));
    lemma_block_round_trip(c[i]);
    assert(dec_block(m[c[i].hash], 0) == Some((c[i], enc_block(c[i]).len() as int)));
    assert(spec_walk(m, c[i].prev_block_hash, 0) == Some(c[i].prev_block_hash));
}

/// Walking `s` steps from the tip lands on the block `s` places before
/// it.
proof fn lemma_walk_steps(bc: &Blockchain, s: int)
    requires
        bc.wf(),
        0 <= s <= bc.spec_chain().len() - 1,
    ensures
        spec_walk(store_view(bc.db), bc.spec_chain().last().hash, s as nat) == Some(
            bc.spec_chain()[bc.spec_chain().len() - 1 - s].hash,
        ),
    decreases s,
{
    let m = store_view(bc.db);
    let c = bc.spec_chain();
    let n = c.len() as int;
    assert(c.last() == c[n - 1]);
    if s > 0 {
        lemma_walk_steps(bc, s - 1);
        lemma_walk_one(bc, n - s);
        assert(c[n - s].prev_block_hash == c[n - s - 1].hash);
        lemma_walk_append(m, c[n - 1].hash, (s - 1) as nat, c[n - s].hash);
    }
}

/// Extending a successful walk by one hop evaluates the hop at its end.
proof fn lemma_walk_append(m: Map<Seq<u8>, Seq<u8>>, h: Seq<u8>, s: nat, at: Seq<u8>)
    requires
        spec_walk(m, h, s) == Some(at),
    ensures
        spec_walk(m, h, (s + 1) as nat) == spec_walk(m, at, 1),
    decreases s,
{
    if s > 0 {
        if m.contains_key(h) {
            match dec_block(m[h], 0) {
                Some(t) => {
                    lemma_walk_append(m, t.0.prev_block_hash, (s - 1) as nat, at);
                },
                None => {},
            }
        }
    }
}

/// A cursor over the chain, tip to genesis: each step looks the current
/// hash up in the store, yields the decoded block, and moves to that
/// block's parent. The sequence ends after the genesis block, whose
/// parent hash is empty and is never a store key; it also ends early if
/// the store fails or a record does not decode.
pub struct BlockchainIter<'a> {
    pub current_hash: Vec<u8>,
    pub bc: &'a Blockchain,
    pub pos: Ghost<int>,
}

impl<'a> BlockchainIter<'a> {
    /// The ledger this cursor walks.
    pub open spec fn ledger(self) -> &'a Blockchain {
        self.bc
    }

    /// How many blocks were yielded so far.
    pub open spec fn pos(self) -> int {
        self.pos@
    }

    /// The cursor is at position `pos` of the tip-first traversal: its
    /// current hash is that block's hash, or empty once past genesis.
    pub open spec fn wf(self) -> bool {
        let c = self.bc.chain@;
        &&& self.bc.wf()
        &&& 0 <= self.pos@ <= c.len()
        &&& (self.pos@ < c.len() ==> self.current_hash@ == c[c.len() - 1 - self.pos@].hash)
        &&& (self.pos@ == c.len() ==> self.current_hash@.len() == 0)
    }

    /// Yield the block at the cursor and advance toward genesis. `None`
    /// once the chain is exhausted, or when the store fails or hands back
    /// a record that does not decode; in that case the cursor stays put.
    pub fn next(&mut self) -> (r: Option<Block>)
        requires
            old(self).wf(),
        ensures
            final(self).wf(),
            final(self).ledger() == old(self).ledger(),
            (match r {
                Some(b) => {
                    &&& old(self).pos() < old(self).bc.chain@.len()
                    &&& b@ == old(self).bc.tip_first()[old(self).pos()]
                    &&& final(self).pos() == old(self).pos() + 1
                },
                None => final(self).pos() == old(self).pos(),
            }),
    {
        let ghost c = self.bc.chain@;
        if self.current_hash.len() == 0 {
            return None;
        }
        let ghost k = c.len() - 1 - self.pos@;
        let bytes = match store_get(&self.bc.db, self.current_hash.as_slice()) {
            Ok(Some(v)) => v,
            Ok(None) => {
                return None;
            },
            Err(_) => {
                return None;
            },
        };
        proof {
            assert(store_view(self.bc.db)[c[k].hash] == enc_block(c[k]));
            assert(bytes@ == enc_block(c[k]));
            lemma_block_round_trip(c[k]);
        }
        let block = match decode_block(bytes.as_slice()) {
            Some(b) => b,
            None => {
                return None;
            },
        };
        proof {
            assert(block@ == c[k]);
            assert(self.bc.tip_first()[self.pos@] == c[k]);
        }
        self.current_hash = block.get_prev_hash();
        self.pos = Ghost(self.pos@ + 1);
        proof {
            if k > 0 {
                assert(c[k].prev_block_hash == c[k - 1].hash);
            }
        }
        Some(block)
    }
}

} // verus!
