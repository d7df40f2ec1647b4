//! The UTXO resolver: derive spendable outputs and balances by rescanning
//! the chain from the tip.
//!
//! The scan walks blocks tip to genesis and, inside each block, its
//! transactions in order. For each transaction the outputs are judged
//! first, against the spent-set gathered so far; then, for non-coinbase
//! transactions, the inputs that belong to the queried address are folded
//! into the spent-set. Nothing is cached: every query rescans.

use vstd::prelude::*;
use crate::block::{Block, BlockView};
use crate::blockchain::Blockchain;
use crate::bytes::{bytes_eq, clone_bytes, lemma_vec_deep_push};
use crate::errors::Error;
use crate::hashing::{sha256_hex, sha256_hex_of};
use crate::transaction::{tx_values_ok, txs_values_ok, Transaction, TransactionView, REWARD};
use crate::tx::{TxInput, TxInputView, TxOutput, TxOutputView};

verus! {

// ------------------------------------------------------------------
// The scan, as a mathematical fold over the chain in traversal order.
// ------------------------------------------------------------------

/// A transaction found to hold spendable outputs, with the indices of
/// those outputs.
pub struct Candidate {
    /// The transaction itself.
    pub tx: Transaction,
    /// Indices of its unspent outputs locked to the queried address.
    pub indices: Vec<i32>,
}

/// The mathematical value of a `Candidate`.
#[verifier::ext_equal]
pub struct CandidateView {
    pub tx: TransactionView,
    pub indices: Seq<i32>,
}

impl View for Candidate {
    type V = CandidateView;

    open spec fn view(&self) -> CandidateView {
        CandidateView { tx: self.tx@, indices: self.indices@ }
    }
}

impl DeepView for Candidate {
    type V = CandidateView;

    open spec fn deep_view(&self) -> CandidateView {
        self.view()
    }
}

/// A consumed output reference: the marker the spent-set holds.
pub struct OutPoint {
    pub txid: Vec<u8>,
    pub vout: i32,
}

impl View for OutPoint {
    type V = (Seq<u8>, i32);

    open spec fn view(&self) -> (Seq<u8>, i32) {
        (self.txid@, self.vout)
    }
}

impl DeepView for OutPoint {
    type V = (Seq<u8>, i32);

    open spec fn deep_view(&self) -> (Seq<u8>, i32) {
        self.view()
    }
}

/// The scan's running state: which output references were consumed, and
/// which candidate transactions were found, in traversal order.
#[verifier::ext_equal]
pub struct ScanState {
    pub spent: Seq<(Seq<u8>, i32)>,
    pub found: Seq<CandidateView>,
}

/// The spent-set holds this output reference.
pub open spec fn spent_contains(spent: Seq<(Seq<u8>, i32)>, txid: Seq<u8>, idx: i32) -> bool {
    exists|j: int| 0 <= j < spent.len() && spent[j] == (txid, idx)
}

/// The candidate output indices of `t`'s first `n` outputs: not yet
/// spent, and locked to `addr`.
pub open spec fn cand_idx_upto(
    spent: Seq<(Seq<u8>, i32)>,
    t: TransactionView,
    addr: Seq<u8>,
    n: nat,
) -> Seq<i32>
    decreases n,
{
    if n == 0 {
        Seq::empty()
    } else {
        let rest = cand_idx_upto(spent, t, addr, (n - 1) as nat);
        if !spent_contains(spent, t.id, (n - 1) as i32) && t.vout[n - 1].pub_key_hash == addr {
            rest.push((n - 1) as i32)
        } else {
            rest
        }
    }
}

/// All candidate output indices of `t` against the given spent-set.
pub open spec fn tx_candidates(
    spent: Seq<(Seq<u8>, i32)>,
    t: TransactionView,
    addr: Seq<u8>,
) -> Seq<i32> {
    cand_idx_upto(spent, t, addr, t.vout.len())
}

/// The output references consumed by `t`'s first `n` inputs on behalf of
/// `addr`: those whose public key hashes to the address.
pub open spec fn spent_add_upto(t: TransactionView, addr: Seq<u8>, n: nat) -> Seq<(Seq<u8>, i32)>
    decreases n,
{
    if n == 0 {
        Seq::empty()
    } else {
        let rest = spent_add_upto(t, addr, (n - 1) as nat);
        if t.vin[n - 1].spec_can_unlock(addr) {
            rest.push((t.vin[n - 1].txid, t.vin[n - 1].vout))
        } else {
            rest
        }
    }
}

/// What `t` adds to the spent-set: nothing for a coinbase transaction.
pub open spec fn tx_spent_additions(t: TransactionView, addr: Seq<u8>) -> Seq<(Seq<u8>, i32)> {
    if t.spec_is_coinbase() {
        Seq::empty()
    } else {
        spent_add_upto(t, addr, t.vin.len())
    }
}

/// One scan step: judge `t`'s outputs against the current spent-set, then
/// fold `t`'s own inputs in.
pub open spec fn scan_tx(st: ScanState, t: TransactionView, addr: Seq<u8>) -> ScanState {
    let cands = tx_candidates(st.spent, t, addr);
    ScanState {
        spent: st.spent + tx_spent_additions(t, addr),
        found: if cands.len() > 0 {
            st.found.push(CandidateView { tx: t, indices: cands })
        } else {
            st.found
        },
    }
}

/// Scan the first `n` transactions of a block, in order.
pub open spec fn scan_txs_upto(
    st: ScanState,
    txs: Seq<TransactionView>,
    addr: Seq<u8>,
    n: nat,
) -> ScanState
    decreases n,
{
    if n == 0 {
        st
    } else {
        scan_tx(scan_txs_upto(st, txs, addr, (n - 1) as nat), txs[n - 1], addr)
    }
}

/// Scan the first `n` blocks of the traversal, tip first.
pub open spec fn scan_blocks_upto(
    st: ScanState,
    blocks: Seq<BlockView>,
    addr: Seq<u8>,
    n: nat,
) -> ScanState
    decreases n,
{
    if n == 0 {
        st
    } else {
        scan_txs_upto(
            scan_blocks_upto(st, blocks, addr, (n - 1) as nat),
            blocks[n - 1].transactions,
            addr,
            blocks[n - 1].transactions.len(),
        )
    }
}

/// The scan's starting state: nothing spent, nothing found.
pub open spec fn scan_init() -> ScanState {
    ScanState { spent: Seq::empty(), found: Seq::empty() }
}

/// The candidate transactions of a chain traversal for an address.
pub open spec fn spec_candidates(blocks: Seq<BlockView>, addr: Seq<u8>) -> Seq<CandidateView> {
    scan_blocks_upto(scan_init(), blocks, addr, blocks.len()).found
}

/// The candidates' transactions alone.
pub open spec fn cands_txs(found: Seq<CandidateView>) -> Seq<TransactionView> {
    found.map_values(|c: CandidateView| c.tx)
}

/// The candidates' outputs, flattened in order.
pub open spec fn cands_outputs_upto(found: Seq<CandidateView>, n: nat) -> Seq<TxOutputView>
    decreases n,
{
    if n == 0 {
        Seq::empty()
    } else {
        cands_outputs_upto(found, (n - 1) as nat) + cand_outputs(found[n - 1])
    }
}

/// One candidate's picked outputs, in index order.
pub open spec fn cand_outputs(c: CandidateView) -> Seq<TxOutputView> {
    c.indices.map_values(|i: i32| c.tx.vout[i as int])
}

/// The value carried by the first `n` picked indices of one candidate.
pub open spec fn indices_total_upto(t: TransactionView, idxs: Seq<i32>, n: nat) -> int
    decreases n,
{
    if n == 0 {
        0
    } else {
        indices_total_upto(t, idxs, (n - 1) as nat) + t.vout[idxs[n - 1] as int].value
    }
}

/// The value carried by one candidate's picked outputs.
pub open spec fn indices_total(t: TransactionView, idxs: Seq<i32>) -> int {
    indices_total_upto(t, idxs, idxs.len())
}

/// The value carried by the first `n` candidates.
pub open spec fn cands_total_upto(found: Seq<CandidateView>, n: nat) -> int
    decreases n,
{
    if n == 0 {
        0
    } else {
        cands_total_upto(found, (n - 1) as nat) + indices_total(
            found[n - 1].tx,
            found[n - 1].indices,
        )
    }
}

/// The total spendable value an address holds in a chain traversal.
pub open spec fn spec_address_total(blocks: Seq<BlockView>, addr: Seq<u8>) -> int {
    cands_total_upto(spec_candidates(blocks, addr), spec_candidates(blocks, addr).len())
}

/// The greedy pick over one candidate's first `n` indices: add an output
/// while the accumulated value still sits below `amount`.
pub open spec fn select_idx_upto(
    t: TransactionView,
    idxs: Seq<i32>,
    amount: int,
    acc0: int,
    n: nat,
) -> (int, Seq<i32>)
    decreases n,
{
    if n == 0 {
        (acc0, Seq::empty())
    } else {
        let r = select_idx_upto(t, idxs, amount, acc0, (n - 1) as nat);
        if r.0 < amount {
            (r.0 + t.vout[idxs[n - 1] as int].value, r.1.push(idxs[n - 1]))
        } else {
            r
        }
    }
}

/// The greedy pick over the first `n` candidates: keep adding outputs
/// while the accumulated value sits below `amount`; keep scanning either
/// way.
pub open spec fn select_cands_upto(found: Seq<CandidateView>, amount: int, n: nat) -> (
    int,
    Seq<(Seq<u8>, Seq<i32>)>,
)
    decreases n,
{
    if n == 0 {
        (0, Seq::empty())
    } else {
        let r = select_cands_upto(found, amount, (n - 1) as nat);
        let c = found[n - 1];
        let p = select_idx_upto(c.tx, c.indices, amount, r.0, c.indices.len());
        if p.1.len() > 0 {
            (p.0, r.1.push((c.tx.id, p.1)))
        } else {
            (p.0, r.1)
        }
    }
}

/// The greedy selection over a candidate list.
pub open spec fn spec_select(found: Seq<CandidateView>, amount: int) -> (
    int,
    Seq<(Seq<u8>, Seq<i32>)>,
) {
    select_cands_upto(found, amount, found.len())
}

// ------------------------------------------------------------------
// Facts about the scan that the finders' contracts lean on.
// ------------------------------------------------------------------

/// A candidate is sane: its picked indices point at real outputs and its
/// transaction carries sane amounts.
pub open spec fn cand_ok(c: CandidateView) -> bool {
    &&& tx_values_ok(c.tx)
    &&& forall|j: int| 0 <= j < c.indices.len() ==> 0 <= #[trigger] c.indices[j] < c.tx.vout.len()
}

/// Every candidate of the list is sane.
pub open spec fn cands_ok(found: Seq<CandidateView>) -> bool {
    forall|j: int| 0 <= j < found.len() ==> cand_ok(#[trigger] found[j])
}

proof fn lemma_cand_idx_range(
    spent: Seq<(Seq<u8>, i32)>,
    t: TransactionView,
    addr: Seq<u8>,
    n: nat,
)
    requires
        n <= t.vout.len() <= i32::MAX,
    ensures
        forall|j: int|
            0 <= j < cand_idx_upto(spent, t, addr, n).len() ==> 0 <= #[trigger] cand_idx_upto(
                spent,
                t,
                addr,
                n,
            )[j] < n,
    decreases n,
{
    if n > 0 {
        lemma_cand_idx_range(spent, t, addr, (n - 1) as nat);
        let s = cand_idx_upto(spent, t, addr, n);
        let rest = cand_idx_upto(spent, t, addr, (n - 1) as nat);
        assert forall|j: int| 0 <= j < s.len() implies 0 <= #[trigger] s[j] < n by {
            if s.len() == rest.len() + 1 && j == rest.len() {
                assert(s[j] == (n - 1) as i32);
            } else {
                assert(s[j] == rest[j]);
            }
        }
    }
}

proof fn lemma_indices_total_nonneg(t: TransactionView, idxs: Seq<i32>, n: nat)
    requires
        tx_values_ok(t),
        n <= idxs.len(),
        forall|j: int| 0 <= j < idxs.len() ==> 0 <= #[trigger] idxs[j] < t.vout.len(),
    ensures
        indices_total_upto(t, idxs, n) >= 0,
    decreases n,
{
    if n > 0 {
        lemma_indices_total_nonneg(t, idxs, (n - 1) as nat);
    }
}

proof fn lemma_scan_tx_props(st: ScanState, t: TransactionView, addr: Seq<u8>)
    requires
        tx_values_ok(t),
        cands_ok(st.found),
    ensures
        cands_ok(scan_tx(st, t, addr).found),
        cands_total_upto(scan_tx(st, t, addr).found, scan_tx(st, t, addr).found.len())
            >= cands_total_upto(st.found, st.found.len()),
        scan_tx(st, t, addr).found.len() >= st.found.len(),
    decreases 0nat,
{
    let cands = tx_candidates(st.spent, t, addr);
    lemma_cand_idx_range(st.spent, t, addr, t.vout.len());
    if cands.len() > 0 {
        let c = CandidateView { tx: t, indices: cands };
        assert(cand_ok(c));
        let f2 = st.found.push(c);
        assert(f2.len() == st.found.len() + 1);
        assert(f2[f2.len() - 1] == c);
        assert(cands_ok(f2)) by {
            assert(forall|j: int| 0 <= j < st.found.len() ==> f2[j] == st.found[j]);
        }
        assert(cands_total_upto(f2, f2.len()) == cands_total_upto(f2, st.found.len())
            + indices_total(c.tx, c.indices));
        lemma_cands_total_upto_agree(st.found, f2, st.found.len());
        lemma_indices_total_nonneg(c.tx, c.indices, c.indices.len());
    }
}

/// The running total over the first `n` candidates only reads those
/// candidates: two lists agreeing there agree on it.
proof fn lemma_cands_total_upto_agree(f1: Seq<CandidateView>, f2: Seq<CandidateView>, n: nat)
    requires
        n <= f1.len(),
        n <= f2.len(),
        forall|j: int| 0 <= j < n ==> #[trigger] f1[j] == f2[j],
    ensures
        cands_total_upto(f1, n) == cands_total_upto(f2, n),
    decreases n,
{
    if n > 0 {
        lemma_cands_total_upto_agree(f1, f2, (n - 1) as nat);
    }
}

proof fn lemma_scan_txs_props(st: ScanState, txs: Seq<TransactionView>, addr: Seq<u8>, n: nat)
    requires
        n <= txs.len(),
        txs_values_ok(txs),
        cands_ok(st.found),
    ensures
        cands_ok(scan_txs_upto(st, txs, addr, n).found),
        cands_total_upto(
            scan_txs_upto(st, txs, addr, n).found,
            scan_txs_upto(st, txs, addr, n).found.len(),
        ) >= cands_total_upto(st.found, st.found.len()),
    decreases n,
{
    if n > 0 {
        lemma_scan_txs_props(st, txs, addr, (n - 1) as nat);
        lemma_scan_tx_props(scan_txs_upto(st, txs, addr, (n - 1) as nat), txs[n - 1], addr);
    }
}

proof fn lemma_scan_blocks_props(st: ScanState, blocks: Seq<BlockView>, addr: Seq<u8>, n: nat)
    requires
        n <= blocks.len(),
        forall|i: int| 0 <= i < blocks.len() ==> txs_values_ok((#[trigger] blocks[i]).transactions),
        cands_ok(st.found),
    ensures
        cands_ok(scan_blocks_upto(st, blocks, addr, n).found),
        cands_total_upto(
            scan_blocks_upto(st, blocks, addr, n).found,
            scan_blocks_upto(st, blocks, addr, n).found.len(),
        ) >= cands_total_upto(st.found, st.found.len()),
    decreases n,
{
    if n > 0 {
        lemma_scan_blocks_props(st, blocks, addr, (n - 1) as nat);
        let mid = scan_blocks_upto(st, blocks, addr, (n - 1) as nat);
        lemma_scan_txs_props(mid, blocks[n - 1].transactions, addr, blocks[n - 1].transactions.len());
    }
}

/// Scanning a prefix of the traversal is the truncated scan: the first
/// `n` steps only read the first `n` blocks.
proof fn lemma_scan_blocks_take(
    st: ScanState,
    blocks: Seq<BlockView>,
    addr: Seq<u8>,
    k: int,
    n: nat,
)
    requires
        0 <= k <= blocks.len(),
        n <= k,
    ensures
        scan_blocks_upto(st, blocks.take(k), addr, n) == scan_blocks_upto(st, blocks, addr, n),
    decreases n,
{
    if n > 0 {
        lemma_scan_blocks_take(st, blocks, addr, k, (n - 1) as nat);
        assert(blocks.take(k)[n - 1] == blocks[n - 1]);
    }
}

/// The scan only grows its candidate list, so the total over a prefix of
/// the traversal never exceeds the total over the whole of it.
pub proof fn lemma_prefix_total_le(blocks: Seq<BlockView>, addr: Seq<u8>, k: int)
    requires
        0 <= k <= blocks.len(),
        forall|i: int| 0 <= i < blocks.len() ==> txs_values_ok((#[trigger] blocks[i]).transactions),
    ensures
        cands_ok(spec_candidates(blocks.take(k), addr)),
        cands_total_upto(
            spec_candidates(blocks.take(k), addr),
            spec_candidates(blocks.take(k), addr).len(),
        ) <= spec_address_total(blocks, addr),
    decreases blocks.len() - k,
{
    lemma_scan_blocks_take(scan_init(), blocks, addr, k, k as nat);
    assert(blocks.take(k).len() == k);
    lemma_scan_blocks_props(scan_init(), blocks, addr, k as nat);
    if k < blocks.len() {
        lemma_prefix_up_step(blocks, addr, k as nat);
        lemma_prefix_total_le(blocks, addr, k + 1);
        lemma_scan_blocks_take(scan_init(), blocks, addr, k + 1, (k + 1) as nat);
        assert(blocks.take(k + 1).len() == k + 1);
    }
}

/// One more block scanned never shrinks the total.
proof fn lemma_prefix_up_step(blocks: Seq<BlockView>, addr: Seq<u8>, k: nat)
    requires
        k < blocks.len(),
        forall|i: int| 0 <= i < blocks.len() ==> txs_values_ok((#[trigger] blocks[i]).transactions),
    ensures
        cands_total_upto(
            scan_blocks_upto(scan_init(), blocks, addr, k).found,
            scan_blocks_upto(scan_init(), blocks, addr, k).found.len(),
        ) <= cands_total_upto(
            scan_blocks_upto(scan_init(), blocks, addr, (k + 1) as nat).found,
            scan_blocks_upto(scan_init(), blocks, addr, (k + 1) as nat).found.len(),
        ),
{
    lemma_scan_blocks_props(scan_init(), blocks, addr, k);
    let mid = scan_blocks_upto(scan_init(), blocks, addr, k);
    lemma_scan_txs_props(mid, blocks[k as int].transactions, addr, blocks[k as int].transactions.len());
}

/// The greedy pick never accumulates more than the candidates hold.
proof fn lemma_select_idx_bound(
    t: TransactionView,
    idxs: Seq<i32>,
    amount: int,
    acc0: int,
    n: nat,
)
    requires
        n <= idxs.len(),
        tx_values_ok(t),
        forall|j: int| 0 <= j < idxs.len() ==> 0 <= #[trigger] idxs[j] < t.vout.len(),
    ensures
        select_idx_upto(t, idxs, amount, acc0, n).0 <= acc0 + indices_total_upto(t, idxs, n),
        select_idx_upto(t, idxs, amount, acc0, n).0 >= acc0,
    decreases n,
{
    if n > 0 {
        lemma_select_idx_bound(t, idxs, amount, acc0, (n - 1) as nat);
    }
}

pub proof fn lemma_select_bound(found: Seq<CandidateView>, amount: int, n: nat)
    requires
        n <= found.len(),
        cands_ok(found),
    ensures
        select_cands_upto(found, amount, n).0 <= cands_total_upto(found, n),
        select_cands_upto(found, amount, n).0 >= 0,
    decreases n,
{
    if n > 0 {
        lemma_select_bound(found, amount, (n - 1) as nat);
        let r = select_cands_upto(found, amount, (n - 1) as nat);
        let c = found[n - 1];
        assert(cand_ok(c));
        lemma_select_idx_bound(c.tx, c.indices, amount, r.0, c.indices.len());
        lemma_indices_total_nonneg(c.tx, c.indices, c.indices.len());
        assert(indices_total_upto(c.tx, c.indices, c.indices.len()) >= 0);
    }
}

// ------------------------------------------------------------------
// The executable scan.
// ------------------------------------------------------------------

/// The spent-set holds this output reference.
fn spent_has(spent: &Vec<OutPoint>, txid: &Vec<u8>, idx: i32) -> (r: bool)
    ensures
        r == spent_contains(spent.deep_view(), txid@, idx),
{
    let n = spent.len();
    let mut u: usize = 0;
    while u < n
        invariant
            n == spent.len() && u <= n,
            forall|q: int| 0 <= q < u ==> #[trigger] spent.deep_view()[q] != (txid@, idx),
        decreases n - u,
    {
        proof {
            assert(spent.deep_view()[u as int] == spent@[u as int]@);
        }
        if spent[u].vout == idx && bytes_eq(spent[u].txid.as_slice(), txid.as_slice()) {
            assert(spent.deep_view()[u as int] == (txid@, idx));
            return true;
        }
        u = u + 1;
    }
    assert(!spent_contains(spent.deep_view(), txid@, idx));
    false
}

/// Read the chain from the tip into a vector, in traversal order. The
/// result is the tip-first traversal, cut short only where the store
/// fails or a record does not decode.
fn collect_blocks(bc: &Blockchain) -> (r: Vec<Block>)
    requires
        bc.wf(),
    ensures
        exists|k: int|
            0 <= k <= bc.spec_chain().len() && r.deep_view() == #[trigger] bc.tip_first().take(k),
{
    let mut it = bc.iter();
    let mut out: Vec<Block> = Vec::new();
    loop
        invariant
            it.wf(),
            it.ledger() == bc,
            bc.wf(),
            out@.len() == it.pos(),
            out.deep_view() == bc.tip_first().take(it.pos()),
        decreases bc.spec_chain().len() - it.pos(),
    {
        match it.next() {
            Some(b) => {
                let ghost pre = out;
                let ghost bvv = b;
                out.push(b);
                proof {
                    lemma_vec_deep_push(pre, out, bvv);
                    assert(out.deep_view() =~= bc.tip_first().take(it.pos()));
                }
            },
            None => {
                proof {
                    assert(out.deep_view() == bc.tip_first().take(it.pos()));
                }
                return out;
            },
        }
    }
}

impl Blockchain {
    /// Scan the chain for the address's candidate transactions: for each
    /// transaction, the outputs are judged against the spent-set gathered
    /// so far (outputs first, then the transaction's own inputs are
    /// folded in), tip to genesis.
    fn scan_candidates(&self, address: &[u8]) -> (r: Vec<Candidate>)
        requires
            self.wf(),
        ensures
            exists|k: int|
                0 <= k <= self.spec_chain().len() && r.deep_view() == #[trigger] spec_candidates(
                    self.tip_first().take(k),
                    address@,
                ),
    {
        let blocks = collect_blocks(self);
        let ghost k = choose|k: int|
            0 <= k <= self.spec_chain().len() && blocks.deep_view() == #[trigger] self.tip_first().take(
                k,
            );
        let ghost bv = blocks.deep_view();
        proof {
            assert forall|q: int|
                0 <= q < bv.len() implies txs_values_ok((#[trigger] bv[q]).transactions) by {
                assert(bv[q] == self.tip_first()[q]);
                assert(self.tip_first()[q] == self.spec_chain()[self.spec_chain().len() - 1 - q]);
            }
        }
        let mut spent: Vec<OutPoint> = Vec::new();
        let mut found: Vec<Candidate> = Vec::new();
        let nb = blocks.len();
        let mut i: usize = 0;
        while i < nb
            invariant
                nb == blocks.len() && i <= nb,
                bv == blocks.deep_view() && bv.len() == nb,
                forall|q: int| 0 <= q < bv.len() ==> txs_values_ok((#[trigger] bv[q]).transactions),
                spent.deep_view() == scan_blocks_upto(scan_init(), bv, address@, i as nat).spent,
                found.deep_view() == scan_blocks_upto(scan_init(), bv, address@, i as nat).found,
            decreases nb - i,
        {
            let ghost st_block = scan_blocks_upto(scan_init(), bv, address@, i as nat);
            let txs = blocks[i].get_transaction();
            let ghost tv = bv[i as int].transactions;
            proof {
                assert(bv[i as int] == blocks@[i as int].deep_view());
                assert(txs.deep_view() == tv);
            }
            let nt = txs.len();
            let mut j: usize = 0;
            while j < nt
                invariant
                    nt == txs.len() && j <= nt,
                    txs.deep_view() == tv && tv.len() == nt,
                    txs_values_ok(tv),
                    spent.deep_view() == scan_txs_upto(st_block, tv, address@, j as nat).spent,
                    found.deep_view() == scan_txs_upto(st_block, tv, address@, j as nat).found,
                decreases nt - j,
            {
                let tx = &txs[j];
                let ghost txv = tv[j as int];
                proof {
                    assert(tv[j as int] == txs@[j as int].deep_view());
                    assert(tx@ == txv);
                    assert(tx_values_ok(txv));
                }
                let ghost st_tx = scan_txs_upto(st_block, tv, address@, j as nat);
                let mut idxs: Vec<i32> = Vec::new();
                let mo = tx.vout.len();
                let mut o: usize = 0;
                while o < mo
                    invariant
                        mo == tx.vout.len() && o <= mo,
                        tx@ == txv && mo == txv.vout.len() && mo <= i32::MAX,
                        spent.deep_view() == st_tx.spent,
                        idxs@ == cand_idx_upto(st_tx.spent, txv, address@, o as nat),
                    decreases mo - o,
                {
                    let is_spent = spent_has(&spent, &tx.id, o as i32);
                    let matches_lock = tx.vout[o].can_be_unlocked_with(address);
                    proof {
                        assert(txv.vout[o as int] == tx.vout@[o as int]@);
                        assert(txv.id == tx.id@);
                    }
                    if !is_spent && matches_lock {
                        idxs.push(o as i32);
                        assert(idxs@ =~= cand_idx_upto(st_tx.spent, txv, address@, o as nat + 1));
                    } else {
                        assert(idxs@ =~= cand_idx_upto(st_tx.spent, txv, address@, o as nat + 1));
                    }
                    o = o + 1;
                }
                assert(idxs@ == tx_candidates(st_tx.spent, txv, address@));
                if idxs.len() > 0 {
                    let ghost prefound = found;
                    let c = Candidate { tx: tx.duplicate(), indices: idxs };
                    let ghost cv = c;
                    found.push(c);
                    proof {
                        lemma_vec_deep_push(prefound, found, cv);
                        assert(found.deep_view() =~= scan_tx(st_tx, txv, address@).found);
                    }
                } else {
                    assert(found.deep_view() =~= scan_tx(st_tx, txv, address@).found);
                }
                if !tx.is_coinbase() {
                    let ni = tx.vin.len();
                    let mut u: usize = 0;
                    while u < ni
                        invariant
                            ni == tx.vin.len() && u <= ni,
                            tx@ == txv && ni == txv.vin.len(),
                            spent.deep_view() == st_tx.spent + spent_add_upto(
                                txv,
                                address@,
                                u as nat,
                            ),
                        decreases ni - u,
                    {
                        proof {
                            assert(txv.vin[u as int] == tx.vin@[u as int]@);
                        }
                        if tx.vin[u].can_unlock_output_with(address) {
                            let ghost prespent = spent;
                            let p = OutPoint {
                                txid: clone_bytes(&tx.vin[u].txid),
                                vout: tx.vin[u].vout,
                            };
                            let ghost pv = p;
                            spent.push(p);
                            proof {
                                lemma_vec_deep_push(prespent, spent, pv);
                                assert(spent.deep_view() =~= st_tx.spent + spent_add_upto(
                                    txv,
                                    address@,
                                    u as nat + 1,
                                ));
                            }
                        } else {
                            assert(spent.deep_view() =~= st_tx.spent + spent_add_upto(
                                txv,
                                address@,
                                u as nat + 1,
                            ));
                        }
                        u = u + 1;
                    }
                    assert(spent.deep_view() =~= scan_tx(st_tx, txv, address@).spent);
                } else {
                    assert(spent.deep_view() =~= scan_tx(st_tx, txv, address@).spent) by {
                        assert(tx_spent_additions(txv, address@) == Seq::<(Seq<u8>, i32)>::empty());
                        assert(st_tx.spent + Seq::<(Seq<u8>, i32)>::empty() =~= st_tx.spent);
                    }
                }
                proof {
                    assert(scan_txs_upto(st_block, tv, address@, j as nat + 1) == scan_tx(
                        st_tx,
                        txv,
                        address@,
                    ));
                }
                j = j + 1;
            }
            proof {
                assert(scan_blocks_upto(scan_init(), bv, address@, i as nat + 1) == scan_txs_upto(
                    st_block,
                    tv,
                    address@,
                    tv.len(),
                ));
            }
            i = i + 1;
        }
        proof {
            assert(found.deep_view() == spec_candidates(self.tip_first().take(k), address@));
        }
        found
    }
}

/// A chosen prior transaction with the output indices picked from it.
pub struct Selection {
    /// Id of the prior transaction.
    pub txid: Vec<u8>,
    /// The picked output indices, in scan order.
    pub indices: Vec<i32>,
}

impl View for Selection {
    type V = (Seq<u8>, Seq<i32>);

    open spec fn view(&self) -> (Seq<u8>, Seq<i32>) {
        (self.txid@, self.indices@)
    }
}

impl DeepView for Selection {
    type V = (Seq<u8>, Seq<i32>);

    open spec fn deep_view(&self) -> (Seq<u8>, Seq<i32>) {
        self.view()
    }
}

proof fn lemma_select_idx_fit(t: TransactionView, idxs: Seq<i32>, amount: int, acc0: int, n: nat)
    requires
        n <= idxs.len(),
        amount >= 0,
        acc0 == 0 || acc0 <= amount - 1 + i32::MAX,
    ensures
        select_idx_upto(t, idxs, amount, acc0, n).0 == 0 || select_idx_upto(
            t,
            idxs,
            amount,
            acc0,
            n,
        ).0 <= amount - 1 + i32::MAX,
    decreases n,
{
    if n > 0 {
        lemma_select_idx_fit(t, idxs, amount, acc0, (n - 1) as nat);
    }
}

/// The accumulated value stays within one output of the requested
/// amount: what makes the change output representable.
proof fn lemma_select_fit(found: Seq<CandidateView>, amount: int, n: nat)
    requires
        n <= found.len(),
        amount >= 0,
    ensures
        select_cands_upto(found, amount, n).0 == 0 || select_cands_upto(found, amount, n).0
            <= amount - 1 + i32::MAX,
    decreases n,
{
    if n > 0 {
        lemma_select_fit(found, amount, (n - 1) as nat);
        let r = select_cands_upto(found, amount, (n - 1) as nat);
        let c = found[n - 1];
        lemma_select_idx_fit(c.tx, c.indices, amount, r.0, c.indices.len());
    }
}

impl Blockchain {
    /// The transactions that hold at least one spendable output locked to
    /// the address, in traversal order.
    pub fn find_unspent_transactions(&self, address: &[u8]) -> (r: Vec<Transaction>)
        requires
            self.wf(),
        ensures
            exists|k: int|
                0 <= k <= self.spec_chain().len() && r.deep_view() == #[trigger] cands_txs(
                    spec_candidates(self.tip_first().take(k), address@),
                ),
    {
        let cands = self.scan_candidates(address);
        let ghost k = choose|k: int|
            0 <= k <= self.spec_chain().len() && cands.deep_view() == #[trigger] spec_candidates(
                self.tip_first().take(k),
                address@,
            );
        let ghost f = cands.deep_view();
        let mut out: Vec<Transaction> = Vec::new();
        let n = cands.len();
        let mut i: usize = 0;
        while i < n
            invariant
                n == cands.len() && i <= n,
                f == cands.deep_view() && f.len() == n,
                out.deep_view() == cands_txs(f).take(i as int),
            decreases n - i,
        {
            let ghost pre = out;
            let t = cands[i].tx.duplicate();
            let ghost tvv = t;
            out.push(t);
            proof {
                lemma_vec_deep_push(pre, out, tvv);
                assert(f[i as int] == cands@[i as int]@);
                assert(out.deep_view() =~= cands_txs(f).take(i as int + 1));
            }
            i = i + 1;
        }
        proof {
            assert(cands_txs(f).take(n as int) =~= cands_txs(f));
        }
        out
    }

    /// The spendable outputs themselves, flattened in traversal order.
    #[allow(non_snake_case)]
    pub fn find_UTXO(&self, address: &[u8]) -> (r: Vec<TxOutput>)
        requires
            self.wf(),
        ensures
            exists|k: int|
                0 <= k <= self.spec_chain().len() && {
                    let f = #[trigger] spec_candidates(self.tip_first().take(k), address@);
                    r.deep_view() == cands_outputs_upto(f, f.len())
                },
    {
        let cands = self.scan_candidates(address);
        let ghost k = choose|k: int|
            0 <= k <= self.spec_chain().len() && cands.deep_view() == #[trigger] spec_candidates(
                self.tip_first().take(k),
                address@,
            );
        let ghost f = cands.deep_view();
        proof {
            assert forall|q: int|
                0 <= q < self.tip_first().len() implies txs_values_ok(
                (#[trigger] self.tip_first()[q]).transactions) by {
                assert(self.tip_first()[q] == self.spec_chain()[self.spec_chain().len() - 1 - q]);
            }
            lemma_prefix_total_le(self.tip_first(), address@, k);
        }
        let mut out: Vec<TxOutput> = Vec::new();
        let n = cands.len();
        let mut i: usize = 0;
        while i < n
            invariant
                n == cands.len() && i <= n,
                f == cands.deep_view() && f.len() == n,
                cands_ok(f),
                out.deep_view() == cands_outputs_upto(f, i as nat),
            decreases n - i,
        {
            let ghost cv = f[i as int];
            proof {
                assert(f[i as int] == cands@[i as int]@);
                assert(cand_ok(cv));
            }
            let c = &cands[i];
            let m = c.indices.len();
            let mut j: usize = 0;
            while j < m
                invariant
                    m == c.indices.len() && j <= m,
                    c@ == cv && m == cv.indices.len(),
                    cand_ok(cv),
                    out.deep_view() == cands_outputs_upto(f, i as nat) + cand_outputs(cv).take(
                        j as int,
                    ),
                decreases m - j,
            {
                let idx = c.indices[j];
                proof {
                    assert(cv.indices[j as int] == c.indices@[j as int]);
                    assert(0 <= idx < cv.tx.vout.len());
                    assert(cv.tx.vout[idx as int] == c.tx.vout@[idx as int]@);
                }
                let ghost pre = out;
                let o = c.tx.vout[idx as usize].duplicate();
                let ghost ov = o;
                out.push(o);
                proof {
                    lemma_vec_deep_push(pre, out, ov);
                    assert(cand_outputs(cv)[j as int] == cv.tx.vout[cv.indices[j as int] as int]);
                    assert(out.deep_view() =~= cands_outputs_upto(f, i as nat) + cand_outputs(
                        cv,
                    ).take(j as int + 1));
                }
                j = j + 1;
            }
            proof {
                assert(cand_outputs(cv).take(m as int) =~= cand_outputs(cv));
                assert(out.deep_view() =~= cands_outputs_upto(f, i as nat + 1));
            }
            i = i + 1;
        }
        out
    }

    /// Greedily accumulate spendable outputs in traversal order, adding
    /// no more once the accumulated value reaches `amount` (but scanning
    /// on). Returns whatever accumulated, even when it falls short: the
    /// caller must treat a shortfall as a funding failure. The
    /// accumulated value never exceeds the address's total spendable
    /// value in the chain.
    pub fn find_spendable_outputs(&self, address: &[u8], amount: i32) -> (r: (i64, Vec<Selection>))
        requires
            self.wf(),
            amount >= 0,
        ensures
            exists|k: int|
                0 <= k <= self.spec_chain().len() && {
                    let f = #[trigger] spec_candidates(self.tip_first().take(k), address@);
                    let s = spec_select(f, amount as int);
                    r.0 == s.0 && r.1.deep_view() == s.1
                },
            r.0 <= spec_address_total(self.tip_first(), address@),
            0 <= r.0,
            r.0 == 0 || r.0 <= amount - 1 + i32::MAX,
    {
        let cands = self.scan_candidates(address);
        let ghost k = choose|k: int|
            0 <= k <= self.spec_chain().len() && cands.deep_view() == #[trigger] spec_candidates(
                self.tip_first().take(k),
                address@,
            );
        let ghost f = cands.deep_view();
        proof {
            assert forall|q: int|
                0 <= q < self.tip_first().len() implies txs_values_ok(
                (#[trigger] self.tip_first()[q]).transactions) by {
                assert(self.tip_first()[q] == self.spec_chain()[self.spec_chain().len() - 1 - q]);
            }
            lemma_prefix_total_le(self.tip_first(), address@, k);
            lemma_select_fit(f, amount as int, f.len());
        }
        let mut acc: i64 = 0;
        let mut sel: Vec<Selection> = Vec::new();
        let n = cands.len();
        let mut i: usize = 0;
        while i < n
            invariant
                n == cands.len() && i <= n,
                f == cands.deep_view() && f.len() == n,
                cands_ok(f),
                amount >= 0,
                acc == select_cands_upto(f, amount as int, i as nat).0,
                sel.deep_view() == select_cands_upto(f, amount as int, i as nat).1,
                0 <= acc,
            decreases n - i,
        {
            let ghost cv = f[i as int];
            proof {
                assert(f[i as int] == cands@[i as int]@);
                assert(cand_ok(cv));
            }
            let c = &cands[i];
            let ghost acc0 = acc as int;
            let mut picked: Vec<i32> = Vec::new();
            let m = c.indices.len();
            let mut j: usize = 0;
            while j < m
                invariant
                    m == c.indices.len() && j <= m,
                    c@ == cv && m == cv.indices.len(),
                    cand_ok(cv),
                    amount >= 0,
                    0 <= acc,
                    acc == select_idx_upto(cv.tx, cv.indices, amount as int, acc0, j as nat).0,
                    picked@ == select_idx_upto(cv.tx, cv.indices, amount as int, acc0, j as nat).1,
                decreases m - j,
            {
                let idx = c.indices[j];
                proof {
                    assert(cv.indices[j as int] == c.indices@[j as int]);
                    assert(0 <= idx < cv.tx.vout.len());
                    assert(cv.tx.vout[idx as int] == c.tx.vout@[idx as int]@);
                    assert(cv.tx.vout[idx as int].value >= 0);
                }
                if (acc as i64) < (amount as i64) {
                    let v = c.tx.vout[idx as usize].value;
                    acc = acc + (v as i64);
                    picked.push(idx);
                    assert(picked@ =~= select_idx_upto(
                        cv.tx,
                        cv.indices,
                        amount as int,
                        acc0,
                        j as nat + 1,
                    ).1);
                } else {
                    assert(picked@ =~= select_idx_upto(
                        cv.tx,
                        cv.indices,
                        amount as int,
                        acc0,
                        j as nat + 1,
                    ).1);
                }
                j = j + 1;
            }
            if picked.len() > 0 {
                let ghost pre = sel;
                let e = Selection { txid: clone_bytes(&c.tx.id), indices: picked };
                let ghost ev = e;
                sel.push(e);
                proof {
                    lemma_vec_deep_push(pre, sel, ev);
                    assert(sel.deep_view() =~= select_cands_upto(f, amount as int, i as nat + 1).1);
                }
            } else {
                assert(sel.deep_view() =~= select_cands_upto(f, amount as int, i as nat + 1).1);
            }
            i = i + 1;
        }
        proof {
            lemma_select_bound(f, amount as int, f.len());
        }
        (acc, sel)
    }
}

proof fn lemma_single_coinbase_total(tf: Seq<BlockView>, a: Seq<u8>)
    requires
        tf.len() == 1,
        tf[0].transactions.len() == 1,
        tf[0].transactions[0].vout.len() == 1,
    ensures
        spec_address_total(tf, a) == (if tf[0].transactions[0].vout[0].pub_key_hash == a {
            tf[0].transactions[0].vout[0].value as int
        } else {
            0
        }),
{
    let cb = tf[0].transactions[0];
    let st1 = scan_blocks_upto(scan_init(), tf, a, 1);
    assert(scan_blocks_upto(scan_init(), tf, a, 0) == scan_init());
    assert(st1 == scan_txs_upto(scan_init(), tf[0].transactions, a, 1));
    assert(scan_txs_upto(scan_init(), tf[0].transactions, a, 0) == scan_init());
    assert(st1 == scan_tx(scan_init(), cb, a));
    let cands = tx_candidates(scan_init().spent, cb, a);
    assert(!spent_contains(scan_init().spent, cb.id, 0i32));
    assert(cand_idx_upto(scan_init().spent, cb, a, 0) == Seq::<i32>::empty());
    if cb.vout[0].pub_key_hash == a {
        assert(cands =~= seq![0i32]);
        let cv = CandidateView { tx: cb, indices: cands };
        assert(st1.found =~= seq![cv]);
        assert(spec_candidates(tf, a) == st1.found);
        assert(cands_total_upto(st1.found, 1) == cands_total_upto(st1.found, 0) + indices_total(
            cb,
            cands,
        ));
        assert(indices_total_upto(cb, cands, 1) == indices_total_upto(cb, cands, 0)
            + cb.vout[cands[0] as int].value);
        assert(cands[0] == 0i32);
    } else {
        assert(cands =~= Seq::<i32>::empty());
        assert(st1.found =~= Seq::<CandidateView>::empty());
        assert(spec_candidates(tf, a) == st1.found);
    }
}

/// Conservation at genesis: with one coinbase transaction minted and
/// nothing yet spent, the spendable value across all addresses equals the
/// value minted so far — the whole reward at the reward address, and
/// nothing anywhere else.
pub proof fn lemma_genesis_conservation(bc: &Blockchain, addr: Seq<u8>)
    requires
        bc.wf(),
        bc.spec_chain().len() == 1,
        bc.spec_chain()[0].transactions.len() == 1,
        bc.spec_chain()[0].transactions[0].vout.len() == 1,
        bc.spec_chain()[0].transactions[0].vout[0].value == REWARD,
        bc.spec_chain()[0].transactions[0].vout[0].pub_key_hash == addr,
    ensures
        spec_address_total(bc.tip_first(), addr) == REWARD,
        forall|other: Seq<u8>|
            other != addr ==> #[trigger] spec_address_total(bc.tip_first(), other) == 0,
{
    assert(bc.tip_first().len() == 1);
    assert(bc.tip_first()[0] == bc.spec_chain()[0]);
    lemma_single_coinbase_total(bc.tip_first(), addr);
    assert forall|other: Seq<u8>|
        other != addr implies #[trigger] spec_address_total(bc.tip_first(), other) == 0 by {
        lemma_single_coinbase_total(bc.tip_first(), other);
    }
}

// ------------------------------------------------------------------
// Building a transfer from a selection.
// ------------------------------------------------------------------

/// The inputs a selection entry contributes: one per picked index, all
/// carrying the spender's public key, unsigned.
pub open spec fn entry_inputs(e: (Seq<u8>, Seq<i32>), from_pk: Seq<u8>) -> Seq<TxInputView> {
    e.1.map_values(
        |i: i32| TxInputView { txid: e.0, vout: i, signature: Seq::empty(), pub_key: from_pk },
    )
}

/// The inputs of the first `n` selection entries, in order.
pub open spec fn sel_inputs_upto(
    sel: Seq<(Seq<u8>, Seq<i32>)>,
    from_pk: Seq<u8>,
    n: nat,
) -> Seq<TxInputView>
    decreases n,
{
    if n == 0 {
        Seq::empty()
    } else {
        sel_inputs_upto(sel, from_pk, (n - 1) as nat) + entry_inputs(sel[n - 1], from_pk)
    }
}

/// The transfer transaction a selection builds: one input per picked
/// prior output, one output of `amount` to the receiver, and a change
/// output back to the sender's address exactly when the accumulated
/// value strictly exceeds the amount; its id is its own hash.
pub open spec fn spec_transfer(
    sel: Seq<(Seq<u8>, Seq<i32>)>,
    from_pk: Seq<u8>,
    to: Seq<u8>,
    amount: i32,
    acc: int,
) -> TransactionView {
    let pay = TxOutputView { value: amount, pub_key_hash: to };
    let change = TxOutputView { value: (acc - amount) as i32, pub_key_hash: sha256_hex_of(from_pk) };
    let base = TransactionView {
        id: Seq::empty(),
        vin: sel_inputs_upto(sel, from_pk, sel.len()),
        vout: if acc > amount {
            seq![pay, change]
        } else {
            seq![pay]
        },
    };
    base.with_id(crate::transaction::spec_tx_hash(base))
}

impl Transaction {
    /// Build a transfer of `amount` units from the holder of
    /// `from_pub_key` to the address `to`, funded by the spender's
    /// spendable outputs in `bc`. Fails with `InsufficientFunds`, carrying
    /// the value actually available to the greedy selection, exactly when
    /// that value falls short of `amount` — in particular whenever
    /// `amount` exceeds the sender's total spendable value. The result is
    /// unsigned: `sign` binds it to the spender's key afterwards.
    #[allow(non_snake_case)]
    pub fn new_UTXO(from_pub_key: &[u8], to: &[u8], amount: i32, bc: &Blockchain) -> (r: Result<
        Transaction,
        Error,
    >)
        requires
            bc.wf(),
            amount >= 0,
        ensures
            (match r {
                Ok(tx) => exists|k: int|
                    0 <= k <= bc.spec_chain().len() && {
                        let f = #[trigger] spec_candidates(
                            bc.tip_first().take(k),
                            sha256_hex_of(from_pub_key@),
                        );
                        let s = spec_select(f, amount as int);
                        s.0 >= amount && tx@ == spec_transfer(
                            s.1,
                            from_pub_key@,
                            to@,
                            amount,
                            s.0,
                        )
                    },
                Err(e) => (match e {
                    Error::InsufficientFunds(a) => a < amount && a
                        <= spec_address_total(bc.tip_first(), sha256_hex_of(from_pub_key@)),
                    _ => false,
                }),
            }),
            amount > spec_address_total(bc.tip_first(), sha256_hex_of(from_pub_key@)) ==> r
                is Err,
    {
        let from_addr = sha256_hex(from_pub_key);
        let (acc, sel) = bc.find_spendable_outputs(from_addr.as_slice(), amount);
        if acc < amount as i64 {
            return Err(Error::InsufficientFunds(acc));
        }
        let ghost sv = sel.deep_view();
        let mut vin: Vec<TxInput> = Vec::new();
        let n = sel.len();
        let mut i: usize = 0;
        while i < n
            invariant
                n == sel.len() && i <= n,
                sv == sel.deep_view() && sv.len() == n,
                vin.deep_view() == sel_inputs_upto(sv, from_pub_key@, i as nat),
            decreases n - i,
        {
            let ghost ev = sv[i as int];
            proof {
                assert(sv[i as int] == sel@[i as int]@);
            }
            let e = &sel[i];
            let m = e.indices.len();
            let mut j: usize = 0;
            while j < m
                invariant
                    m == e.indices.len() && j <= m,
                    e@ == ev && m == ev.1.len(),
                    vin.deep_view() == sel_inputs_upto(sv, from_pub_key@, i as nat)
                        + entry_inputs(ev, from_pub_key@).take(j as int),
                decreases m - j,
            {
                let ghost pre = vin;
                let input = TxInput {
                    txid: clone_bytes(&e.txid),
                    vout: e.indices[j],
                    signature: Vec::new(),
                    pub_key: vstd::slice::slice_to_vec(from_pub_key),
                };
                let ghost iv = input;
                vin.push(input);
                proof {
                    lemma_vec_deep_push(pre, vin, iv);
                    assert(ev.1[j as int] == e.indices@[j as int]);
                    assert(entry_inputs(ev, from_pub_key@)[j as int] == TxInputView {
                        txid: ev.0,
                        vout: ev.1[j as int],
                        signature: Seq::empty(),
                        pub_key: from_pub_key@,
                    });
                    assert(vin.deep_view() =~= sel_inputs_upto(sv, from_pub_key@, i as nat)
                        + entry_inputs(ev, from_pub_key@).take(j as int + 1));
                }
                j = j + 1;
            }
            proof {
                assert(entry_inputs(ev, from_pub_key@).take(m as int) =~= entry_inputs(
                    ev,
                    from_pub_key@,
                ));
                assert(vin.deep_view() =~= sel_inputs_upto(sv, from_pub_key@, i as nat + 1));
            }
            i = i + 1;
        }
        let mut vout: Vec<TxOutput> = Vec::new();
        vout.push(TxOutput::new(amount, vstd::slice::slice_to_vec(to)));
        if acc > amount as i64 {
            let change = (acc - amount as i64) as i32;
            vout.push(TxOutput::new(change, from_addr));
        }
        let mut tx = Transaction { id: Vec::new(), vin, vout };
        proof {
            let s = (acc as int, sv);
            let base = spec_transfer(sv, from_pub_key@, to@, amount, acc as int).with_id(
                Seq::<u8>::empty(),
            );
            assert(tx@.vin =~= base.vin);
            assert(tx@.vout =~~= base.vout);
            assert(tx@ =~= base);
        }
        tx.set_id();
        proof {
            assert(tx@ =~= spec_transfer(sv, from_pub_key@, to@, amount, acc as int));
        }
        Ok(tx)
    }
}

} // verus!
