//! Transactions: value movements between addresses.
//!
//! A transaction consumes prior outputs through its inputs and creates new
//! outputs; a coinbase transaction mints value with no real prior input.
//! Its id is the hash of the whole record with the id itself cleared.

use vstd::prelude::*;
use crate::bytes::{bytes_eq, clone_bytes};
use crate::errors::Error;
use crate::hashing::{sha256_hex, sha256_hex_of};
use crate::signing::{ed_check, ed_sign, ed_verify, pk_of, sig_of, sk_of};
use crate::tx::{TxInput, TxInputView, TxOutput, TxOutputView};

verus! {

/// The fixed value a coinbase transaction mints for its reward address.
pub const REWARD: i32 = 100;

/// A batch of value movements: inputs consuming prior outputs, and the
/// outputs they fund.
pub struct Transaction {
    /// Hash of the transaction with this field cleared.
    pub id: Vec<u8>,
    /// The consumed prior outputs.
    pub vin: Vec<TxInput>,
    /// The newly created outputs.
    pub vout: Vec<TxOutput>,
}

/// The mathematical value of a `Transaction`.
#[verifier::ext_equal]
pub struct TransactionView {
    pub id: Seq<u8>,
    pub vin: Seq<TxInputView>,
    pub vout: Seq<TxOutputView>,
}

impl View for Transaction {
    type V = TransactionView;

    open spec fn view(&self) -> TransactionView {
        TransactionView { id: self.id@, vin: self.vin.deep_view(), vout: self.vout.deep_view() }
    }
}

impl DeepView for Transaction {
    type V = TransactionView;

    open spec fn deep_view(&self) -> TransactionView {
        self.view()
    }
}

impl TransactionView {
    /// A coinbase transaction: exactly one input, with an empty referenced
    /// transaction id and a referenced output index of -1.
    pub open spec fn spec_is_coinbase(self) -> bool {
        self.vin.len() == 1 && self.vin[0].txid.len() == 0 && self.vin[0].vout == -1
    }

    /// The same transaction under another id.
    pub open spec fn with_id(self, id: Seq<u8>) -> TransactionView {
        TransactionView { id, vin: self.vin, vout: self.vout }
    }

    /// The signing skeleton: the id kept, every input reduced to its
    /// reference (signature and public key cleared), the outputs kept.
    pub open spec fn spec_trimmed(self) -> TransactionView {
        TransactionView { id: self.id, vin: spec_trim_inputs(self.vin), vout: self.vout }
    }
}

/// Copy a vector of inputs element by element.
pub(crate) fn clone_inputs(v: &Vec<TxInput>) -> (r: Vec<TxInput>)
    ensures
        r.deep_view() == v.deep_view(),
{
    let mut out: Vec<TxInput> = Vec::new();
    let n = v.len();
    let mut i: usize = 0;
    while i < n
        invariant
            n == v.len() && i <= n && out@.len() == i,
            forall|k: int| 0 <= k < i ==> (#[trigger] out@[k]).deep_view() == v.deep_view()[k],
        decreases n - i,
    {
        let e = v[i].duplicate();
        assert(e.deep_view() == v.deep_view()[i as int]);
        out.push(e);
        i = i + 1;
    }
    assert forall|k: int| 0 <= k < n implies out.deep_view()[k] == v.deep_view()[k] by {
        assert(out.deep_view()[k] == out@[k].deep_view());
    }
    assert(out.deep_view() =~= v.deep_view());
    out
}

/// Copy a vector of outputs element by element.
pub(crate) fn clone_outputs(v: &Vec<TxOutput>) -> (r: Vec<TxOutput>)
    ensures
        r.deep_view() == v.deep_view(),
{
    let mut out: Vec<TxOutput> = Vec::new();
    let n = v.len();
    let mut i: usize = 0;
    while i < n
        invariant
            n == v.len() && i <= n && out@.len() == i,
            forall|k: int| 0 <= k < i ==> (#[trigger] out@[k]).deep_view() == v.deep_view()[k],
        decreases n - i,
    {
        let e = v[i].duplicate();
        assert(e.deep_view() == v.deep_view()[i as int]);
        out.push(e);
        i = i + 1;
    }
    assert forall|k: int| 0 <= k < n implies out.deep_view()[k] == v.deep_view()[k] by {
        assert(out.deep_view()[k] == out@[k].deep_view());
    }
    assert(out.deep_view() =~= v.deep_view());
    out
}

/// Reduce every input to its bare reference: signature and public key
/// cleared.
pub(crate) fn trim_inputs(v: &Vec<TxInput>) -> (r: Vec<TxInput>)
    ensures
        r.deep_view() == spec_trim_inputs(v.deep_view()),
{
    let ghost t = spec_trim_inputs(v.deep_view());
    let mut out: Vec<TxInput> = Vec::new();
    let n = v.len();
    let mut i: usize = 0;
    while i < n
        invariant
            n == v.len() && i <= n && out@.len() == i,
            t == spec_trim_inputs(v.deep_view()),
            forall|k: int| 0 <= k < i ==> (#[trigger] out@[k]).deep_view() == t[k],
        decreases n - i,
    {
        let e = TxInput {
            txid: clone_bytes(&v[i].txid),
            vout: v[i].vout,
            signature: Vec::new(),
            pub_key: Vec::new(),
        };
        assert(e.deep_view() =~= t[i as int]) by {
            assert(v.deep_view()[i as int] == v@[i as int].deep_view());
        }
        out.push(e);
        i = i + 1;
    }
    assert forall|k: int| 0 <= k < n implies out.deep_view()[k] == t[k] by {
        assert(out.deep_view()[k] == out@[k].deep_view());
    }
    assert(out.deep_view() =~= t);
    out
}

/// Every input reduced to its bare reference: signature and public key
/// cleared.
pub open spec fn spec_trim_inputs(s: Seq<TxInputView>) -> Seq<TxInputView> {
    s.map_values(
        |i: TxInputView|
            TxInputView { txid: i.txid, vout: i.vout, signature: Seq::empty(), pub_key: Seq::empty() },
    )
}

/// The hash a transaction's id is set to: the hex SHA-256 digest of the
/// record encoded with its id cleared. It does not depend on the id the
/// record currently holds.
pub open spec fn spec_tx_hash(t: TransactionView) -> Seq<u8> {
    sha256_hex_of(crate::codec::enc_tx(t.with_id(Seq::empty())))
}

/// The memo a coinbase input carries: the caller's, or the reward address
/// itself when the caller handed none.
pub open spec fn spec_coinbase_memo(to: Seq<u8>, data: Seq<u8>) -> Seq<u8> {
    if data.len() == 0 {
        to
    } else {
        data
    }
}

/// The coinbase transaction rewarding `to`: one sentinel input carrying
/// the memo, one output of `REWARD` units locked to `to`, under its own
/// hash as id.
pub open spec fn spec_coinbase(to: Seq<u8>, data: Seq<u8>) -> TransactionView {
    let base = TransactionView {
        id: Seq::empty(),
        vin: seq![
            TxInputView {
                txid: Seq::empty(),
                vout: -1i32,
                signature: spec_coinbase_memo(to, data),
                pub_key: Seq::empty(),
            },
        ],
        vout: seq![TxOutputView { value: REWARD, pub_key_hash: to }],
    };
    base.with_id(spec_tx_hash(base))
}

/// Sane amounts: no negative output values, and few enough outputs that
/// every output index fits an `i32`.
pub open spec fn tx_values_ok(t: TransactionView) -> bool {
    &&& t.vout.len() <= i32::MAX
    &&& forall|k: int| 0 <= k < t.vout.len() ==> (#[trigger] t.vout[k]).value >= 0
}

/// Every transaction of the batch has sane amounts.
pub open spec fn txs_values_ok(s: Seq<TransactionView>) -> bool {
    forall|k: int| 0 <= k < s.len() ==> tx_values_ok(#[trigger] s[k])
}

/// Check a batch of transactions for sane amounts.
pub fn values_ok_check(v: &Vec<Transaction>) -> (r: bool)
    ensures
        r == txs_values_ok(v.deep_view()),
{
    let n = v.len();
    let mut i: usize = 0;
    while i < n
        invariant
            n == v.len() && i <= n,
            forall|k: int| 0 <= k < i ==> tx_values_ok(#[trigger] v.deep_view()[k]),
        decreases n - i,
    {
        assert(v.deep_view()[i as int] == v@[i as int].deep_view());
        let m = v[i].vout.len();
        if m > i32::MAX as usize {
            assert(!tx_values_ok(v.deep_view()[i as int]));
            return false;
        }
        let mut j: usize = 0;
        while j < m
            invariant
                m == v@[i as int].vout.len() && j <= m && i < n && n == v.len(),
                v.deep_view()[i as int] == v@[i as int].deep_view(),
                n == v.deep_view().len(),
                forall|k: int|
                    0 <= k < j ==> (#[trigger] v@[i as int]@.vout[k]).value >= 0,
            decreases m - j,
        {
            if v[i].vout[j].value < 0 {
                assert(v@[i as int]@.vout[j as int].value < 0) by {
                    assert(v@[i as int]@.vout[j as int] == v@[i as int].vout@[j as int]@);
                }
                assert(!tx_values_ok(v.deep_view()[i as int]));
                return false;
            }
            assert(v@[i as int]@.vout[j as int] == v@[i as int].vout@[j as int]@);
            j = j + 1;
        }
        assert(tx_values_ok(v.deep_view()[i as int])) by {
            assert(v.deep_view()[i as int] == v@[i as int]@);
        }
        i = i + 1;
    }
    assert(txs_values_ok(v.deep_view()));
    true
}

/// The first transaction in `prev` carrying the id, if any.
pub open spec fn spec_lookup(prev: Seq<TransactionView>, id: Seq<u8>) -> Option<TransactionView>
    decreases prev.len(),
{
    if prev.len() == 0 {
        None
    } else if prev[0].id == id {
        Some(prev[0])
    } else {
        spec_lookup(prev.drop_first(), id)
    }
}

proof fn lemma_lookup_skip(s: Seq<TransactionView>, id: Seq<u8>, i: int)
    requires
        0 <= i <= s.len(),
        forall|k: int| 0 <= k < i ==> (#[trigger] s[k]).id != id,
    ensures
        spec_lookup(s, id) == spec_lookup(s.skip(i), id),
    decreases i,
{
    if i > 0 {
        lemma_lookup_skip(s, id, i - 1);
        assert(s.skip(i - 1)[0] == s[i - 1]);
        assert(s.skip(i - 1).drop_first() =~= s.skip(i));
    } else {
        assert(s.skip(0) =~= s);
    }
}

/// Input `k` references a prior transaction that is absent from `prev` or
/// carries an empty id there.
pub open spec fn spec_input_dangling(t: TransactionView, prev: Seq<TransactionView>, k: int) -> bool {
    match spec_lookup(prev, t.vin[k].txid) {
        Some(p) => p.id.len() == 0,
        None => true,
    }
}

/// Some input of `t` dangles.
pub open spec fn spec_has_dangling(t: TransactionView, prev: Seq<TransactionView>) -> bool {
    exists|k: int| 0 <= k < t.vin.len() && spec_input_dangling(t, prev, k)
}

/// Every input whose prior transaction is found with a nonempty id
/// references an output index that exists there. Signing and checking
/// index into the referenced output, so this is what keeps them total.
pub open spec fn spec_prev_outputs_in_range(t: TransactionView, prev: Seq<TransactionView>) -> bool {
    forall|k: int|
        0 <= k < t.vin.len() ==> (match spec_lookup(prev, (#[trigger] t.vin[k]).txid) {
            Some(p) => p.id.len() == 0 || (0 <= t.vin[k].vout < p.vout.len()),
            None => true,
        })
}

/// The signing payload for input `k`: the transaction trimmed, with input
/// `k`'s authorization field replaced by the referenced output's locking
/// hash, hashed with the id cleared. It binds the signature to the exact
/// value and lock being spent.
pub open spec fn spec_payload(t: TransactionView, prev: Seq<TransactionView>, k: int) -> Seq<u8> {
    match spec_lookup(prev, t.vin[k].txid) {
        Some(p) => spec_tx_hash(
            TransactionView {
                id: t.id,
                vin: spec_trim_inputs(t.vin).update(
                    k,
                    TxInputView {
                        txid: t.vin[k].txid,
                        vout: t.vin[k].vout,
                        signature: Seq::empty(),
                        pub_key: p.vout[t.vin[k].vout as int].pub_key_hash,
                    },
                ),
                vout: t.vout,
            },
        ),
        None => Seq::empty(),
    }
}

/// `t` with every input's signature set to the ed25519 signature of that
/// input's payload under `sk`.
pub open spec fn spec_signed(t: TransactionView, prev: Seq<TransactionView>, sk: Seq<u8>) -> TransactionView {
    TransactionView {
        id: t.id,
        vin: Seq::new(
            t.vin.len(),
            |k: int|
                TxInputView {
                    txid: t.vin[k].txid,
                    vout: t.vin[k].vout,
                    signature: sig_of(spec_payload(t, prev, k), sk),
                    pub_key: t.vin[k].pub_key,
                },
        ),
        vout: t.vout,
    }
}

/// Input `k` passes the signature check: well-formed key and signature
/// lengths, and ed25519 accepts the stored signature for the recomputed
/// payload under the stored public key.
pub open spec fn spec_input_verified(t: TransactionView, prev: Seq<TransactionView>, k: int) -> bool {
    &&& t.vin[k].pub_key.len() == 32
    &&& t.vin[k].signature.len() == 64
    &&& ed_verify(spec_payload(t, prev, k), t.vin[k].pub_key, t.vin[k].signature)
}

/// Every input of `t` passes the signature check.
pub open spec fn spec_all_inputs_verified(t: TransactionView, prev: Seq<TransactionView>) -> bool {
    forall|k: int| 0 <= k < t.vin.len() ==> spec_input_verified(t, prev, k)
}

/// What `verify` answers: coinbase transactions pass unconditionally,
/// every other transaction passes exactly when all its inputs do.
pub open spec fn spec_verify_result(t: TransactionView, prev: Seq<TransactionView>) -> bool {
    t.spec_is_coinbase() || spec_all_inputs_verified(t, prev)
}

/// The payload reads nothing but the inputs' references, the outputs and
/// the prior transactions: signatures and keys held by the inputs do not
/// enter it.
proof fn lemma_payload_sig_independent(
    a: TransactionView,
    b: TransactionView,
    prev: Seq<TransactionView>,
    k: int,
)
    requires
        a.vout == b.vout,
        a.vin.len() == b.vin.len(),
        0 <= k < a.vin.len(),
        forall|j: int|
            0 <= j < a.vin.len() ==> (#[trigger] a.vin[j]).txid == b.vin[j].txid && a.vin[j].vout
                == b.vin[j].vout,
    ensures
        spec_payload(a, prev, k) == spec_payload(b, prev, k),
{
    assert(spec_trim_inputs(a.vin) =~= spec_trim_inputs(b.vin)) by {
        assert forall|j: int|
            0 <= j < a.vin.len() implies spec_trim_inputs(a.vin)[j] == spec_trim_inputs(
            b.vin,
        )[j] by {
            assert(a.vin[j].txid == b.vin[j].txid && a.vin[j].vout == b.vin[j].vout);
        }
    }
    match spec_lookup(prev, a.vin[k].txid) {
        Some(p) => {
            let ta = TransactionView {
                id: a.id,
                vin: spec_trim_inputs(a.vin).update(
                    k,
                    TxInputView {
                        txid: a.vin[k].txid,
                        vout: a.vin[k].vout,
                        signature: Seq::empty(),
                        pub_key: p.vout[a.vin[k].vout as int].pub_key_hash,
                    },
                ),
                vout: a.vout,
            };
            let tb = TransactionView {
                id: b.id,
                vin: spec_trim_inputs(b.vin).update(
                    k,
                    TxInputView {
                        txid: b.vin[k].txid,
                        vout: b.vin[k].vout,
                        signature: Seq::empty(),
                        pub_key: p.vout[b.vin[k].vout as int].pub_key_hash,
                    },
                ),
                vout: b.vout,
            };
            assert(ta.with_id(Seq::<u8>::empty()) =~~= tb.with_id(Seq::<u8>::empty()));
        },
        None => {},
    }
}

/// Find the transaction in `prev_txs` whose id is `id`.
fn find_prev<'a>(prev_txs: &'a Vec<Transaction>, id: &Vec<u8>) -> (r: Option<&'a Transaction>)
    ensures
        (match (spec_lookup(prev_txs.deep_view(), id@), r) {
            (Some(t), Some(e)) => e@ == t,
            (None, None) => true,
            _ => false,
        }),
{
    let n = prev_txs.len();
    let mut i: usize = 0;
    while i < n
        invariant
            n == prev_txs.len() && i <= n,
            forall|k: int| 0 <= k < i ==> (#[trigger] prev_txs.deep_view()[k]).id != id@,
        decreases n - i,
    {
        if bytes_eq(prev_txs[i].id.as_slice(), id.as_slice()) {
            proof {
                lemma_lookup_skip(prev_txs.deep_view(), id@, i as int);
                assert(prev_txs.deep_view().skip(i as int)[0] == prev_txs.deep_view()[i as int]);
                assert(prev_txs.deep_view()[i as int] == prev_txs@[i as int].deep_view());
            }
            return Some(&prev_txs[i]);
        }
        assert(prev_txs.deep_view()[i as int] == prev_txs@[i as int].deep_view());
        i = i + 1;
    }
    proof {
        lemma_lookup_skip(prev_txs.deep_view(), id@, n as int);
        assert(prev_txs.deep_view().skip(n as int) =~= Seq::<TransactionView>::empty());
    }
    None
}

impl Transaction {
    /// Structural coinbase test: one input, empty referenced id, index -1.
    pub fn is_coinbase(&self) -> (r: bool)
        ensures
            r == self@.spec_is_coinbase(),
    {
        self.vin.len() == 1 && self.vin[0].txid.len() == 0 && self.vin[0].vout == -1
    }

    /// A copy of this transaction with every input's signature and public
    /// key cleared: the shared skeleton that signing payloads are built on.
    pub fn trim_copy(&self) -> (r: Transaction)
        ensures
            r@ == self@.spec_trimmed(),
    {
        let vin = trim_inputs(&self.vin);
        let vout = clone_outputs(&self.vout);
        let r = Transaction { id: clone_bytes(&self.id), vin, vout };
        assert(r@ =~= self@.spec_trimmed());
        r
    }

    /// An exact copy of this transaction.
    pub fn duplicate(&self) -> (r: Transaction)
        ensures
            r@ == self@,
    {
        let vin = clone_inputs(&self.vin);
        let vout = clone_outputs(&self.vout);
        let r = Transaction { id: clone_bytes(&self.id), vin, vout };
        assert(r@ =~= self@);
        r
    }

    /// Hash this transaction with its id cleared: what `set_id` stores,
    /// and what signing payloads are made of.
    pub fn hash(&self) -> (r: Vec<u8>)
        ensures
            r@ == spec_tx_hash(self@),
            r@.len() == 64,
    {
        let empty: Vec<u8> = Vec::new();
        let bytes = crate::codec::encode_tx_with_id(empty.as_slice(), &self.vin, &self.vout);
        proof {
            assert(self@.with_id(Seq::<u8>::empty()) =~= TransactionView {
                id: empty@,
                vin: self.vin.deep_view(),
                vout: self.vout.deep_view(),
            });
        }
        sha256_hex(bytes.as_slice())
    }

    /// Set the id to the hash of the record with the id cleared.
    pub fn set_id(&mut self)
        ensures
            final(self)@ == old(self)@.with_id(spec_tx_hash(old(self)@)),
            final(self)@.id.len() == 64,
    {
        let h = self.hash();
        self.id = h;
        assert(self@ =~= old(self)@.with_id(spec_tx_hash(old(self)@)));
    }

    /// Build the coinbase transaction rewarding `to` with `REWARD` units,
    /// carrying `data` as its memo (or a default when `data` is empty).
    pub fn new_coinbase(to: Vec<u8>, data: Vec<u8>) -> (r: Transaction)
        ensures
            r@ == spec_coinbase(to@, data@),
            r@.spec_is_coinbase(),
            r@.vout.len() == 1,
            r@.vout[0].value == REWARD,
            r@.vout[0].pub_key_hash == to@,
            r@.id.len() == 64,
    {
        let memo = if data.len() == 0 {
            clone_bytes(&to)
        } else {
            data
        };
        let input = TxInput { txid: Vec::new(), vout: -1, signature: memo, pub_key: Vec::new() };
        let output = TxOutput { value: REWARD, pub_key_hash: to };
        let mut tx = Transaction { id: Vec::new(), vin: vec![input], vout: vec![output] };
        proof {
            let base = spec_coinbase(to@, data@).with_id(Seq::<u8>::empty());
            assert(tx@.vin =~~= base.vin);
            assert(tx@.vout =~~= base.vout);
            assert(tx@ =~= base);
        }
        tx.set_id();
        assert(tx@ =~= spec_coinbase(to@, data@));
        tx
    }

    /// Build the signing payload for input `k`: the trimmed skeleton with
    /// that input's authorization field holding the referenced output's
    /// locking hash, hashed under an empty id.
    fn payload_for(&self, prev_txs: &Vec<Transaction>, k: usize) -> (r: Vec<u8>)
        requires
            k < self@.vin.len(),
            (match spec_lookup(prev_txs.deep_view(), self@.vin[k as int].txid) {
                Some(p) => p.id.len() > 0 && 0 <= self@.vin[k as int].vout < p.vout.len(),
                None => false,
            }),
        ensures
            r@ == spec_payload(self@, prev_txs.deep_view(), k as int),
            r@.len() == 64,
    {
        let ghost prev = prev_txs.deep_view();
        let prev_tx = match find_prev(prev_txs, &self.vin[k].txid) {
            Some(p) => p,
            None => {
                proof {
                    assert(false);
                }
                unreached()
            },
        };
        let ghost target = spec_trim_inputs(self@.vin).update(
            k as int,
            TxInputView {
                txid: self@.vin[k as int].txid,
                vout: self@.vin[k as int].vout,
                signature: Seq::empty(),
                pub_key: prev_tx@.vout[self@.vin[k as int].vout as int].pub_key_hash,
            },
        );
        let mut vin: Vec<TxInput> = Vec::new();
        let n = self.vin.len();
        let mut j: usize = 0;
        while j < n
            invariant
                n == self.vin.len() && j <= n && vin@.len() == j,
                k < n,
                target.len() == n,
                target == spec_trim_inputs(self@.vin).update(
                    k as int,
                    TxInputView {
                        txid: self@.vin[k as int].txid,
                        vout: self@.vin[k as int].vout,
                        signature: Seq::empty(),
                        pub_key: target[k as int].pub_key,
                    },
                ),
                forall|m: int| 0 <= m < j ==> (#[trigger] vin@[m]).deep_view() == target[m],
                prev_tx@.vout[self@.vin[k as int].vout as int].pub_key_hash == target[k as int].pub_key,
                self@.vin[k as int].vout < prev_tx@.vout.len(),
                0 <= self@.vin[k as int].vout,
            decreases n - j,
        {
            if j == k {
                let idx = self.vin[k].vout as usize;
                let e = TxInput {
                    txid: clone_bytes(&self.vin[k].txid),
                    vout: self.vin[k].vout,
                    signature: Vec::new(),
                    pub_key: clone_bytes(&prev_tx.vout[idx].pub_key_hash),
                };
                proof {
                    assert(prev_tx@.vout[idx as int] == prev_tx.vout@[idx as int].deep_view());
                    assert(self@.vin[k as int] == self.vin@[k as int].deep_view());
                    assert(e.deep_view() =~= target[k as int]);
                }
                vin.push(e);
            } else {
                let e = TxInput {
                    txid: clone_bytes(&self.vin[j].txid),
                    vout: self.vin[j].vout,
                    signature: Vec::new(),
                    pub_key: Vec::new(),
                };
                proof {
                    assert(self@.vin[j as int] == self.vin@[j as int].deep_view());
                    assert(target[j as int] == spec_trim_inputs(self@.vin)[j as int]);
                    assert(e.deep_view() =~= target[j as int]);
                }
                vin.push(e);
            }
            j = j + 1;
        }
        assert forall|m: int| 0 <= m < n implies vin.deep_view()[m] == target[m] by {
            assert(vin.deep_view()[m] == vin@[m].deep_view());
        }
        assert(vin.deep_view() =~= target);
        let vout = clone_outputs(&self.vout);
        let empty: Vec<u8> = Vec::new();
        let bytes = crate::codec::encode_tx_with_id(empty.as_slice(), &vin, &vout);
        proof {
            let payload_tx = TransactionView { id: self@.id, vin: target, vout: self@.vout };
            assert(payload_tx.with_id(Seq::<u8>::empty()) =~= TransactionView {
                id: empty@,
                vin: vin.deep_view(),
                vout: vout.deep_view(),
            });
        }
        sha256_hex(bytes.as_slice())
    }

    /// Check every input's referenced prior transaction: present in
    /// `prev_txs` and carrying a nonempty id there.
    fn check_prev_present(&self, prev_txs: &Vec<Transaction>) -> (r: bool)
        ensures
            r == !spec_has_dangling(self@, prev_txs.deep_view()),
    {
        let n = self.vin.len();
        let mut k: usize = 0;
        while k < n
            invariant
                n == self.vin.len() && k <= n,
                forall|j: int|
                    0 <= j < k ==> !spec_input_dangling(self@, prev_txs.deep_view(), j),
            decreases n - k,
        {
            match find_prev(prev_txs, &self.vin[k].txid) {
                Some(p) => {
                    if p.id.len() == 0 {
                        assert(spec_input_dangling(self@, prev_txs.deep_view(), k as int)) by {
                            assert(self@.vin[k as int] == self.vin@[k as int].deep_view());
                        }
                        return false;
                    }
                    assert(!spec_input_dangling(self@, prev_txs.deep_view(), k as int)) by {
                        assert(self@.vin[k as int] == self.vin@[k as int].deep_view());
                    }
                },
                None => {
                    assert(spec_input_dangling(self@, prev_txs.deep_view(), k as int)) by {
                        assert(self@.vin[k as int] == self.vin@[k as int].deep_view());
                    }
                    return false;
                },
            }
            k = k + 1;
        }
        true
    }

    /// Sign every input against the prior transactions it spends. A no-op
    /// for coinbase transactions; fails with `DanglingInput` exactly when
    /// some input's prior transaction is absent or has an empty id. On
    /// success every input holds the ed25519 signature of its payload, and
    /// a transaction signed with the secret half of the keypair whose
    /// public half its inputs carry passes `verify`.
    pub fn sign(&mut self, private_key: &[u8], prev_txs: &Vec<Transaction>) -> (r: Result<
        (),
        Error,
    >)
        requires
            private_key@.len() == 64,
            spec_prev_outputs_in_range(old(self)@, prev_txs.deep_view()),
        ensures
            old(self)@.spec_is_coinbase() ==> r is Ok && final(self)@ == old(self)@,
            !old(self)@.spec_is_coinbase() ==> ((r is Err) <==> spec_has_dangling(
                old(self)@,
                prev_txs.deep_view(),
            )),
            r is Err ==> r == Err::<(), Error>(Error::DanglingInput) && final(self)@ == old(
                self,
            )@,
            (r is Ok && !old(self)@.spec_is_coinbase()) ==> final(self)@ == spec_signed(
                old(self)@,
                prev_txs.deep_view(),
                private_key@,
            ),
            r is Ok ==> forall|seed: Seq<u8>|
                #![trigger pk_of(seed)]
                (seed.len() == 32 && private_key@ == sk_of(seed) && pk_of(seed).len() == 32
                    && (forall|k: int|
                    0 <= k < old(self)@.vin.len() ==> (#[trigger] old(self)@.vin[k]).pub_key
                        == pk_of(seed))) ==> spec_verify_result(
                    final(self)@,
                    prev_txs.deep_view(),
                ),
    {
        let ghost prev = prev_txs.deep_view();
        if self.is_coinbase() {
            return Ok(());
        }
        if !self.check_prev_present(prev_txs) {
            return Err(Error::DanglingInput);
        }
        let n = self.vin.len();
        let mut sigs: Vec<Vec<u8>> = Vec::new();
        let mut k: usize = 0;
        while k < n
            invariant
                n == self.vin.len() && k <= n,
                private_key@.len() == 64,
                self == old(self),
                prev == prev_txs.deep_view(),
                !spec_has_dangling(self@, prev),
                spec_prev_outputs_in_range(self@, prev),
                sigs@.len() == k,
                forall|j: int|
                    0 <= j < k ==> (#[trigger] sigs@[j])@ == sig_of(
                        spec_payload(self@, prev, j),
                        private_key@,
                    ),
                forall|j: int| 0 <= j < k ==> (#[trigger] sigs@[j])@.len() == 64,
                forall|j: int, seed: Seq<u8>|
                    #![trigger ed_verify(spec_payload(self@, prev, j), pk_of(seed), sigs@[j]@)]
                    0 <= j < k && seed.len() == 32 && private_key@ == sk_of(seed) ==> ed_verify(
                        spec_payload(self@, prev, j),
                        pk_of(seed),
                        sigs@[j]@,
                    ),
            decreases n - k,
        {
            proof {
                assert(!spec_input_dangling(self@, prev, k as int));
                assert(self@.vin[k as int] == self.vin@[k as int].deep_view());
            }
            let m = self.payload_for(prev_txs, k);
            let s = ed_sign(m.as_slice(), private_key);
            sigs.push(s);
            k = k + 1;
        }
        let ghost signed = spec_signed(self@, prev, private_key@);
        let mut vin: Vec<TxInput> = Vec::new();
        let mut j: usize = 0;
        while j < n
            invariant
                n == self.vin.len() && j <= n && vin@.len() == j,
                self == old(self),
                prev == prev_txs.deep_view(),
                signed == spec_signed(self@, prev, private_key@),
                signed.vin.len() == n,
                sigs@.len() == n,
                forall|m2: int|
                    0 <= m2 < n ==> (#[trigger] sigs@[m2])@ == sig_of(
                        spec_payload(self@, prev, m2),
                        private_key@,
                    ),
                forall|m2: int| 0 <= m2 < j ==> (#[trigger] vin@[m2]).deep_view() == signed.vin[m2],
            decreases n - j,
        {
            let e = TxInput {
                txid: clone_bytes(&self.vin[j].txid),
                vout: self.vin[j].vout,
                signature: clone_bytes(&sigs[j]),
                pub_key: clone_bytes(&self.vin[j].pub_key),
            };
            proof {
                assert(self@.vin[j as int] == self.vin@[j as int].deep_view());
                assert(sigs@[j as int]@ == sigs.deep_view()[j as int]);
                assert(e.deep_view() =~= signed.vin[j as int]);
            }
            vin.push(e);
            j = j + 1;
        }
        assert forall|m2: int| 0 <= m2 < n implies vin.deep_view()[m2] == signed.vin[m2] by {
            assert(vin.deep_view()[m2] == vin@[m2].deep_view());
        }
        assert(vin.deep_view() =~= signed.vin);
        let ghost before = self@;
        self.vin = vin;
        proof {
            assert(self@ =~= signed);
            assert forall|seed: Seq<u8>|
                (seed.len() == 32 && private_key@ == sk_of(seed) && pk_of(seed).len() == 32 && (
                forall|k2: int|
                    0 <= k2 < before.vin.len() ==> (#[trigger] before.vin[k2]).pub_key == pk_of(
                        seed,
                    ))) implies spec_verify_result(self@, prev) by {
                assert forall|k2: int|
                    0 <= k2 < self@.vin.len() implies spec_input_verified(self@, prev, k2) by {
                    lemma_payload_sig_independent(self@, before, prev, k2);
                    assert(ed_verify(spec_payload(before, prev, k2), pk_of(seed), sigs@[k2 as int]@));
                    assert(self@.vin[k2].signature == sig_of(spec_payload(before, prev, k2), private_key@));
                    assert(sigs@[k2 as int]@ == sig_of(spec_payload(before, prev, k2), private_key@));
                    assert(self@.vin[k2].pub_key == pk_of(seed));
                    assert(self@.vin[k2].signature.len() == 64);
                }
            }
        }
        Ok(())
    }

    /// Check every input's stored signature against its stored public key
    /// over the recomputed payload. True unconditionally for coinbase
    /// transactions; fails with `DanglingInput` exactly when some input's
    /// prior transaction is absent or has an empty id. A `false` answer is
    /// an ordinary result meaning "reject", not a failure.
    pub fn verify(&self, prev_txs: &Vec<Transaction>) -> (r: Result<bool, Error>)
        requires
            spec_prev_outputs_in_range(self@, prev_txs.deep_view()),
        ensures
            self@.spec_is_coinbase() ==> r == Ok::<bool, Error>(true),
            !self@.spec_is_coinbase() ==> ((r is Err) <==> spec_has_dangling(
                self@,
                prev_txs.deep_view(),
            )),
            r is Err ==> r == Err::<bool, Error>(Error::DanglingInput),
            (match r {
                Ok(b) => b == spec_verify_result(self@, prev_txs.deep_view()),
                Err(_) => true,
            }),
    {
        let ghost prev = prev_txs.deep_view();
        if self.is_coinbase() {
            return Ok(true);
        }
        if !self.check_prev_present(prev_txs) {
            return Err(Error::DanglingInput);
        }
        let n = self.vin.len();
        let mut k: usize = 0;
        while k < n
            invariant
                n == self.vin.len() && k <= n,
                prev == prev_txs.deep_view(),
                !self@.spec_is_coinbase(),
                !spec_has_dangling(self@, prev),
                spec_prev_outputs_in_range(self@, prev),
                forall|j: int| 0 <= j < k ==> spec_input_verified(self@, prev, j),
            decreases n - k,
        {
            proof {
                assert(!spec_input_dangling(self@, prev, k as int));
                assert(self@.vin[k as int] == self.vin@[k as int].deep_view());
            }
            if self.vin[k].pub_key.len() != 32 || self.vin[k].signature.len() != 64 {
                assert(!spec_input_verified(self@, prev, k as int));
                assert(!spec_verify_result(self@, prev));
                return Ok(false);
            }
            let m = self.payload_for(prev_txs, k);
            let ok = ed_check(
                m.as_slice(),
                self.vin[k].pub_key.as_slice(),
                self.vin[k].signature.as_slice(),
            );
            if !ok {
                assert(!spec_input_verified(self@, prev, k as int));
                assert(!spec_verify_result(self@, prev));
                return Ok(false);
            }
            assert(spec_input_verified(self@, prev, k as int));
            k = k + 1;
        }
        assert(spec_all_inputs_verified(self@, prev));
        Ok(true)
    }
}

} // verus!
