//! The byte encoding of ledger records.
//!
//! Blocks are persisted, and transactions hashed, through one fixed
//! length-prefixed little-endian framing. The decoder is proved to invert
//! the encoder, so a record read back from the store is exactly the record
//! that was written.

use vstd::prelude::*;
use vstd::bytes::{
    lemma_auto_spec_u128_to_from_le_bytes, lemma_auto_spec_u32_to_from_le_bytes,
    lemma_auto_spec_u64_to_from_le_bytes, spec_u128_from_le_bytes, spec_u128_to_le_bytes,
    spec_u32_from_le_bytes, spec_u32_to_le_bytes, spec_u64_from_le_bytes, spec_u64_to_le_bytes,
    u128_from_le_bytes, u128_to_le_bytes, u32_from_le_bytes, u32_to_le_bytes, u64_from_le_bytes,
    u64_to_le_bytes,
};
use vstd::slice::{slice_subrange, slice_to_vec};
use crate::block::{Block, BlockView, TARGET_HEXT};
use crate::bytes::push_bytes;
use crate::transaction::{Transaction, TransactionView};
use crate::tx::{TxInput, TxInputView, TxOutput, TxOutputView};

verus! {

// ------------------------------------------------------------------
// The encoding, as a mathematical function of a record's view.
// ------------------------------------------------------------------

pub open spec fn enc_u32(n: u32) -> Seq<u8> {
    spec_u32_to_le_bytes(n)
}

pub open spec fn enc_u64(n: u64) -> Seq<u8> {
    spec_u64_to_le_bytes(n)
}

pub open spec fn enc_u128(n: u128) -> Seq<u8> {
    spec_u128_to_le_bytes(n)
}

pub open spec fn enc_i32(n: i32) -> Seq<u8> {
    enc_u32(n as u32)
}

/// A byte string: its length, then its bytes.
pub open spec fn enc_bytes(b: Seq<u8>) -> Seq<u8> {
    enc_u64(b.len() as u64) + b
}

pub open spec fn enc_input(i: TxInputView) -> Seq<u8> {
    enc_bytes(i.txid) + enc_i32(i.vout) + enc_bytes(i.signature) + enc_bytes(i.pub_key)
}

pub open spec fn enc_output(o: TxOutputView) -> Seq<u8> {
    enc_i32(o.value) + enc_bytes(o.pub_key_hash)
}

pub open spec fn enc_input_items(s: Seq<TxInputView>) -> Seq<u8>
    decreases s.len(),
{
    if s.len() == 0 {
        Seq::empty()
    } else {
        enc_input(s[0]) + enc_input_items(s.drop_first())
    }
}

/// A sequence of inputs: its length, then the items.
pub open spec fn enc_inputs(s: Seq<TxInputView>) -> Seq<u8> {
    enc_u64(s.len() as u64) + enc_input_items(s)
}

pub open spec fn enc_output_items(s: Seq<TxOutputView>) -> Seq<u8>
    decreases s.len(),
{
    if s.len() == 0 {
        Seq::empty()
    } else {
        enc_output(s[0]) + enc_output_items(s.drop_first())
    }
}

pub open spec fn enc_outputs(s: Seq<TxOutputView>) -> Seq<u8> {
    enc_u64(s.len() as u64) + enc_output_items(s)
}

pub open spec fn enc_tx(t: TransactionView) -> Seq<u8> {
    enc_bytes(t.id) + enc_inputs(t.vin) + enc_outputs(t.vout)
}

pub open spec fn enc_tx_items(s: Seq<TransactionView>) -> Seq<u8>
    decreases s.len(),
{
    if s.len() == 0 {
        Seq::empty()
    } else {
        enc_tx(s[0]) + enc_tx_items(s.drop_first())
    }
}

pub open spec fn enc_txs(s: Seq<TransactionView>) -> Seq<u8> {
    enc_u64(s.len() as u64) + enc_tx_items(s)
}

pub open spec fn enc_block(b: BlockView) -> Seq<u8> {
    enc_u128(b.timestamp) + enc_u64(b.height as u64) + enc_i32(b.nonce)
        + enc_bytes(b.prev_block_hash) + enc_bytes(b.hash) + enc_txs(b.transactions)
}

/// What the proof-of-work hash covers: the parent hash, the transactions,
/// the timestamp, the difficulty parameter, and the nonce under trial.
pub open spec fn enc_pow_data(
    prev: Seq<u8>,
    txs: Seq<TransactionView>,
    timestamp: u128,
    nonce: i32,
) -> Seq<u8> {
    enc_bytes(prev) + enc_txs(txs) + enc_u128(timestamp) + enc_u64(TARGET_HEXT as u64) + enc_i32(
        nonce,
    )
}

// ------------------------------------------------------------------
// Length bounds under which a view is encodable losslessly. Every view of
// a real (heap-backed) record satisfies them.
// ------------------------------------------------------------------

pub open spec fn input_len_ok(i: TxInputView) -> bool {
    &&& i.txid.len() <= u64::MAX
    &&& i.signature.len() <= u64::MAX
    &&& i.pub_key.len() <= u64::MAX
}

pub open spec fn output_len_ok(o: TxOutputView) -> bool {
    o.pub_key_hash.len() <= u64::MAX
}

pub open spec fn tx_len_ok(t: TransactionView) -> bool {
    &&& t.id.len() <= u64::MAX
    &&& t.vin.len() <= u64::MAX
    &&& t.vout.len() <= u64::MAX
    &&& forall|k: int| 0 <= k < t.vin.len() ==> input_len_ok(#[trigger] t.vin[k])
    &&& forall|k: int| 0 <= k < t.vout.len() ==> output_len_ok(#[trigger] t.vout[k])
}

pub open spec fn txs_len_ok(s: Seq<TransactionView>) -> bool {
    &&& s.len() <= u64::MAX
    &&& forall|k: int| 0 <= k < s.len() ==> tx_len_ok(#[trigger] s[k])
}

pub open spec fn block_len_ok(b: BlockView) -> bool {
    &&& b.prev_block_hash.len() <= u64::MAX
    &&& b.hash.len() <= u64::MAX
    &&& txs_len_ok(b.transactions)
}

// ------------------------------------------------------------------
// The decoder, as a mathematical function: each piece consumes a prefix
// starting at `pos` and yields the value with the position after it.
// ------------------------------------------------------------------

pub open spec fn dec_u32(s: Seq<u8>, pos: int) -> Option<(u32, int)> {
    if 0 <= pos && pos + 4 <= s.len() {
        Some((spec_u32_from_le_bytes(s.subrange(pos, pos + 4)), pos + 4))
    } else {
        None
    }
}

pub open spec fn dec_u64(s: Seq<u8>, pos: int) -> Option<(u64, int)> {
    if 0 <= pos && pos + 8 <= s.len() {
        Some((spec_u64_from_le_bytes(s.subrange(pos, pos + 8)), pos + 8))
    } else {
        None
    }
}

pub open spec fn dec_u128(s: Seq<u8>, pos: int) -> Option<(u128, int)> {
    if 0 <= pos && pos + 16 <= s.len() {
        Some((spec_u128_from_le_bytes(s.subrange(pos, pos + 16)), pos + 16))
    } else {
        None
    }
}

pub open spec fn dec_i32(s: Seq<u8>, pos: int) -> Option<(i32, int)> {
    match dec_u32(s, pos) {
        Some((v, p)) => Some((v as i32, p)),
        None => None,
    }
}

pub open spec fn dec_bytes(s: Seq<u8>, pos: int) -> Option<(Seq<u8>, int)> {
    match dec_u64(s, pos) {
        Some((n, p)) => if p + n <= s.len() {
            Some((s.subrange(p, p + n), p + n))
        } else {
            None
        },
        None => None,
    }
}

pub open spec fn dec_input(s: Seq<u8>, pos: int) -> Option<(TxInputView, int)> {
    match dec_bytes(s, pos) {
        Some((txid, p1)) => match dec_i32(s, p1) {
            Some((vout, p2)) => match dec_bytes(s, p2) {
                Some((signature, p3)) => match dec_bytes(s, p3) {
                    Some((pub_key, p4)) => Some(
                        (TxInputView { txid, vout, signature, pub_key }, p4),
                    ),
                    None => None,
                },
                None => None,
            },
            None => None,
        },
        None => None,
    }
}

pub open spec fn dec_input_items(s: Seq<u8>, pos: int, count: nat) -> Option<
    (Seq<TxInputView>, int),
>
    decreases count,
{
    if count == 0 {
        Some((Seq::empty(), pos))
    } else {
        match dec_input(s, pos) {
            Some((v, p)) => match dec_input_items(s, p, (count - 1) as nat) {
                Some((rest, p2)) => Some((seq![v] + rest, p2)),
                None => None,
            },
            None => None,
        }
    }
}

pub open spec fn dec_inputs(s: Seq<u8>, pos: int) -> Option<(Seq<TxInputView>, int)> {
    match dec_u64(s, pos) {
        Some((n, p)) => dec_input_items(s, p, n as nat),
        None => None,
    }
}

pub open spec fn dec_output(s: Seq<u8>, pos: int) -> Option<(TxOutputView, int)> {
    match dec_i32(s, pos) {
        Some((value, p1)) => match dec_bytes(s, p1) {
            Some((pub_key_hash, p2)) => Some((TxOutputView { value, pub_key_hash }, p2)),
            None => None,
        },
        None => None,
    }
}

pub open spec fn dec_output_items(s: Seq<u8>, pos: int, count: nat) -> Option<
    (Seq<TxOutputView>, int),
>
    decreases count,
{
    if count == 0 {
        Some((Seq::empty(), pos))
    } else {
        match dec_output(s, pos) {
            Some((v, p)) => match dec_output_items(s, p, (count - 1) as nat) {
                Some((rest, p2)) => Some((seq![v] + rest, p2)),
                None => None,
            },
            None => None,
        }
    }
}

pub open spec fn dec_outputs(s: Seq<u8>, pos: int) -> Option<(Seq<TxOutputView>, int)> {
    match dec_u64(s, pos) {
        Some((n, p)) => dec_output_items(s, p, n as nat),
        None => None,
    }
}

pub open spec fn dec_tx(s: Seq<u8>, pos: int) -> Option<(TransactionView, int)> {
    match dec_bytes(s, pos) {
        Some((id, p1)) => match dec_inputs(s, p1) {
            Some((vin, p2)) => match dec_outputs(s, p2) {
                Some((vout, p3)) => Some((TransactionView { id, vin, vout }, p3)),
                None => None,
            },
            None => None,
        },
        None => None,
    }
}

pub open spec fn dec_tx_items(s: Seq<u8>, pos: int, count: nat) -> Option<
    (Seq<TransactionView>, int),
>
    decreases count,
{
    if count == 0 {
        Some((Seq::empty(), pos))
    } else {
        match dec_tx(s, pos) {
            Some((v, p)) => match dec_tx_items(s, p, (count - 1) as nat) {
                Some((rest, p2)) => Some((seq![v] + rest, p2)),
                None => None,
            },
            None => None,
        }
    }
}

pub open spec fn dec_txs(s: Seq<u8>, pos: int) -> Option<(Seq<TransactionView>, int)> {
    match dec_u64(s, pos) {
        Some((n, p)) => dec_tx_items(s, p, n as nat),
        None => None,
    }
}

pub open spec fn dec_block(s: Seq<u8>, pos: int) -> Option<(BlockView, int)> {
    match dec_u128(s, pos) {
        Some((timestamp, p1)) => match dec_u64(s, p1) {
            Some((h, p2)) => if h <= usize::MAX as u64 {
                match dec_i32(s, p2) {
                    Some((nonce, p3)) => match dec_bytes(s, p3) {
                        Some((prev_block_hash, p4)) => match dec_bytes(s, p4) {
                            Some((hash, p5)) => match dec_txs(s, p5) {
                                Some((transactions, p6)) => Some(
                                    (
                                        BlockView {
                                            timestamp,
                                            transactions,
                                            prev_block_hash,
                                            hash,
                                            height: h as usize,
                                            nonce,
                                        },
                                        p6,
                                    ),
                                ),
                                None => None,
                            },
                            None => None,
                        },
                        None => None,
                    },
                    None => None,
                }
            } else {
                None
            },
            None => None,
        },
        None => None,
    }
}

// ------------------------------------------------------------------
// The executable encoder: appends to a growing buffer and lands exactly on
// the mathematical encoding.
// ------------------------------------------------------------------

pub(crate) fn push_u32(out: &mut Vec<u8>, n: u32)
    ensures
        final(out)@ == old(out)@ + enc_u32(n),
{
    let b = u32_to_le_bytes(n);
    push_bytes(out, b.as_slice());
}

pub(crate) fn push_u64(out: &mut Vec<u8>, n: u64)
    ensures
        final(out)@ == old(out)@ + enc_u64(n),
{
    let b = u64_to_le_bytes(n);
    push_bytes(out, b.as_slice());
}

pub(crate) fn push_u128(out: &mut Vec<u8>, n: u128)
    ensures
        final(out)@ == old(out)@ + enc_u128(n),
{
    let b = u128_to_le_bytes(n);
    push_bytes(out, b.as_slice());
}

pub(crate) fn push_i32(out: &mut Vec<u8>, n: i32)
    ensures
        final(out)@ == old(out)@ + enc_i32(n),
{
    push_u32(out, n as u32);
}

pub(crate) fn push_len_bytes(out: &mut Vec<u8>, b: &[u8])
    ensures
        final(out)@ == old(out)@ + enc_bytes(b@),
        b@.len() <= u64::MAX,
{
    assert(b@.len() == b.len());
    push_u64(out, b.len() as u64);
    push_bytes(out, b);
}

pub(crate) fn push_input(out: &mut Vec<u8>, i: &TxInput)
    ensures
        final(out)@ == old(out)@ + enc_input(i@),
        input_len_ok(i@),
{
    push_len_bytes(out, i.txid.as_slice());
    push_i32(out, i.vout);
    push_len_bytes(out, i.signature.as_slice());
    push_len_bytes(out, i.pub_key.as_slice());
    assert(out@ =~= old(out)@ + enc_input(i@));
}

pub(crate) fn push_output(out: &mut Vec<u8>, o: &TxOutput)
    ensures
        final(out)@ == old(out)@ + enc_output(o@),
        output_len_ok(o@),
{
    push_i32(out, o.value);
    push_len_bytes(out, o.pub_key_hash.as_slice());
    assert(out@ =~= old(out)@ + enc_output(o@));
}

proof fn lemma_enc_input_items_snoc(s: Seq<TxInputView>, x: TxInputView)
    ensures
        enc_input_items(s.push(x)) == enc_input_items(s) + enc_input(x),
    decreases s.len(),
{
    if s.len() == 0 {
        assert(s.push(x)[0] == x);
        assert(s.push(x).drop_first() =~= Seq::<TxInputView>::empty());
        assert(enc_input_items(Seq::<TxInputView>::empty()) == Seq::<u8>::empty());
        assert(enc_input_items(s.push(x)) == enc_input(x) + Seq::<u8>::empty());
        assert(enc_input(x) + Seq::<u8>::empty() =~= enc_input(x));
        assert(enc_input_items(s) + enc_input(x) =~= enc_input(x));
    } else {
        assert(s.push(x)[0] == s[0]);
        assert(s.push(x).drop_first() =~= s.drop_first().push(x));
        lemma_enc_input_items_snoc(s.drop_first(), x);
        assert(enc_input_items(s.push(x)) == enc_input(s[0]) + (enc_input_items(s.drop_first())
            + enc_input(x)));
        assert(enc_input(s[0]) + (enc_input_items(s.drop_first()) + enc_input(x)) =~= (enc_input(
            s[0],
        ) + enc_input_items(s.drop_first())) + enc_input(x));
    }
}

proof fn lemma_enc_output_items_snoc(s: Seq<TxOutputView>, x: TxOutputView)
    ensures
        enc_output_items(s.push(x)) == enc_output_items(s) + enc_output(x),
    decreases s.len(),
{
    if s.len() == 0 {
        assert(s.push(x)[0] == x);
        assert(s.push(x).drop_first() =~= Seq::<TxOutputView>::empty());
        assert(enc_output_items(Seq::<TxOutputView>::empty()) == Seq::<u8>::empty());
        assert(enc_output_items(s.push(x)) == enc_output(x) + Seq::<u8>::empty());
        assert(enc_output(x) + Seq::<u8>::empty() =~= enc_output(x));
        assert(enc_output_items(s) + enc_output(x) =~= enc_output(x));
    } else {
        assert(s.push(x)[0] == s[0]);
        assert(s.push(x).drop_first() =~= s.drop_first().push(x));
        lemma_enc_output_items_snoc(s.drop_first(), x);
        assert(enc_output_items(s.push(x)) == enc_output(s[0]) + (enc_output_items(s.drop_first())
            + enc_output(x)));
        assert(enc_output(s[0]) + (enc_output_items(s.drop_first()) + enc_output(x)) =~= (
        enc_output(s[0]) + enc_output_items(s.drop_first())) + enc_output(x));
    }
}

proof fn lemma_enc_tx_items_snoc(s: Seq<TransactionView>, x: TransactionView)
    ensures
        enc_tx_items(s.push(x)) == enc_tx_items(s) + enc_tx(x),
    decreases s.len(),
{
    if s.len() == 0 {
        assert(s.push(x)[0] == x);
        assert(s.push(x).drop_first() =~= Seq::<TransactionView>::empty());
        assert(enc_tx_items(Seq::<TransactionView>::empty()) == Seq::<u8>::empty());
        assert(enc_tx_items(s.push(x)) == enc_tx(x) + Seq::<u8>::empty());
        assert(enc_tx(x) + Seq::<u8>::empty() =~= enc_tx(x));
        assert(enc_tx_items(s) + enc_tx(x) =~= enc_tx(x));
    } else {
        assert(s.push(x)[0] == s[0]);
        assert(s.push(x).drop_first() =~= s.drop_first().push(x));
        lemma_enc_tx_items_snoc(s.drop_first(), x);
        assert(enc_tx_items(s.push(x)) == enc_tx(s[0]) + (enc_tx_items(s.drop_first()) + enc_tx(
            x,
        )));
        assert(enc_tx(s[0]) + (enc_tx_items(s.drop_first()) + enc_tx(x)) =~= (enc_tx(s[0])
            + enc_tx_items(s.drop_first())) + enc_tx(x));
    }
}

pub(crate) fn push_inputs(out: &mut Vec<u8>, v: &Vec<TxInput>)
    ensures
        final(out)@ == old(out)@ + enc_inputs(v.deep_view()),
        v.deep_view().len() <= u64::MAX,
        forall|k: int| 0 <= k < v.deep_view().len() ==> input_len_ok(#[trigger] v.deep_view()[k]),
{
    let ghost s = v.deep_view();
    assert(s.len() == v@.len());
    push_u64(out, v.len() as u64);
    let n = v.len();
    let mut i: usize = 0;
    while i < n
        invariant
            n == v.len() && i <= n && s == v.deep_view() && s.len() == n,
            out@ == old(out)@ + enc_u64(n as u64) + enc_input_items(s.take(i as int)),
            forall|k: int| 0 <= k < i ==> input_len_ok(#[trigger] s[k]),
        decreases n - i,
    {
        push_input(out, &v[i]);
        proof {
            assert(s.take(i as int + 1) =~= s.take(i as int).push(s[i as int]));
            lemma_enc_input_items_snoc(s.take(i as int), s[i as int]);
            assert(v[i as int]@ == s[i as int]);
        }
        i = i + 1;
    }
    proof {
        assert(s.take(n as int) =~= s);
        assert(old(out)@ + enc_u64(n as u64) + enc_input_items(s) =~= old(out)@ + enc_inputs(s));
    }
}

pub(crate) fn push_outputs(out: &mut Vec<u8>, v: &Vec<TxOutput>)
    ensures
        final(out)@ == old(out)@ + enc_outputs(v.deep_view()),
        v.deep_view().len() <= u64::MAX,
        forall|k: int| 0 <= k < v.deep_view().len() ==> output_len_ok(#[trigger] v.deep_view()[k]),
{
    let ghost s = v.deep_view();
    assert(s.len() == v@.len());
    push_u64(out, v.len() as u64);
    let n = v.len();
    let mut i: usize = 0;
    while i < n
        invariant
            n == v.len() && i <= n && s == v.deep_view() && s.len() == n,
            out@ == old(out)@ + enc_u64(n as u64) + enc_output_items(s.take(i as int)),
            forall|k: int| 0 <= k < i ==> output_len_ok(#[trigger] s[k]),
        decreases n - i,
    {
        push_output(out, &v[i]);
        proof {
            assert(s.take(i as int + 1) =~= s.take(i as int).push(s[i as int]));
            lemma_enc_output_items_snoc(s.take(i as int), s[i as int]);
            assert(v[i as int]@ == s[i as int]);
        }
        i = i + 1;
    }
    proof {
        assert(s.take(n as int) =~= s);
        assert(old(out)@ + enc_u64(n as u64) + enc_output_items(s) =~= old(out)@ + enc_outputs(s));
    }
}

pub(crate) fn push_tx(out: &mut Vec<u8>, t: &Transaction)
    ensures
        final(out)@ == old(out)@ + enc_tx(t@),
        tx_len_ok(t@),
{
    push_len_bytes(out, t.id.as_slice());
    push_inputs(out, &t.vin);
    push_outputs(out, &t.vout);
    assert(out@ =~= old(out)@ + enc_tx(t@));
}

pub(crate) fn push_txs(out: &mut Vec<u8>, v: &Vec<Transaction>)
    ensures
        final(out)@ == old(out)@ + enc_txs(v.deep_view()),
        txs_len_ok(v.deep_view()),
{
    let ghost s = v.deep_view();
    assert(s.len() == v@.len());
    push_u64(out, v.len() as u64);
    let n = v.len();
    let mut i: usize = 0;
    while i < n
        invariant
            n == v.len() && i <= n && s == v.deep_view() && s.len() == n,
            out@ == old(out)@ + enc_u64(n as u64) + enc_tx_items(s.take(i as int)),
            forall|k: int| 0 <= k < i ==> tx_len_ok(#[trigger] s[k]),
        decreases n - i,
    {
        push_tx(out, &v[i]);
        proof {
            assert(s.take(i as int + 1) =~= s.take(i as int).push(s[i as int]));
            lemma_enc_tx_items_snoc(s.take(i as int), s[i as int]);
            assert(v[i as int]@ == s[i as int]);
        }
        i = i + 1;
    }
    proof {
        assert(s.take(n as int) =~= s);
        assert(old(out)@ + enc_u64(n as u64) + enc_tx_items(s) =~= old(out)@ + enc_txs(s));
    }
}

/// Encode a transaction under a caller-chosen id: the skeleton that both
/// storage and hashing build on.
pub(crate) fn encode_tx_with_id(id: &[u8], vin: &Vec<TxInput>, vout: &Vec<TxOutput>) -> (r: Vec<
    u8,
>)
    ensures
        r@ == enc_tx(
            TransactionView { id: id@, vin: vin.deep_view(), vout: vout.deep_view() },
        ),
{
    let mut out: Vec<u8> = Vec::new();
    push_len_bytes(&mut out, id);
    push_inputs(&mut out, vin);
    push_outputs(&mut out, vout);
    assert(out@ =~= Seq::<u8>::empty() + enc_bytes(id@) + enc_inputs(vin.deep_view())
        + enc_outputs(vout.deep_view()));
    assert(out@ =~= enc_tx(
        TransactionView { id: id@, vin: vin.deep_view(), vout: vout.deep_view() },
    ));
    out
}

/// Encode a whole block for storage.
pub(crate) fn encode_block(b: &Block) -> (r: Vec<u8>)
    ensures
        r@ == enc_block(b@),
        block_len_ok(b@),
{
    let mut out: Vec<u8> = Vec::new();
    push_u128(&mut out, b.timestamp);
    push_u64(&mut out, b.height as u64);
    push_i32(&mut out, b.nonce);
    push_len_bytes(&mut out, b.prev_block_hash.as_slice());
    push_len_bytes(&mut out, b.hash.as_slice());
    push_txs(&mut out, &b.transaction);
    assert(out@ =~= enc_block(b@));
    out
}

/// Encode what the proof-of-work hash covers, for the nonce currently held
/// by the block.
pub(crate) fn encode_pow_data(b: &Block) -> (r: Vec<u8>)
    ensures
        r@ == enc_pow_data(b@.prev_block_hash, b@.transactions, b@.timestamp, b@.nonce),
{
    let mut out: Vec<u8> = Vec::new();
    push_len_bytes(&mut out, b.prev_block_hash.as_slice());
    push_txs(&mut out, &b.transaction);
    push_u128(&mut out, b.timestamp);
    push_u64(&mut out, TARGET_HEXT as u64);
    push_i32(&mut out, b.nonce);
    assert(out@ =~= enc_pow_data(b@.prev_block_hash, b@.transactions, b@.timestamp, b@.nonce));
    out
}

// ------------------------------------------------------------------
// The decoder inverts the encoder: reading an encoding out of any buffer
// that holds it yields the encoded value and lands just after it.
// ------------------------------------------------------------------

proof fn lemma_split_at(s: Seq<u8>, pos: int, a: Seq<u8>, b: Seq<u8>)
    requires
        0 <= pos,
        pos + a.len() + b.len() <= s.len(),
        s.subrange(pos, pos + a.len() + b.len()) == a + b,
    ensures
        s.subrange(pos, pos + a.len()) == a,
        s.subrange(pos + a.len(), pos + a.len() + b.len()) == b,
{
    assert forall|k: int| 0 <= k < a.len() implies s.subrange(pos, pos + a.len())[k] == a[k] by {
        assert(s.subrange(pos, pos + a.len() + b.len())[k] == (a + b)[k]);
    }
    assert(s.subrange(pos, pos + a.len()) =~= a);
    assert forall|k: int|
        0 <= k < b.len() implies s.subrange(pos + a.len(), pos + a.len() + b.len())[k] == b[k] by {
        let j = a.len() + k;
        assert(s.subrange(pos, pos + a.len() + b.len())[j] == s[pos + j]);
        assert((a + b)[j] == b[k]);
        assert(s.subrange(pos + a.len(), pos + a.len() + b.len())[k] == s[pos + a.len() + k]);
    }
    assert(s.subrange(pos + a.len(), pos + a.len() + b.len()) =~= b);
}

proof fn lemma_dec_u32_enc(s: Seq<u8>, pos: int, n: u32)
    requires
        0 <= pos,
        pos + 4 <= s.len(),
        s.subrange(pos, pos + 4) == enc_u32(n),
    ensures
        dec_u32(s, pos) == Some((n, pos + 4)),
{
    lemma_auto_spec_u32_to_from_le_bytes();
    assert(spec_u32_to_le_bytes(n).len() == 4);
    assert(spec_u32_from_le_bytes(s.subrange(pos, pos + 4)) == spec_u32_from_le_bytes(
        spec_u32_to_le_bytes(n),
    ));
}

proof fn lemma_dec_u64_enc(s: Seq<u8>, pos: int, n: u64)
    requires
        0 <= pos,
        pos + 8 <= s.len(),
        s.subrange(pos, pos + 8) == enc_u64(n),
    ensures
        dec_u64(s, pos) == Some((n, pos + 8)),
{
    lemma_auto_spec_u64_to_from_le_bytes();
}

proof fn lemma_dec_u128_enc(s: Seq<u8>, pos: int, n: u128)
    requires
        0 <= pos,
        pos + 16 <= s.len(),
        s.subrange(pos, pos + 16) == enc_u128(n),
    ensures
        dec_u128(s, pos) == Some((n, pos + 16)),
{
    lemma_auto_spec_u128_to_from_le_bytes();
    assert(spec_u128_to_le_bytes(n).len() == 16);
    assert(spec_u128_from_le_bytes(s.subrange(pos, pos + 16)) == spec_u128_from_le_bytes(
        spec_u128_to_le_bytes(n),
    ));
}

proof fn lemma_i32_u32_rt(n: i32)
    ensures
        ((n as u32) as i32) == n,
{
    assert(((n as u32) as i32) == n) by (bit_vector);
}

proof fn lemma_dec_i32_enc(s: Seq<u8>, pos: int, n: i32)
    requires
        0 <= pos,
        pos + 4 <= s.len(),
        s.subrange(pos, pos + 4) == enc_i32(n),
    ensures
        dec_i32(s, pos) == Some((n, pos + 4)),
{
    lemma_dec_u32_enc(s, pos, n as u32);
    lemma_i32_u32_rt(n);
}

/// The length of every encoding piece is pinned by the auto lemmas.
proof fn lemma_enc_prim_lens()
    ensures
        forall|n: u32| (#[trigger] enc_u32(n)).len() == 4,
        forall|n: u64| (#[trigger] enc_u64(n)).len() == 8,
        forall|n: u128| (#[trigger] enc_u128(n)).len() == 16,
        forall|n: i32| (#[trigger] enc_i32(n)).len() == 4,
        forall|b: Seq<u8>| (#[trigger] enc_bytes(b)).len() == 8 + b.len(),
{
    lemma_auto_spec_u32_to_from_le_bytes();
    lemma_auto_spec_u64_to_from_le_bytes();
    lemma_auto_spec_u128_to_from_le_bytes();
}

proof fn lemma_dec_bytes_enc(s: Seq<u8>, pos: int, b: Seq<u8>)
    requires
        0 <= pos,
        b.len() <= u64::MAX,
        pos + 8 + b.len() <= s.len(),
        s.subrange(pos, pos + 8 + b.len()) == enc_bytes(b),
    ensures
        dec_bytes(s, pos) == Some((b, pos + 8 + b.len())),
{
    lemma_enc_prim_lens();
    let ln = b.len() as u64;
    assert(ln as int == b.len());
    lemma_split_at(s, pos, enc_u64(ln), b);
    lemma_dec_u64_enc(s, pos, ln);
}

proof fn lemma_dec_input_enc(s: Seq<u8>, pos: int, i: TxInputView)
    requires
        0 <= pos,
        input_len_ok(i),
        pos + enc_input(i).len() <= s.len(),
        s.subrange(pos, pos + enc_input(i).len()) == enc_input(i),
    ensures
        dec_input(s, pos) == Some((i, pos + enc_input(i).len())),
{
    lemma_enc_prim_lens();
    let a = enc_bytes(i.txid);
    let bb = enc_i32(i.vout);
    let c = enc_bytes(i.signature);
    let d = enc_bytes(i.pub_key);
    assert(enc_input(i) =~= a + (bb + (c + d)));
    lemma_split_at(s, pos, a, bb + (c + d));
    lemma_dec_bytes_enc(s, pos, i.txid);
    let p1 = pos + a.len();
    lemma_split_at(s, p1, bb, c + d);
    lemma_dec_i32_enc(s, p1, i.vout);
    let p2 = p1 + bb.len();
    lemma_split_at(s, p2, c, d);
    lemma_dec_bytes_enc(s, p2, i.signature);
    let p3 = p2 + c.len();
    lemma_dec_bytes_enc(s, p3, i.pub_key);
    assert(dec_input(s, pos) == Some((i, p3 + d.len())));
}

proof fn lemma_dec_output_enc(s: Seq<u8>, pos: int, o: TxOutputView)
    requires
        0 <= pos,
        output_len_ok(o),
        pos + enc_output(o).len() <= s.len(),
        s.subrange(pos, pos + enc_output(o).len()) == enc_output(o),
    ensures
        dec_output(s, pos) == Some((o, pos + enc_output(o).len())),
{
    lemma_enc_prim_lens();
    let a = enc_i32(o.value);
    let bb = enc_bytes(o.pub_key_hash);
    lemma_split_at(s, pos, a, bb);
    lemma_dec_i32_enc(s, pos, o.value);
    lemma_dec_bytes_enc(s, pos + a.len(), o.pub_key_hash);
}

proof fn lemma_dec_input_items_enc(s: Seq<u8>, pos: int, items: Seq<TxInputView>)
    requires
        0 <= pos,
        forall|k: int| 0 <= k < items.len() ==> input_len_ok(#[trigger] items[k]),
        pos + enc_input_items(items).len() <= s.len(),
        s.subrange(pos, pos + enc_input_items(items).len()) == enc_input_items(items),
    ensures
        dec_input_items(s, pos, items.len() as nat) == Some(
            (items, pos + enc_input_items(items).len()),
        ),
    decreases items.len(),
{
    if items.len() == 0 {
        assert(items =~= Seq::<TxInputView>::empty());
    } else {
        let a = enc_input(items[0]);
        let rest = enc_input_items(items.drop_first());
        lemma_split_at(s, pos, a, rest);
        lemma_dec_input_enc(s, pos, items[0]);
        lemma_dec_input_items_enc(s, pos + a.len(), items.drop_first());
        assert(seq![items[0]] + items.drop_first() =~= items);
    }
}

proof fn lemma_dec_output_items_enc(s: Seq<u8>, pos: int, items: Seq<TxOutputView>)
    requires
        0 <= pos,
        forall|k: int| 0 <= k < items.len() ==> output_len_ok(#[trigger] items[k]),
        pos + enc_output_items(items).len() <= s.len(),
        s.subrange(pos, pos + enc_output_items(items).len()) == enc_output_items(items),
    ensures
        dec_output_items(s, pos, items.len() as nat) == Some(
            (items, pos + enc_output_items(items).len()),
        ),
    decreases items.len(),
{
    if items.len() == 0 {
        assert(items =~= Seq::<TxOutputView>::empty());
    } else {
        let a = enc_output(items[0]);
        let rest = enc_output_items(items.drop_first());
        lemma_split_at(s, pos, a, rest);
        lemma_dec_output_enc(s, pos, items[0]);
        lemma_dec_output_items_enc(s, pos + a.len(), items.drop_first());
        assert(seq![items[0]] + items.drop_first() =~= items);
    }
}

proof fn lemma_dec_inputs_enc(s: Seq<u8>, pos: int, items: Seq<TxInputView>)
    requires
        0 <= pos,
        items.len() <= u64::MAX,
        forall|k: int| 0 <= k < items.len() ==> input_len_ok(#[trigger] items[k]),
        pos + enc_inputs(items).len() <= s.len(),
        s.subrange(pos, pos + enc_inputs(items).len()) == enc_inputs(items),
    ensures
        dec_inputs(s, pos) == Some((items, pos + enc_inputs(items).len())),
{
    lemma_enc_prim_lens();
    let ln = items.len() as u64;
    lemma_split_at(s, pos, enc_u64(ln), enc_input_items(items));
    lemma_dec_u64_enc(s, pos, ln);
    lemma_dec_input_items_enc(s, pos + 8, items);
}

proof fn lemma_dec_outputs_enc(s: Seq<u8>, pos: int, items: Seq<TxOutputView>)
    requires
        0 <= pos,
        items.len() <= u64::MAX,
        forall|k: int| 0 <= k < items.len() ==> output_len_ok(#[trigger] items[k]),
        pos + enc_outputs(items).len() <= s.len(),
        s.subrange(pos, pos + enc_outputs(items).len()) == enc_outputs(items),
    ensures
        dec_outputs(s, pos) == Some((items, pos + enc_outputs(items).len())),
{
    lemma_enc_prim_lens();
    let ln = items.len() as u64;
    lemma_split_at(s, pos, enc_u64(ln), enc_output_items(items));
    lemma_dec_u64_enc(s, pos, ln);
    lemma_dec_output_items_enc(s, pos + 8, items);
}

proof fn lemma_dec_tx_enc(s: Seq<u8>, pos: int, t: TransactionView)
    requires
        0 <= pos,
        tx_len_ok(t),
        pos + enc_tx(t).len() <= s.len(),
        s.subrange(pos, pos + enc_tx(t).len()) == enc_tx(t),
    ensures
        dec_tx(s, pos) == Some((t, pos + enc_tx(t).len())),
{
    lemma_enc_prim_lens();
    let a = enc_bytes(t.id);
    let bb = enc_inputs(t.vin);
    let c = enc_outputs(t.vout);
    assert(enc_tx(t) =~= a + (bb + c));
    lemma_split_at(s, pos, a, bb + c);
    lemma_dec_bytes_enc(s, pos, t.id);
    let p1 = pos + a.len();
    lemma_split_at(s, p1, bb, c);
    lemma_dec_inputs_enc(s, p1, t.vin);
    let p2 = p1 + bb.len();
    lemma_dec_outputs_enc(s, p2, t.vout);
    assert(t =~= TransactionView { id: t.id, vin: t.vin, vout: t.vout });
}

proof fn lemma_dec_tx_items_enc(s: Seq<u8>, pos: int, items: Seq<TransactionView>)
    requires
        0 <= pos,
        forall|k: int| 0 <= k < items.len() ==> tx_len_ok(#[trigger] items[k]),
        pos + enc_tx_items(items).len() <= s.len(),
        s.subrange(pos, pos + enc_tx_items(items).len()) == enc_tx_items(items),
    ensures
        dec_tx_items(s, pos, items.len() as nat) == Some(
            (items, pos + enc_tx_items(items).len()),
        ),
    decreases items.len(),
{
    if items.len() == 0 {
        assert(items =~= Seq::<TransactionView>::empty());
    } else {
        let a = enc_tx(items[0]);
        let rest = enc_tx_items(items.drop_first());
        lemma_split_at(s, pos, a, rest);
        lemma_dec_tx_enc(s, pos, items[0]);
        lemma_dec_tx_items_enc(s, pos + a.len(), items.drop_first());
        assert(seq![items[0]] + items.drop_first() =~= items);
    }
}

proof fn lemma_dec_txs_enc(s: Seq<u8>, pos: int, items: Seq<TransactionView>)
    requires
        0 <= pos,
        txs_len_ok(items),
        pos + enc_txs(items).len() <= s.len(),
        s.subrange(pos, pos + enc_txs(items).len()) == enc_txs(items),
    ensures
        dec_txs(s, pos) == Some((items, pos + enc_txs(items).len())),
{
    lemma_enc_prim_lens();
    let ln = items.len() as u64;
    lemma_split_at(s, pos, enc_u64(ln), enc_tx_items(items));
    lemma_dec_u64_enc(s, pos, ln);
    lemma_dec_tx_items_enc(s, pos + 8, items);
}

/// Decoding an encoded block out of any buffer that holds it yields the
/// block itself.
pub proof fn lemma_dec_block_enc(s: Seq<u8>, pos: int, b: BlockView)
    requires
        0 <= pos,
        block_len_ok(b),
        pos + enc_block(b).len() <= s.len(),
        s.subrange(pos, pos + enc_block(b).len()) == enc_block(b),
    ensures
        dec_block(s, pos) == Some((b, pos + enc_block(b).len())),
{
    lemma_enc_prim_lens();
    let a = enc_u128(b.timestamp);
    let b2 = enc_u64(b.height as u64);
    let c = enc_i32(b.nonce);
    let d = enc_bytes(b.prev_block_hash);
    let e = enc_bytes(b.hash);
    let f = enc_txs(b.transactions);
    assert(enc_block(b) =~= a + (b2 + (c + (d + (e + f)))));
    lemma_split_at(s, pos, a, b2 + (c + (d + (e + f))));
    lemma_dec_u128_enc(s, pos, b.timestamp);
    let p1 = pos + a.len();
    lemma_split_at(s, p1, b2, c + (d + (e + f)));
    lemma_dec_u64_enc(s, p1, b.height as u64);
    let p2 = p1 + b2.len();
    lemma_split_at(s, p2, c, d + (e + f));
    lemma_dec_i32_enc(s, p2, b.nonce);
    let p3 = p2 + c.len();
    lemma_split_at(s, p3, d, e + f);
    lemma_dec_bytes_enc(s, p3, b.prev_block_hash);
    let p4 = p3 + d.len();
    lemma_split_at(s, p4, e, f);
    lemma_dec_bytes_enc(s, p4, b.hash);
    let p5 = p4 + e.len();
    lemma_dec_txs_enc(s, p5, b.transactions);
    assert((b.height as u64) <= usize::MAX as u64);
    assert(((b.height as u64) as usize) == b.height);
    assert(b =~= BlockView {
        timestamp: b.timestamp,
        transactions: b.transactions,
        prev_block_hash: b.prev_block_hash,
        hash: b.hash,
        height: b.height,
        nonce: b.nonce,
    });
}

/// The round trip: a stored block decodes to itself.
pub proof fn lemma_block_round_trip(b: BlockView)
    requires
        block_len_ok(b),
    ensures
        dec_block(enc_block(b), 0) == Some((b, enc_block(b).len() as int)),
{
    let s = enc_block(b);
    assert(s.subrange(0, s.len() as int) =~= s);
    lemma_dec_block_enc(s, 0, b);
}

// ------------------------------------------------------------------
// The executable decoder: mirrors the mathematical one exactly.
// ------------------------------------------------------------------

pub(crate) fn read_u32(s: &[u8], pos: usize) -> (r: Option<(u32, usize)>)
    ensures
        (match (dec_u32(s@, pos as int), r) {
            (Some(t), Some(e)) => e.0 == t.0 && e.1 == t.1,
            (None, None) => true,
            _ => false,
        }),
        (match r {
            Some(e) => e.1 <= s@.len(),
            None => true,
        }),
{
    if s.len() < 4 || pos > s.len() - 4 {
        return None;
    }
    let part = slice_subrange(s, pos, pos + 4);
    let v = u32_from_le_bytes(part);
    Some((v, pos + 4))
}

pub(crate) fn read_u64(s: &[u8], pos: usize) -> (r: Option<(u64, usize)>)
    ensures
        (match (dec_u64(s@, pos as int), r) {
            (Some(t), Some(e)) => e.0 == t.0 && e.1 == t.1,
            (None, None) => true,
            _ => false,
        }),
        (match r {
            Some(e) => e.1 <= s@.len(),
            None => true,
        }),
{
    if s.len() < 8 || pos > s.len() - 8 {
        return None;
    }
    let part = slice_subrange(s, pos, pos + 8);
    let v = u64_from_le_bytes(part);
    Some((v, pos + 8))
}

pub(crate) fn read_u128(s: &[u8], pos: usize) -> (r: Option<(u128, usize)>)
    ensures
        (match (dec_u128(s@, pos as int), r) {
            (Some(t), Some(e)) => e.0 == t.0 && e.1 == t.1,
            (None, None) => true,
            _ => false,
        }),
        (match r {
            Some(e) => e.1 <= s@.len(),
            None => true,
        }),
{
    if s.len() < 16 || pos > s.len() - 16 {
        return None;
    }
    let part = slice_subrange(s, pos, pos + 16);
    let v = u128_from_le_bytes(part);
    Some((v, pos + 16))
}

pub(crate) fn read_i32(s: &[u8], pos: usize) -> (r: Option<(i32, usize)>)
    ensures
        (match (dec_i32(s@, pos as int), r) {
            (Some(t), Some(e)) => e.0 == t.0 && e.1 == t.1,
            (None, None) => true,
            _ => false,
        }),
        (match r {
            Some(e) => e.1 <= s@.len(),
            None => true,
        }),
{
    match read_u32(s, pos) {
        Some((v, p)) => Some((v as i32, p)),
        None => None,
    }
}

pub(crate) fn read_bytes(s: &[u8], pos: usize) -> (r: Option<(Vec<u8>, usize)>)
    ensures
        (match (dec_bytes(s@, pos as int), r) {
            (Some(t), Some(e)) => e.0@ == t.0 && e.1 == t.1,
            (None, None) => true,
            _ => false,
        }),
        (match r {
            Some(e) => e.1 <= s@.len(),
            None => true,
        }),
{
    match read_u64(s, pos) {
        Some((n, p)) => {
            if n > (s.len() - p) as u64 {
                return None;
            }
            let ln = n as usize;
            let part = slice_subrange(s, p, p + ln);
            Some((slice_to_vec(part), p + ln))
        },
        None => None,
    }
}

pub(crate) fn read_input(s: &[u8], pos: usize) -> (r: Option<(TxInput, usize)>)
    ensures
        (match (dec_input(s@, pos as int), r) {
            (Some(t), Some(e)) => e.0@ == t.0 && e.1 == t.1,
            (None, None) => true,
            _ => false,
        }),
        (match r {
            Some(e) => e.1 <= s@.len(),
            None => true,
        }),
{
    match read_bytes(s, pos) {
        Some((txid, p1)) => match read_i32(s, p1) {
            Some((vout, p2)) => match read_bytes(s, p2) {
                Some((signature, p3)) => match read_bytes(s, p3) {
                    Some((pub_key, p4)) => {
                        let e = TxInput { txid, vout, signature, pub_key };
                        assert((match dec_input(s@, pos as int) {
                            Some(t) => e@ =~= t.0,
                            None => false,
                        }));
                        Some((e, p4))
                    },
                    None => None,
                },
                None => None,
            },
            None => None,
        },
        None => None,
    }
}

pub(crate) fn read_output(s: &[u8], pos: usize) -> (r: Option<(TxOutput, usize)>)
    ensures
        (match (dec_output(s@, pos as int), r) {
            (Some(t), Some(e)) => e.0@ == t.0 && e.1 == t.1,
            (None, None) => true,
            _ => false,
        }),
        (match r {
            Some(e) => e.1 <= s@.len(),
            None => true,
        }),
{
    match read_i32(s, pos) {
        Some((value, p1)) => match read_bytes(s, p1) {
            Some((pub_key_hash, p2)) => {
                let e = TxOutput { value, pub_key_hash };
                assert((match dec_output(s@, pos as int) {
                    Some(t) => e@ =~= t.0,
                    None => false,
                }));
                Some((e, p2))
            },
            None => None,
        },
        None => None,
    }
}

pub(crate) fn read_inputs(s: &[u8], pos: usize) -> (r: Option<(Vec<TxInput>, usize)>)
    ensures
        (match (dec_inputs(s@, pos as int), r) {
            (Some(t), Some(e)) => e.0.deep_view() == t.0 && e.1 == t.1,
            (None, None) => true,
            _ => false,
        }),
        (match r {
            Some(e) => e.1 <= s@.len(),
            None => true,
        }),
{
    match read_u64(s, pos) {
        Some((n, p0)) => {
            let mut acc: Vec<TxInput> = Vec::new();
            let mut p: usize = p0;
            let mut i: u64 = 0;
            while i < n
                invariant
                    i <= n,
                    p <= s@.len(),
                    dec_inputs(s@, pos as int) == dec_input_items(s@, p0 as int, n as nat),
                    (match dec_input_items(s@, p as int, (n - i) as nat) {
                        Some(t) => dec_input_items(s@, p0 as int, n as nat) == Some(
                            (acc.deep_view() + t.0, t.1),
                        ),
                        None => dec_input_items(s@, p0 as int, n as nat) is None,
                    }),
                decreases n - i,
            {
                match read_input(s, p) {
                    Some((v, p2)) => {
                        let ghost pre = acc;
                        let ghost xv = v;
                        acc.push(v);
                        proof {
                            crate::bytes::lemma_vec_deep_push(pre, acc, xv);
                            let rem = (n - i) as nat;
                            let iv = (dec_input(s@, p as int)->0).0;
                            assert((match dec_input_items(s@, p2 as int, (rem - 1) as nat) {
                                Some(t2) => {
                                    &&& seq![iv] + t2.0 == (dec_input_items(
                                        s@,
                                        p as int,
                                        rem,
                                    )->0).0
                                    &&& acc.deep_view() + t2.0 =~= (pre.deep_view() + (seq![iv]
                                        + t2.0))
                                },
                                None => true,
                            }));
                        }
                        p = p2;
                    },
                    None => {
                        proof {
                            assert((n - i) as nat > 0);
                            assert(dec_input_items(s@, p as int, (n - i) as nat) is None);
                        }
                        return None;
                    },
                }
                i = i + 1;
            }
            assert(dec_input_items(s@, p as int, 0) == Some((Seq::<TxInputView>::empty(), p as int)));
            assert(acc.deep_view() + Seq::<TxInputView>::empty() =~= acc.deep_view());
            Some((acc, p))
        },
        None => None,
    }
}

pub(crate) fn read_outputs(s: &[u8], pos: usize) -> (r: Option<(Vec<TxOutput>, usize)>)
    ensures
        (match (dec_outputs(s@, pos as int), r) {
            (Some(t), Some(e)) => e.0.deep_view() == t.0 && e.1 == t.1,
            (None, None) => true,
            _ => false,
        }),
        (match r {
            Some(e) => e.1 <= s@.len(),
            None => true,
        }),
{
    match read_u64(s, pos) {
        Some((n, p0)) => {
            let mut acc: Vec<TxOutput> = Vec::new();
            let mut p: usize = p0;
            let mut i: u64 = 0;
            while i < n
                invariant
                    i <= n,
                    p <= s@.len(),
                    dec_outputs(s@, pos as int) == dec_output_items(s@, p0 as int, n as nat),
                    (match dec_output_items(s@, p as int, (n - i) as nat) {
                        Some(t) => dec_output_items(s@, p0 as int, n as nat) == Some(
                            (acc.deep_view() + t.0, t.1),
                        ),
                        None => dec_output_items(s@, p0 as int, n as nat) is None,
                    }),
                decreases n - i,
            {
                match read_output(s, p) {
                    Some((v, p2)) => {
                        let ghost pre = acc;
                        let ghost xv = v;
                        acc.push(v);
                        proof {
                            crate::bytes::lemma_vec_deep_push(pre, acc, xv);
                            let rem = (n - i) as nat;
                            let iv = (dec_output(s@, p as int)->0).0;
                            assert((match dec_output_items(s@, p2 as int, (rem - 1) as nat) {
                                Some(t2) => {
                                    &&& seq![iv] + t2.0 == (dec_output_items(
                                        s@,
                                        p as int,
                                        rem,
                                    )->0).0
                                    &&& acc.deep_view() + t2.0 =~= (pre.deep_view() + (seq![iv]
                                        + t2.0))
                                },
                                None => true,
                            }));
                        }
                        p = p2;
                    },
                    None => {
                        proof {
                            assert((n - i) as nat > 0);
                            assert(dec_output_items(s@, p as int, (n - i) as nat) is None);
                        }
                        return None;
                    },
                }
                i = i + 1;
            }
            assert(dec_output_items(s@, p as int, 0) == Some(
                (Seq::<TxOutputView>::empty(), p as int),
            ));
            assert(acc.deep_view() + Seq::<TxOutputView>::empty() =~= acc.deep_view());
            Some((acc, p))
        },
        None => None,
    }
}

pub(crate) fn read_tx(s: &[u8], pos: usize) -> (r: Option<(Transaction, usize)>)
    ensures
        (match (dec_tx(s@, pos as int), r) {
            (Some(t), Some(e)) => e.0@ == t.0 && e.1 == t.1,
            (None, None) => true,
            _ => false,
        }),
        (match r {
            Some(e) => e.1 <= s@.len(),
            None => true,
        }),
{
    match read_bytes(s, pos) {
        Some((id, p1)) => match read_inputs(s, p1) {
            Some((vin, p2)) => match read_outputs(s, p2) {
                Some((vout, p3)) => {
                    let e = Transaction { id, vin, vout };
                    assert((match dec_tx(s@, pos as int) {
                        Some(t) => e@ =~= t.0,
                        None => false,
                    }));
                    Some((e, p3))
                },
                None => None,
            },
            None => None,
        },
        None => None,
    }
}

pub(crate) fn read_txs(s: &[u8], pos: usize) -> (r: Option<(Vec<Transaction>, usize)>)
    ensures
        (match (dec_txs(s@, pos as int), r) {
            (Some(t), Some(e)) => e.0.deep_view() == t.0 && e.1 == t.1,
            (None, None) => true,
            _ => false,
        }),
        (match r {
            Some(e) => e.1 <= s@.len(),
            None => true,
        }),
{
    match read_u64(s, pos) {
        Some((n, p0)) => {
            let mut acc: Vec<Transaction> = Vec::new();
            let mut p: usize = p0;
            let mut i: u64 = 0;
            while i < n
                invariant
                    i <= n,
                    p <= s@.len(),
                    dec_txs(s@, pos as int) == dec_tx_items(s@, p0 as int, n as nat),
                    (match dec_tx_items(s@, p as int, (n - i) as nat) {
                        Some(t) => dec_tx_items(s@, p0 as int, n as nat) == Some(
                            (acc.deep_view() + t.0, t.1),
                        ),
                        None => dec_tx_items(s@, p0 as int, n as nat) is None,
                    }),
                decreases n - i,
            {
                match read_tx(s, p) {
                    Some((v, p2)) => {
                        let ghost pre = acc;
                        let ghost xv = v;
                        acc.push(v);
                        proof {
                            crate::bytes::lemma_vec_deep_push(pre, acc, xv);
                            let rem = (n - i) as nat;
                            let iv = (dec_tx(s@, p as int)->0).0;
                            assert((match dec_tx_items(s@, p2 as int, (rem - 1) as nat) {
                                Some(t2) => {
                                    &&& seq![iv] + t2.0 == (dec_tx_items(s@, p as int, rem)->0).0
                                    &&& acc.deep_view() + t2.0 =~= (pre.deep_view() + (seq![iv]
                                        + t2.0))
                                },
                                None => true,
                            }));
                        }
                        p = p2;
                    },
                    None => {
                        proof {
                            assert((n - i) as nat > 0);
                            assert(dec_tx_items(s@, p as int, (n - i) as nat) is None);
                        }
                        return None;
                    },
                }
                i = i + 1;
            }
            assert(dec_tx_items(s@, p as int, 0) == Some(
                (Seq::<TransactionView>::empty(), p as int),
            ));
            assert(acc.deep_view() + Seq::<TransactionView>::empty() =~= acc.deep_view());
            Some((acc, p))
        },
        None => None,
    }
}

/// Decode a stored block record.
pub(crate) fn decode_block(s: &[u8]) -> (r: Option<Block>)
    ensures
        (match (dec_block(s@, 0), r) {
            (Some(t), Some(e)) => e@ == t.0,
            (None, None) => true,
            _ => false,
        }),
{
    match read_u128(s, 0) {
        Some((timestamp, p1)) => match read_u64(s, p1) {
            Some((h, p2)) => {
                if h > usize::MAX as u64 {
                    return None;
                }
                match read_i32(s, p2) {
                    Some((nonce, p3)) => match read_bytes(s, p3) {
                        Some((prev_block_hash, p4)) => match read_bytes(s, p4) {
                            Some((hash, p5)) => match read_txs(s, p5) {
                                Some((transaction, _p6)) => {
                                    let e = Block {
                                        timestamp,
                                        transaction,
                                        prev_block_hash,
                                        hash,
                                        height: h as usize,
                                        nonce,
                                    };
                                    assert((match dec_block(s@, 0) {
                                        Some(t) => e@ =~= t.0,
                                        None => false,
                                    }));
                                    Some(e)
                                },
                                None => None,
                            },
                            None => None,
                        },
                        None => None,
                    },
                    None => None,
                }
            },
            None => None,
        },
        None => None,
    }
}

} // verus!
