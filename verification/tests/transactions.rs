//! Transaction-level behavior: ids, coinbase exemption, signing and
//! verification, and the binding of signatures to the spent outputs.

use crypto::digest::Digest;
use my_chain::errors::Error;
use my_chain::transaction::Transaction;
use my_chain::tx::{TxInput, TxOutput};

fn sha_hex(data: &[u8]) -> Vec<u8> {
    let mut h = crypto::sha2::Sha256::new();
    h.input(data);
    h.result_str().into_bytes()
}

fn transfer_spending(prev: &Transaction, pk: &[u8], to: Vec<u8>, value: i32) -> Transaction {
    let mut tx = Transaction {
        id: Vec::new(),
        vin: vec![TxInput {
            txid: prev.id.clone(),
            vout: 0,
            signature: Vec::new(),
            pub_key: pk.to_vec(),
        }],
        vout: vec![TxOutput {
            value,
            pub_key_hash: to,
        }],
    };
    tx.set_id();
    tx
}

#[test]
fn coinbase_structure_and_id() {
    let cb = Transaction::new_coinbase(b"miner".to_vec(), b"note".to_vec());
    assert!(cb.is_coinbase());
    assert_eq!(cb.id.len(), 64);
    assert_eq!(cb.vout.len(), 1);
    assert_eq!(cb.vout[0].value, 100);
    assert_eq!(cb.vout[0].pub_key_hash, b"miner".to_vec());
    assert_eq!(cb.vin[0].signature, b"note".to_vec());

    // An empty memo defaults to the reward address.
    let cb2 = Transaction::new_coinbase(b"miner".to_vec(), Vec::new());
    assert_eq!(cb2.vin[0].signature, b"miner".to_vec());
}

#[test]
fn coinbase_verify_exempt() {
    // Any coinbase passes verification, whatever its authorization holds.
    let cb = Transaction {
        id: b"whatever".to_vec(),
        vin: vec![TxInput {
            txid: Vec::new(),
            vout: -1,
            signature: b"complete garbage".to_vec(),
            pub_key: b"not a key".to_vec(),
        }],
        vout: vec![TxOutput {
            value: 100,
            pub_key_hash: b"someone".to_vec(),
        }],
    };
    let prev: Vec<Transaction> = Vec::new();
    assert_eq!(cb.verify(&prev).unwrap(), true);
}

#[test]
fn sign_then_verify_round_trip() {
    let (sk, pk) = crypto::ed25519::keypair(&[42u8; 32]);
    let addr = sha_hex(&pk);
    let prev = Transaction::new_coinbase(addr, Vec::new());
    let prev_txs = vec![prev];

    let mut tx = transfer_spending(&prev_txs[0], &pk, b"receiver".to_vec(), 100);
    tx.sign(&sk, &prev_txs).unwrap();
    assert_eq!(tx.verify(&prev_txs).unwrap(), true);
}

#[test]
fn tampering_breaks_verification() {
    let (sk, pk) = crypto::ed25519::keypair(&[43u8; 32]);
    let addr = sha_hex(&pk);
    let prev = Transaction::new_coinbase(addr, Vec::new());
    let prev_txs = vec![prev];

    let mut tx = transfer_spending(&prev_txs[0], &pk, b"receiver".to_vec(), 100);
    tx.sign(&sk, &prev_txs).unwrap();

    // Raising an output value after signing must fail verification.
    let mut t1 = tx.duplicate();
    t1.vout[0].value = 99;
    assert_eq!(t1.verify(&prev_txs).unwrap(), false);

    // Redirecting the output must fail verification.
    let mut t2 = tx.duplicate();
    t2.vout[0].pub_key_hash = b"thief".to_vec();
    assert_eq!(t2.verify(&prev_txs).unwrap(), false);

    // Flipping a signature byte must fail verification.
    let mut t3 = tx.duplicate();
    t3.vin[0].signature[5] ^= 1;
    assert_eq!(t3.verify(&prev_txs).unwrap(), false);

    // A wrong key pair must fail verification.
    let (sk_other, _pk_other) = crypto::ed25519::keypair(&[44u8; 32]);
    let mut t4 = transfer_spending(&prev_txs[0], &pk, b"receiver".to_vec(), 100);
    t4.sign(&sk_other, &prev_txs).unwrap();
    assert_eq!(t4.verify(&prev_txs).unwrap(), false);
}

#[test]
fn dangling_input_is_an_error() {
    let (sk, pk) = crypto::ed25519::keypair(&[45u8; 32]);
    let missing = Transaction::new_coinbase(b"gone".to_vec(), Vec::new());
    let mut tx = transfer_spending(&missing, &pk, b"receiver".to_vec(), 100);
    let empty: Vec<Transaction> = Vec::new();
    assert!(matches!(tx.sign(&sk, &empty), Err(Error::DanglingInput)));
    assert!(matches!(tx.verify(&empty), Err(Error::DanglingInput)));
}

#[test]
fn ids_cover_the_whole_record() {
    let cb1 = Transaction::new_coinbase(b"a".to_vec(), b"x".to_vec());
    let cb2 = Transaction::new_coinbase(b"a".to_vec(), b"y".to_vec());
    let cb3 = Transaction::new_coinbase(b"b".to_vec(), b"x".to_vec());
    assert_ne!(cb1.id, cb2.id);
    assert_ne!(cb1.id, cb3.id);

    let again = Transaction::new_coinbase(b"a".to_vec(), b"x".to_vec());
    assert_eq!(cb1.id, again.id);
}

#[test]
fn unlock_predicates_use_the_key_hash() {
    let (_sk, pk) = crypto::ed25519::keypair(&[46u8; 32]);
    let addr = sha_hex(&pk);
    let input = TxInput {
        txid: Vec::new(),
        vout: 0,
        signature: Vec::new(),
        pub_key: pk.to_vec(),
    };
    // The raw public key is not the address: only its hash unlocks.
    assert!(!input.can_unlock_output_with(&pk));
    assert!(input.can_unlock_output_with(&addr));

    let out = TxOutput {
        value: 5,
        pub_key_hash: addr.clone(),
    };
    assert!(out.can_be_unlocked_with(&addr));
    assert!(!out.can_be_unlocked_with(&pk));
}
