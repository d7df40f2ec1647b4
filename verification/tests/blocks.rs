//! Block sealing: hash integrity and the difficulty predicate.

use my_chain::block::{Block, TARGET_HEXT};
use my_chain::transaction::Transaction;

#[test]
fn sealed_block_meets_difficulty() {
    let cb = Transaction::new_coinbase(b"miner".to_vec(), Vec::new());
    let b = Block::new_genesis_block(cb).unwrap();
    let h = b.get_hash();
    assert_eq!(h.len(), 64);
    for k in 0..TARGET_HEXT {
        assert_eq!(h[k], b'0');
    }
    assert_eq!(b.get_height(), 0);
    assert_eq!(b.get_prev_hash().len(), 0);
    assert!(b.validate());
}

#[test]
fn recomputed_hash_matches_stored_fields() {
    let cb = Transaction::new_coinbase(b"miner".to_vec(), Vec::new());
    let mut b = Block::new_genesis_block(cb).unwrap();
    assert!(b.validate());

    // Any change to a sealed field breaks the recomputation check.
    b.nonce = b.nonce.wrapping_add(1);
    assert!(!b.validate());
    b.nonce = b.nonce.wrapping_sub(1);
    assert!(b.validate());

    b.timestamp += 1;
    assert!(!b.validate());
}

#[test]
fn linked_block_carries_parent_hash() {
    let cb = Transaction::new_coinbase(b"miner".to_vec(), Vec::new());
    let parent = Block::new_genesis_block(cb).unwrap();
    let cb2 = Transaction::new_coinbase(b"miner".to_vec(), b"second".to_vec());
    let child = Block::new_block(vec![cb2], parent.get_hash(), 1).unwrap();
    assert_eq!(child.get_prev_hash(), parent.get_hash());
    assert_eq!(child.get_height(), 1);
    assert!(child.validate());
    assert_ne!(child.get_hash(), parent.get_hash());
}
