//! End-to-end exercises of the ledger: creation, balances, transfers,
//! funding failures, and reopening a persisted chain.

use crypto::digest::Digest;
use my_chain::blockchain::Blockchain;
use my_chain::errors::Error;
use my_chain::transaction::Transaction;

fn sha_hex(data: &[u8]) -> Vec<u8> {
    let mut h = crypto::sha2::Sha256::new();
    h.input(data);
    h.result_str().into_bytes()
}

fn balance(bc: &Blockchain, address: &[u8]) -> i64 {
    let mut total: i64 = 0;
    for out in bc.find_UTXO(address) {
        total += out.value as i64;
    }
    total
}

fn fresh_db(name: &str) -> sled::Db {
    let mut path = String::from("/tmp/my_chain_test_");
    path.push_str(name);
    let db = sled::open(&path).unwrap();
    db.clear().unwrap();
    db
}

#[test]
fn create_ledger_rewards_genesis() {
    let db = fresh_db("create");
    let addr_a = b"address-a".to_vec();
    let bc = Blockchain::create_blockchain(db, &addr_a).unwrap();
    assert_eq!(balance(&bc, &addr_a), 100);
    assert_eq!(bc.get_height(), 0);
}

#[test]
fn transfer_moves_value() {
    let db = fresh_db("transfer");
    let (_sk_a, pk_a) = crypto::ed25519::keypair(&[7u8; 32]);
    let addr_a = sha_hex(&pk_a);
    let addr_b = b"address-b".to_vec();
    let addr_c = b"address-c".to_vec();

    let mut bc = Blockchain::create_blockchain(db, &addr_a).unwrap();
    assert_eq!(balance(&bc, &addr_a), 100);

    let tx = Transaction::new_UTXO(&pk_a, &addr_b, 40, &bc).unwrap();
    bc.add_block(vec![tx]).unwrap();
    assert_eq!(balance(&bc, &addr_a), 60);
    assert_eq!(balance(&bc, &addr_b), 40);
    assert_eq!(balance(&bc, &addr_a) + balance(&bc, &addr_b), 100);

    let tx2 = Transaction::new_UTXO(&pk_a, &addr_c, 40, &bc).unwrap();
    bc.add_block(vec![tx2]).unwrap();
    assert_eq!(balance(&bc, &addr_a), 20);
    assert_eq!(balance(&bc, &addr_b), 40);
    assert_eq!(balance(&bc, &addr_c), 40);
    assert_eq!(
        balance(&bc, &addr_a) + balance(&bc, &addr_b) + balance(&bc, &addr_c),
        100
    );
}

#[test]
fn insufficient_funds_reports_available() {
    let db = fresh_db("shortfall");
    let (_sk_a, pk_a) = crypto::ed25519::keypair(&[9u8; 32]);
    let addr_a = sha_hex(&pk_a);
    let addr_b = b"address-b".to_vec();

    let bc = Blockchain::create_blockchain(db, &addr_a).unwrap();
    let r = Transaction::new_UTXO(&pk_a, &addr_b, 150, &bc);
    assert!(matches!(r, Err(Error::InsufficientFunds(100))));
    assert_eq!(bc.get_height(), 0);
    assert_eq!(balance(&bc, &addr_a), 100);
}

#[test]
fn funding_boundary() {
    let db = fresh_db("boundary");
    let (_sk_a, pk_a) = crypto::ed25519::keypair(&[11u8; 32]);
    let addr_a = sha_hex(&pk_a);
    let bc = Blockchain::create_blockchain(db, &addr_a).unwrap();

    let (acc, _sel) = bc.find_spendable_outputs(&addr_a, 1000);
    assert!(acc < 1000);
    assert_eq!(acc, 100);

    let (acc2, sel2) = bc.find_spendable_outputs(&addr_a, 100);
    assert_eq!(acc2, 100);
    assert_eq!(sel2.len(), 1);
    assert_eq!(sel2[0].indices, vec![0]);
}

#[test]
fn open_missing_chain_not_initialized() {
    let db = fresh_db("uninit");
    let r = Blockchain::new(db);
    assert!(matches!(r, Err(Error::NotInitialized)));
}

#[test]
fn reopen_preserves_chain() {
    let db = fresh_db("reopen");
    let (_sk_a, pk_a) = crypto::ed25519::keypair(&[13u8; 32]);
    let addr_a = sha_hex(&pk_a);
    let addr_b = b"address-b".to_vec();

    let mut bc = Blockchain::create_blockchain(db, &addr_a).unwrap();
    let tx = Transaction::new_UTXO(&pk_a, &addr_b, 25, &bc).unwrap();
    bc.add_block(vec![tx]).unwrap();
    let tip = bc.get_current_hash();
    drop(bc);

    let db2 = sled::open("/tmp/my_chain_test_reopen").unwrap();
    let bc2 = Blockchain::new(db2).unwrap();
    assert_eq!(bc2.get_current_hash(), tip);
    assert_eq!(bc2.get_height(), 1);
    assert_eq!(balance(&bc2, &addr_a), 75);
    assert_eq!(balance(&bc2, &addr_b), 25);

    let mut it = bc2.iter();
    let first = it.next().unwrap();
    assert_eq!(first.get_height(), 1);
    let second = it.next().unwrap();
    assert_eq!(second.get_height(), 0);
    assert_eq!(second.get_prev_hash().len(), 0);
    assert!(it.next().is_none());
}

#[test]
fn chain_traversal_reaches_genesis() {
    let db = fresh_db("traverse");
    let addr_a = b"address-a".to_vec();
    let bc = Blockchain::create_blockchain(db, &addr_a).unwrap();
    let mut it = bc.iter();
    let genesis = it.next().unwrap();
    assert_eq!(genesis.get_height(), 0);
    assert_eq!(genesis.get_prev_hash().len(), 0);
    assert_eq!(genesis.get_transaction().len(), 1);
    assert!(genesis.get_transaction()[0].is_coinbase());
    assert!(it.next().is_none());
}

#[test]
fn corrupt_tip_is_a_storage_error() {
    let db = fresh_db("corrupt");
    db.insert("LAST", b"not-a-real-hash".to_vec()).unwrap();
    let r = Blockchain::new(db);
    assert!(matches!(r, Err(Error::Storage)));
}
