use sedly::block::Block;
use sedly::storage::BlockchainDB;
use sedly::transaction::{OutPoint, Transaction, TxInput};

fn create_test_db() -> BlockchainDB {
    BlockchainDB::open("test_store").unwrap()
}

#[test]
fn test_database_creation() {
    let db = create_test_db();
    let metadata = db.get_metadata().unwrap();

    assert_eq!(metadata.height, 0);
    assert_eq!(metadata.best_block_hash, [0; 32]);
}

#[test]
fn test_genesis_initialization() {
    let mut db = create_test_db();
    let genesis = Block::genesis();

    db.initialize_with_genesis(&genesis).unwrap();

    let metadata = db.get_metadata().unwrap();
    assert_eq!(metadata.height, 0);
    assert_eq!(metadata.genesis_hash, genesis.hash());

    let stored_genesis = db.get_block_by_height(0).unwrap().unwrap();
    assert_eq!(stored_genesis.hash(), genesis.hash());
}

#[test]
fn test_block_storage_retrieval() {
    let mut db = create_test_db();
    let genesis = Block::genesis();

    db.store_block(&genesis).unwrap();

    let retrieved = db.get_block(&genesis.hash()).unwrap().unwrap();
    assert_eq!(retrieved.hash(), genesis.hash());

    let retrieved = db.get_block_by_height(0).unwrap().unwrap();
    assert_eq!(retrieved.hash(), genesis.hash());
}

#[test]
fn test_utxo_management() {
    let mut db = create_test_db();

    let coinbase = Transaction::coinbase(b"test_address", 0, 5000000000);
    let block = Block::new([0; 32], vec![coinbase.clone()], 0x1d00ffff, 0);

    db.store_block(&block).unwrap();

    let outpoint = OutPoint::new(coinbase.hash(), 0);
    let utxo = db.get_utxo(&outpoint).unwrap();

    assert!(utxo.is_some());
    let utxo = utxo.unwrap();
    assert_eq!(utxo.output.value, 5000000000);
    assert!(utxo.is_coinbase);
}

#[test]
fn test_transaction_indexing() {
    let mut db = create_test_db();

    let coinbase = Transaction::coinbase(b"test_address", 0, 5000000000);
    let tx_hash = coinbase.hash();
    let block = Block::new([0; 32], vec![coinbase], 0x1d00ffff, 0);

    db.store_block(&block).unwrap();

    let (tx, location) = db.get_transaction(&tx_hash).unwrap().unwrap();
    assert_eq!(tx.hash(), tx_hash);
    assert_eq!(location.block_hash, block.hash());
    assert_eq!(location.tx_index, 0);
}

#[test]
fn test_coinbase_maturity() {
    let mut db = create_test_db();

    let coinbase = Transaction::coinbase(b"test_address", 0, 5000000000);
    let block = Block::new([0; 32], vec![coinbase.clone()], 0x1d00ffff, 0);

    db.store_block(&block).unwrap();

    let outpoint = OutPoint::new(coinbase.hash(), 0);

    assert!(!db.is_utxo_spendable(&outpoint, 50).unwrap());

    assert!(db.is_utxo_spendable(&outpoint, 100).unwrap());
}

#[test]
fn test_database_stats() {
    let mut db = create_test_db();
    let genesis = Block::genesis();

    db.store_block(&genesis).unwrap();

    let stats = db.get_stats().unwrap();
    assert_eq!(stats.height, 0);
    assert_eq!(stats.total_blocks, 1);
}

#[test]
fn test_spending_removes_the_utxo() {
    let mut db = create_test_db();

    let coinbase = Transaction::coinbase(b"payee", 0, 5000000000);
    let block0 = Block::new([0; 32], vec![coinbase.clone()], 0x1d00ffff, 0);
    db.store_block(&block0).unwrap();

    let outpoint = OutPoint::new(coinbase.hash(), 0);
    assert!(db.is_utxo_spendable(&outpoint, 100).unwrap());

    let spend = Transaction::new(
        vec![TxInput::new(outpoint, vec![])],
        vec![sedly::transaction::TxOutput::to_address(5000000000, b"next_owner")],
        0,
    );
    let coinbase1 = Transaction::coinbase(b"payee", 100, 5000000000);
    let block1 = Block::new(block0.hash(), vec![coinbase1, spend.clone()], 0x1d00ffff, 100);
    db.store_block(&block1).unwrap();

    assert!(!db.is_utxo_spendable(&outpoint, 200).unwrap());
    assert!(db.get_utxo(&outpoint).unwrap().is_none());

    let new_outpoint = OutPoint::new(spend.hash(), 0);
    assert!(db.get_utxo(&new_outpoint).unwrap().is_some());
}

#[test]
fn test_missing_lookups_are_empty() {
    let db = create_test_db();
    assert!(db.get_block(&[5; 32]).unwrap().is_none());
    assert!(db.get_block_by_height(9).unwrap().is_none());
    assert!(db.get_transaction(&[5; 32]).unwrap().is_none());
    assert!(db.get_utxo(&OutPoint::new([5; 32], 0)).unwrap().is_none());
    assert!(!db.is_utxo_spendable(&OutPoint::new([5; 32], 0), 0).unwrap());
}
