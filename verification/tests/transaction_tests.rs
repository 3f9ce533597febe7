use sedly::transaction::{OutPoint, Transaction, TransactionType, TxOutput};

#[test]
fn test_transaction_hash() {
    let tx = Transaction::genesis();
    let hash = tx.hash();

    assert_eq!(hash.len(), 32);
    assert_ne!(hash, [0; 32]);
}

#[test]
fn test_genesis_transaction() {
    let genesis = Transaction::genesis();

    assert!(genesis.is_coinbase());
    assert_eq!(genesis.transaction_type(), TransactionType::Coinbase);
    assert_eq!(genesis.inputs.len(), 1);
    assert_eq!(genesis.outputs.len(), 0);
}

#[test]
fn test_coinbase_transaction() {
    let reward_address = b"sedly1test_address";
    let coinbase = Transaction::coinbase(reward_address, 1, sedly::INITIAL_BLOCK_REWARD);

    assert!(coinbase.is_coinbase());
    assert_eq!(coinbase.outputs.len(), 1);
    assert_eq!(coinbase.outputs[0].value, sedly::INITIAL_BLOCK_REWARD);
}

#[test]
fn test_outpoint_null() {
    let null_outpoint = OutPoint::new([0; 32], 0xffffffff);
    assert!(null_outpoint.is_null());

    let normal_outpoint = OutPoint::new([1; 32], 0);
    assert!(!normal_outpoint.is_null());
}

#[test]
fn test_output_native_asset() {
    let output = TxOutput::to_address(1000, b"test_address");
    assert!(output.is_native_asset());
    assert_eq!(output.value, 1000);
}

#[test]
fn test_transaction_encoding_round_trip() {
    let tx = Transaction::coinbase(b"round_trip", 7, 1234);
    let bytes = sedly::transaction::encode_transaction(&tx);
    let back = sedly::transaction::decode_transaction(&bytes).expect("canonical bytes parse");
    assert_eq!(back, tx);
    assert_eq!(back.hash(), tx.hash());
}

#[test]
fn test_decode_rejects_trailing_bytes() {
    let tx = Transaction::genesis();
    let mut bytes = sedly::transaction::encode_transaction(&tx);
    bytes.push(0);
    assert!(sedly::transaction::decode_transaction(&bytes).is_none());
}

#[test]
fn test_distinct_transactions_have_distinct_hashes() {
    let a = Transaction::coinbase(b"addr", 1, 50);
    let b = Transaction::coinbase(b"addr", 2, 50);
    assert_ne!(
        sedly::transaction::encode_transaction(&a),
        sedly::transaction::encode_transaction(&b)
    );
    assert_ne!(a.hash(), b.hash());
}

#[test]
fn test_transaction_validity_rules() {
    let mut tx = Transaction::coinbase(b"addr", 1, 50);
    assert!(tx.is_valid());
    tx.outputs[0].value = 0;
    assert!(!tx.is_valid());
    let no_inputs = Transaction::new(Vec::new(), Vec::new(), 0);
    assert!(!no_inputs.is_valid());
}

#[test]
fn test_transaction_size_matches_encoding() {
    let tx = Transaction::genesis();
    let bytes = sedly::transaction::encode_transaction(&tx);
    assert_eq!(tx.size(), bytes.len());
}
