use sedly::abci::SedlyApp;
use sedly::block::Block;
use sedly::transaction::{OutPoint, Transaction, TxInput, TxOutput};
use sedly::{HALVING_INTERVAL, INITIAL_BLOCK_REWARD};

fn create_test_app() -> SedlyApp {
    SedlyApp::new("test_app_store").unwrap()
}

fn encode_tx(tx: &Transaction) -> Vec<u8> {
    sedly::transaction::encode_transaction(tx)
}

#[test]
fn test_app_creation() {
    let app = create_test_app();
    let chain_state = app.chain_state();

    assert_eq!(chain_state.height, 0);
    assert_ne!(chain_state.best_block_hash, [0; 32]);
}

#[test]
fn test_info_request() {
    let app = create_test_app();

    let response = app.info();

    assert_eq!(response.data, "Sedly Blockchain");
    assert_eq!(response.last_block_height, 0);
}

#[test]
fn test_block_reward_calculation() {
    let app = create_test_app();

    assert_eq!(app.calculate_block_reward(0), INITIAL_BLOCK_REWARD);

    assert_eq!(app.calculate_block_reward(HALVING_INTERVAL), INITIAL_BLOCK_REWARD / 2);

    assert_eq!(app.calculate_block_reward(HALVING_INTERVAL * 2), INITIAL_BLOCK_REWARD / 4);
}

#[test]
fn test_coinbase_creation() {
    let app = create_test_app();

    let coinbase = app.create_coinbase(0, b"test_address");

    assert!(coinbase.is_coinbase());
    assert_eq!(coinbase.outputs.len(), 1);
    assert_eq!(coinbase.outputs[0].value, INITIAL_BLOCK_REWARD);
}

#[test]
fn test_reward_halving_boundaries() {
    let app = create_test_app();
    assert_eq!(app.calculate_block_reward(HALVING_INTERVAL - 1), INITIAL_BLOCK_REWARD);
    assert_eq!(app.calculate_block_reward(HALVING_INTERVAL * 63), INITIAL_BLOCK_REWARD >> 63);
    assert_eq!(app.calculate_block_reward(HALVING_INTERVAL * 64), 0);
    assert_eq!(app.calculate_block_reward(u64::MAX), 0);
}

#[test]
fn test_genesis_initialization_scenario() {
    let app = create_test_app();
    let genesis = Block::genesis();

    let info = app.info();
    assert_eq!(info.last_block_height, 0);
    assert_eq!(info.last_block_app_hash, genesis.hash().to_vec());

    let init = app.init_chain();
    assert_eq!(init.app_hash, genesis.hash().to_vec());

    let answer = app.query("block/0", &[]);
    assert_eq!(answer.code, 0);
    let stored = sedly::block::decode_block(&answer.value).unwrap();
    assert_eq!(stored.hash(), genesis.hash());
}

#[test]
fn test_mine_and_commit_one_block_scenario() {
    let mut app = create_test_app();
    let genesis_hash = Block::genesis().hash();

    let begin = app.begin_block(1, 1704067320);
    assert_eq!(begin.events.len(), 1);
    assert_eq!(begin.events[0].type_str, "begin_block");
    assert_eq!(begin.events[0].attributes[0].value, "1");
    assert_eq!(begin.events[0].attributes[1].value, "0x1d00ffff");

    let end = app.end_block(1);
    assert_eq!(end.events[0].type_str, "end_block");

    let commit = app.commit();
    assert_eq!(commit.data.len(), 32);
    assert_eq!(commit.retain_height, 0);

    let state = app.chain_state();
    assert_eq!(state.height, 1);
    assert_eq!(state.current_bits, 0x1d00ffff);
    assert_eq!(state.best_block_hash.to_vec(), commit.data);

    let answer = app.query("block/1", &[]);
    assert_eq!(answer.code, 0);
    let block = sedly::block::decode_block(&answer.value).unwrap();
    assert_eq!(block.transactions.len(), 1);
    assert!(block.transactions[0].is_coinbase());
    assert_eq!(block.transactions[0].outputs[0].value, 5_000_000_000);
    assert_eq!(block.header.previous_hash, genesis_hash);
    assert_eq!(block.header.height, 1);
    assert_eq!(block.header.bits, 0x1d00ffff);
}

#[test]
fn test_mempool_rejects_coinbase_scenario() {
    let app = create_test_app();
    let coinbase = Transaction::coinbase(b"sneaky", 1, 50);

    let response = app.check_tx(&encode_tx(&coinbase));
    assert_eq!(response.code, 1);
    assert!(response.log.contains("Coinbase"));
}

#[test]
fn test_check_tx_rejects_garbage() {
    let app = create_test_app();
    let response = app.check_tx(&[1, 2, 3]);
    assert_eq!(response.code, 2);
}

#[test]
fn test_deliver_rejects_unspendable_input() {
    let mut app = create_test_app();

    app.begin_block(1, 1704067320);
    app.end_block(1);
    let commit = app.commit();
    assert_eq!(commit.data.len(), 32);

    let answer = app.query("block/1", &[]);
    let block1 = sedly::block::decode_block(&answer.value).unwrap();
    let fresh_coinbase_id = block1.transactions[0].hash();

    let spend = Transaction::new(
        vec![TxInput::new(OutPoint::new(fresh_coinbase_id, 0), vec![])],
        vec![TxOutput::to_address(1, b"elsewhere")],
        0,
    );

    app.begin_block(2, 1704067440);
    let response = app.deliver_tx(&encode_tx(&spend));
    assert_eq!(response.code, 1);
    assert!(response.log.contains("UTXO not found or not spendable"));
}

#[test]
fn test_deliver_without_begin_reports_no_block() {
    let mut app = create_test_app();
    let tx = Transaction::new(
        vec![TxInput::new(OutPoint::new([3; 32], 0), vec![])],
        vec![TxOutput::to_address(1, b"anyone")],
        0,
    );
    let response = app.deliver_tx(&encode_tx(&tx));
    assert!(response.code == 1 || response.code == 3);
}

#[test]
fn test_commit_without_builder_is_empty() {
    let mut app = create_test_app();
    let commit = app.commit();
    assert!(commit.data.is_empty());
    assert_eq!(commit.retain_height, 0);
}

#[test]
fn test_query_info_reports_tip() {
    let app = create_test_app();
    let genesis_hash = Block::genesis().hash();

    let answer = app.query("info", &[]);
    assert_eq!(answer.code, 0);
    let expected = format!(
        "{{\"height\":{},\"best_block\":\"{}\"}}",
        0,
        hex::encode(genesis_hash)
    );
    assert_eq!(answer.value, expected.into_bytes());
}

#[test]
fn test_query_error_codes() {
    let app = create_test_app();
    assert_eq!(app.query("block/99", &[]).code, 2);
    assert_eq!(app.query("block/not_a_number", &[]).code, 4);
    assert_eq!(app.query("nonsense", &[]).code, 5);
    assert_eq!(app.query("block/1/2", &[]).code, 5);
}
