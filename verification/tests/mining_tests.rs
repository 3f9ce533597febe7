use sedly::block::{bits_to_target, BlockHeader};
use sedly::mining::Miner;
use sedly::transaction::Transaction;

#[test]
fn test_miner_creation() {
    let target = [0x0f; 32];
    let miner = Miner::new(target, 1);

    assert_eq!(miner.target, target);
    assert_eq!(miner.threads, 1);
    assert!(!miner.should_stop);
}

#[test]
fn test_mining_easy_target() {
    let mut target = [0xff; 32];
    target[0] = 0x0f;

    let mut miner = Miner::new(target, 1);
    let transactions = vec![Transaction::genesis()];

    let result = miner.mine_block([0; 32], transactions, 1, 0x1d00ffff);
    assert!(result.is_ok());

    let mining_result = result.unwrap();
    assert!(mining_result.hashes_calculated > 0);
    assert!(Miner::verify_block_hash(&mining_result.block, &target));
}

#[test]
fn test_proof_of_work_verification() {
    let target = [0x0f; 32];
    let miner = Miner::new(target, 1);

    let mut header = BlockHeader {
        version: 1,
        previous_hash: [0; 32],
        merkle_root: [0; 32],
        timestamp: 1704067200,
        bits: 0x1d00ffff,
        nonce: 0,
        height: 1,
    };

    let mut found = false;
    for nonce in 0..10000 {
        header.nonce = nonce;
        if miner.check_proof_of_work(&header) {
            found = true;
            break;
        }
    }

    assert!(found, "Should find valid nonce with easy target");
}

#[test]
fn test_target_to_bits_conversion() {
    let bits = 0x1d00ffff;
    let target = bits_to_target(bits);
    let miner = Miner::with_difficulty_bits(bits, 1);

    assert_eq!(miner.target, target);
}

#[test]
fn test_stop_flag_is_sticky_until_reset() {
    let mut miner = Miner::new([0xff; 32], 2);
    miner.stop();
    assert!(miner.should_stop);
}

#[test]
fn test_mine_block_honors_raised_stop_flag() {
    let mut miner = Miner::new([0xff; 32], 1);
    miner.stop();
    let result = miner.mine_block([0; 32], vec![Transaction::genesis()], 1, 0x1d00ffff);
    assert!(matches!(result, Err(sedly::mining::MiningError::Stopped)));
}

#[test]
fn test_u256_from_bytes_reads_low_eight() {
    let mut bytes = [0u8; 32];
    bytes[24] = 0x01;
    bytes[31] = 0xff;
    assert_eq!(sedly::mining::u256_from_bytes(&bytes), 0x0100_0000_0000_00ff);
}
