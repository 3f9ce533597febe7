use sedly::block::Block;
use sedly::difficulty::{DifficultyAdjuster, DifficultyError, Ratio};
use sedly::transaction::Transaction;

fn create_test_blocks(count: usize, time_interval: u64, bits: u32) -> Vec<Block> {
    let mut blocks: Vec<Block> = Vec::new();
    let base_time = 1704067200;

    for i in 0..count {
        let timestamp = base_time + (i as u64 * time_interval);
        let previous_hash = if i == 0 { [0; 32] } else { blocks[i - 1].hash() };

        let mut block = Block::new(previous_hash, vec![Transaction::genesis()], bits, i as u64);
        block.header.timestamp = timestamp;

        blocks.push(block);
    }

    blocks
}

#[test]
fn test_difficulty_adjuster_creation() {
    let adjuster = DifficultyAdjuster::new();

    assert_eq!(adjuster.target_block_time, 120);
    assert_eq!(adjuster.adjustment_interval, 144);
    assert_eq!(adjuster.max_adjustment_factor, 4);
}

#[test]
fn test_no_adjustment_needed() {
    let adjuster = DifficultyAdjuster::new();
    let blocks = create_test_blocks(144, 120, 0x1d00ffff);

    let result = adjuster.calculate_next_difficulty(&blocks, 0x1d00ffff);
    assert!(result.is_ok());

    let adjustment = result.unwrap();
    assert!(!adjustment.needs_adjustment);
    assert_eq!(adjustment.current_bits, adjustment.new_bits);
}

#[test]
fn test_difficulty_increase() {
    let adjuster = DifficultyAdjuster::new();
    let blocks = create_test_blocks(144, 60, 0x1d00ffff);

    let result = adjuster.calculate_next_difficulty(&blocks, 0x1d00ffff);
    assert!(result.is_ok());

    let adjustment = result.unwrap();
    assert!(adjustment.needs_adjustment);
    assert!(adjustment.is_increase());
    assert!(adjustment.adjustment_factor.num > adjustment.adjustment_factor.den);
}

#[test]
fn test_difficulty_decrease() {
    let adjuster = DifficultyAdjuster::new();
    let blocks = create_test_blocks(144, 240, 0x1d00ffff);

    let result = adjuster.calculate_next_difficulty(&blocks, 0x1d00ffff);
    assert!(result.is_ok());

    let adjustment = result.unwrap();
    assert!(adjustment.needs_adjustment);
    assert!(adjustment.adjustment_factor.num < adjustment.adjustment_factor.den);
}

#[test]
fn test_max_adjustment_limit() {
    let adjuster = DifficultyAdjuster::new();
    let blocks = create_test_blocks(144, 30, 0x1d00ffff);

    let result = adjuster.calculate_next_difficulty(&blocks, 0x1d00ffff);
    assert!(result.is_ok());

    let adjustment = result.unwrap();
    assert_eq!(adjustment.adjustment_factor, Ratio::new(4, 1));
}

#[test]
fn test_min_adjustment_limit() {
    let adjuster = DifficultyAdjuster::new();
    let blocks = create_test_blocks(144, 480, 0x1d00ffff);

    let result = adjuster.calculate_next_difficulty(&blocks, 0x1d00ffff);
    assert!(result.is_ok());

    let adjustment = result.unwrap();
    assert_eq!(adjustment.adjustment_factor, Ratio::new(1, 4));
}

#[test]
fn test_insufficient_blocks() {
    let adjuster = DifficultyAdjuster::new();
    let blocks = create_test_blocks(100, 120, 0x1d00ffff);

    let result = adjuster.calculate_next_difficulty(&blocks, 0x1d00ffff);
    assert!(result.is_err());

    match result.unwrap_err() {
        DifficultyError::InsufficientBlocks { required: 144, provided: 100 } => (),
        _ => panic!("Wrong error type"),
    }
}

#[test]
fn test_genesis_difficulty() {
    let bits = DifficultyAdjuster::genesis_difficulty();
    assert_eq!(bits, 0x1d00ffff);
}

#[test]
fn test_prediction() {
    let adjuster = DifficultyAdjuster::new();
    let recent_times = vec![90, 100, 110, 120, 130];

    let result = adjuster.predict_next_adjustment(&recent_times, 0x1d00ffff);
    assert!(result.is_ok());

    let prediction = result.unwrap();
    assert!(prediction.adjustment_factor.num > prediction.adjustment_factor.den);
}

#[test]
fn test_prediction_needs_data() {
    let adjuster = DifficultyAdjuster::new();
    let result = adjuster.predict_next_adjustment(&Vec::new(), 0x1d00ffff);
    match result.unwrap_err() {
        DifficultyError::InsufficientData => (),
        _ => panic!("Wrong error type"),
    }
}

#[test]
fn test_invalid_block_sequence() {
    let adjuster = DifficultyAdjuster::new();
    let mut blocks = create_test_blocks(144, 120, 0x1d00ffff);
    blocks[10].header.height = 99;

    match adjuster.calculate_next_difficulty(&blocks, 0x1d00ffff).unwrap_err() {
        DifficultyError::InvalidBlockSequence => (),
        _ => panic!("Wrong error type"),
    }
}

#[test]
fn test_retarget_too_fast_lowers_bits() {
    let adjuster = DifficultyAdjuster::new();
    let blocks = create_test_blocks(144, 60, 0x1d00ffff);

    let adjustment = adjuster.calculate_next_difficulty(&blocks, 0x1d00ffff).unwrap();
    assert!(adjustment.adjustment_factor.num > adjustment.adjustment_factor.den);
    assert!(adjustment.needs_adjustment);
    assert!(adjustment.new_bits < adjustment.current_bits);
}

#[test]
fn test_validate_bits_range() {
    assert!(DifficultyAdjuster::validate_bits(0x1c000000).is_ok());
    assert!(DifficultyAdjuster::validate_bits(0x1d00ffff).is_ok());
    assert!(DifficultyAdjuster::validate_bits(0x1b000000).is_ok());
    assert!(DifficultyAdjuster::validate_bits(0x1e000000).is_err());
    assert!(DifficultyAdjuster::validate_bits(0x1a000000).is_err());
}
