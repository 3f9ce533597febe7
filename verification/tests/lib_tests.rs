#[test]
fn test_constants() {
    assert_eq!(sedly::PROTOCOL_VERSION, 1);
    assert_eq!(sedly::TARGET_BLOCK_TIME, 120);
    assert_eq!(sedly::DIFFICULTY_ADJUSTMENT_INTERVAL, 144);
}

#[test]
fn test_reward_calculation() {
    assert_eq!(sedly::INITIAL_BLOCK_REWARD, 5_000_000_000);

    assert_eq!(sedly::INITIAL_BLOCK_REWARD / 2, 2_500_000_000);
}
