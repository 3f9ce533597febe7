use sedly::state::{ConsensusState, StateManager};

#[test]
fn test_state_manager_creation() {
    let initial_state = ConsensusState::default();
    let manager = StateManager::new(initial_state);

    let state = manager.get_state();
    assert_eq!(state.height, 0);
    assert_eq!(state.best_block_hash, [0; 32]);
}

#[test]
fn test_state_update() {
    let initial_state = ConsensusState::default();
    let mut manager = StateManager::new(initial_state);

    manager
        .update_state(|state: &ConsensusState| {
            let mut next = state.clone();
            next.height = 100;
            next.total_transactions = 50;
            Ok(next)
        })
        .unwrap();

    let state = manager.get_state();
    assert_eq!(state.height, 100);
    assert_eq!(state.total_transactions, 50);
}

#[test]
fn test_block_advancement() {
    let initial_state = ConsensusState::default();
    let mut manager = StateManager::new(initial_state);

    let block_hash = [1u8; 32];
    manager.advance_block(block_hash, 5, Some(0x1d00fffe)).unwrap();

    let state = manager.get_state();
    assert_eq!(state.height, 1);
    assert_eq!(state.best_block_hash, block_hash);
    assert_eq!(state.total_transactions, 5);
    assert_eq!(state.difficulty_bits, 0x1d00fffe);
}

#[test]
fn test_validator_management() {
    let initial_state = ConsensusState::default();
    let mut manager = StateManager::new(initial_state);

    manager
        .update_validator("validator1".to_string(), vec![1, 2, 3, 4], 100, true)
        .unwrap();

    let active_validators = manager.get_active_validators();
    assert_eq!(active_validators.len(), 1);
    assert_eq!(active_validators[0].0, "validator1");
    assert_eq!(active_validators[0].1.power, 100);

    manager.remove_validator("validator1").unwrap();
    let active_validators = manager.get_active_validators();
    assert_eq!(active_validators.len(), 0);
}

#[test]
fn test_state_rollback() {
    let initial_state = ConsensusState::default();
    let mut manager = StateManager::new(initial_state);

    manager
        .update_state(|state: &ConsensusState| {
            let mut next = state.clone();
            next.height = 10;
            Ok(next)
        })
        .unwrap();

    assert_eq!(manager.get_state().height, 10);

    manager.rollback().unwrap();
    assert_eq!(manager.get_state().height, 0);
}

#[test]
fn test_state_validation() {
    let initial_state = ConsensusState::default();
    let mut manager = StateManager::new(initial_state);

    assert!(manager.validate_state().is_ok());

    manager
        .update_state(|state: &ConsensusState| {
            let mut next = state.clone();
            next.height = 10;
            next.best_block_hash = [0; 32];
            Ok(next)
        })
        .unwrap();

    assert!(manager.validate_state().is_err());
}

#[test]
fn test_state_export_import() {
    let initial_state = ConsensusState::default();
    let mut manager1 = StateManager::new(initial_state);

    manager1
        .update_state(|state: &ConsensusState| {
            let mut next = state.clone();
            next.height = 42;
            next.total_transactions = 100;
            next.best_block_hash = [9; 32];
            Ok(next)
        })
        .unwrap();

    let exported = manager1.export_state().unwrap();

    let new_state = ConsensusState::default();
    let mut manager2 = StateManager::new(new_state);
    manager2.import_state(&exported).unwrap();

    let imported_state = manager2.get_state();
    assert_eq!(imported_state.height, 42);
    assert_eq!(imported_state.total_transactions, 100);
}

#[test]
fn test_statistics() {
    let initial_state = ConsensusState::default();
    let mut manager = StateManager::new(initial_state);

    manager.advance_block([1; 32], 10, None).unwrap();
    manager.update_validator("val1".to_string(), vec![1, 2], 100, true).unwrap();

    let stats = manager.get_statistics();
    assert_eq!(stats.current_height, 1);
    assert_eq!(stats.total_transactions, 10);
    assert_eq!(stats.active_validators, 1);
    assert_eq!(stats.total_validators, 1);
}

#[test]
fn test_rollback_scenario_restores_and_then_runs_dry() {
    let mut manager = StateManager::new(ConsensusState::default());
    manager.advance_block([1u8; 32], 10, Some(0x1d00fffe)).unwrap();
    assert_eq!(manager.get_state().height, 1);

    manager.rollback().unwrap();
    let state = manager.get_state();
    assert_eq!(state.height, 0);
    assert_eq!(state.best_block_hash, [0u8; 32]);
    assert_eq!(state.difficulty_bits, 0x1d00ffff);

    assert!(manager.rollback().is_err());
}

#[test]
fn test_export_import_round_trips_validators() {
    let mut manager1 = StateManager::new(ConsensusState::default());
    manager1
        .update_validator("valid_one".to_string(), vec![1, 2, 3], 7, true)
        .unwrap();
    manager1
        .update_validator("valid_two".to_string(), vec![4, 5], -3, false)
        .unwrap();

    let exported = manager1.export_state().unwrap();
    let mut manager2 = StateManager::new(ConsensusState::default());
    manager2.import_state(&exported).unwrap();

    assert_eq!(manager2.get_state(), manager1.get_state());
}

#[test]
fn test_import_rejects_invalid_snapshot() {
    let mut bad = ConsensusState::default();
    bad.height = 3;
    bad.best_block_hash = [0; 32];
    let exported = StateManager::new(bad).export_state().unwrap();

    let mut manager = StateManager::new(ConsensusState::default());
    assert!(manager.import_state(&exported).is_err());
    assert_eq!(manager.get_state().height, 0);
}

#[test]
fn test_get_state_at_height_finds_history() {
    let mut manager = StateManager::new(ConsensusState::default());
    manager.advance_block([1u8; 32], 1, None).unwrap();
    manager.advance_block([2u8; 32], 1, None).unwrap();

    let snap = manager.get_state_at_height(1).expect("height 1 was recorded");
    assert_eq!(snap.best_block_hash, [1u8; 32]);
    assert!(manager.get_state_at_height(9).is_none());
}

#[test]
fn test_update_validator_replaces_same_id() {
    let mut manager = StateManager::new(ConsensusState::default());
    manager.update_validator("v".to_string(), vec![1], 1, true).unwrap();
    manager.update_validator("v".to_string(), vec![2], 9, true).unwrap();

    let active = manager.get_active_validators();
    assert_eq!(active.len(), 1);
    assert_eq!(active[0].1.power, 9);
    assert_eq!(active[0].1.public_key, vec![2]);
}
