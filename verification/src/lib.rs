//! Core of a proof-of-work, UTXO-based blockchain node: the block and
//! transaction data model with content-addressed hashing, the canonical
//! binary codec, the multi-namespace chain store, the difficulty-retargeting
//! controller, the proof-of-work miner, the in-memory chain-state snapshot
//! with bounded rollback history, and the ABCI-style block-assembly state
//! machine that drives them.
//!
//! The chain store models the five on-disk namespaces in memory: commits
//! are atomic and reads see exactly what was committed, but nothing
//! survives a restart. A host that needs durability can persist the
//! chain-state snapshot through the canonical codec of `state`, whose
//! round trip is proved; durable block storage would need a backing
//! key-value store, which this build does not carry.

pub mod abci;
pub mod block;
pub mod bytesutil;
pub mod difficulty;
pub mod hashing;
pub mod codec;
pub mod mining;
pub mod server;
pub mod state;
pub mod storage;
pub mod strutil;
pub mod timeutil;
pub mod transaction;

pub use abci::{ChainState, ConsensusError, SedlyApp};
pub use block::{Block, BlockHeader};
pub use difficulty::{DifficultyAdjuster, DifficultyAdjustment, DifficultyError, Ratio};
pub use mining::{Miner, MiningError, MiningResult};
pub use server::{ConsensusServer, ConsensusServerBuilder, ServerConfig};
pub use state::{ConsensusState, StateManager, StateError, StateStatistics, ValidatorInfo};
pub use storage::{
    BlockchainDB, ChainMetadata, DatabaseStats, StorageError, TxLocation, UtxoEntry,
};
pub use transaction::{OutPoint, Transaction, TransactionType, TxInput, TxOutput};

use vstd::prelude::*;

verus! {

/// Current protocol version, stamped into transactions and blocks.
pub const PROTOCOL_VERSION: u32 = 1;

/// Block reward at height 0, in satoshi (50.00000000 units).
pub const INITIAL_BLOCK_REWARD: u64 = 5_000_000_000;

/// Target time per block, in seconds.
pub const TARGET_BLOCK_TIME: u64 = 120;

/// Number of blocks between difficulty adjustments.
pub const DIFFICULTY_ADJUSTMENT_INTERVAL: u64 = 144;

/// Bound on the difficulty adjustment factor per retarget period: the
/// factor is clamped to [1/MAX_DIFFICULTY_ADJUSTMENT, MAX_DIFFICULTY_ADJUSTMENT].
pub const MAX_DIFFICULTY_ADJUSTMENT: u64 = 4;

/// Number of blocks between reward halvings.
pub const HALVING_INTERVAL: u64 = 210_000;

/// Maximum serialized block size in bytes.
pub const MAX_BLOCK_SIZE: usize = 1_000_000;

/// Minimum transaction fee in satoshi.
pub const MIN_TX_FEE: u64 = 1000;

/// Confirmations a coinbase output needs before it may be spent.
pub const COINBASE_MATURITY: u64 = 100;

/// Snapshots the rollback history retains.
pub const HISTORY_DEPTH: usize = 100;

} // verus!
