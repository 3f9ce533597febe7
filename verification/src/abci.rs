//! The block-assembly state machine behind the ABCI surface: check,
//! begin, deliver, end, commit and query, over the chain store and an
//! in-memory chain state. Requests and responses carry plain values;
//! the consensus driver's wire types stay outside the library.

use vstd::prelude::*;
use crate::block::{
    block_from_bytes, enc_block, encode_block, spec_block_hash, spec_header_hash,
    spec_merkle_root, Block, BlockHeaderV, BlockV,
};
use crate::difficulty::{spec_clamped_factor, spec_new_bits, DifficultyAdjuster};
use crate::hashing::{hex_encode, spec_hex_of};
use crate::storage::{
    apply_txs_index, apply_txs_utxo, height_key, meta_best_key, meta_genesis_key, meta_height_key,
    spec_spendable, BlockchainDB,
};
use crate::strutil::{
    spec_dec_digits, spec_hex8, spec_parse_u64, u32_to_hex8_string, u64_to_dec_string,
};
use crate::transaction::{
    decode_transaction, enc_tx, spec_coinbase_tx, spec_tx_hash, tx_from_bytes, Transaction, TxV,
};

verus! {

/// One key-value pair attached to an event.
#[derive(Debug)]
pub struct EventAttribute {
    /// Attribute name.
    pub key: String,
    /// Attribute value.
    pub value: String,
    /// Whether the driver should index it.
    pub index: bool,
}

/// A named event with its attributes.
#[derive(Debug)]
pub struct Event {
    /// Event name.
    pub type_str: String,
    /// Attributes in order.
    pub attributes: Vec<EventAttribute>,
}

/// The application's self-description.
#[derive(Debug)]
pub struct ResponseInfo {
    /// Human-readable name.
    pub data: String,
    /// Software version.
    pub version: String,
    /// Protocol version.
    pub app_version: u64,
    /// Height of the last committed block.
    pub last_block_height: i64,
    /// App hash of the last committed block.
    pub last_block_app_hash: Vec<u8>,
}

/// The answer to chain initialization.
#[derive(Debug)]
pub struct ResponseInitChain {
    /// The current app hash; the driver echoes the consensus parameters
    /// and an empty validator update list itself.
    pub app_hash: Vec<u8>,
}

/// The answer to a mempool admission check.
#[derive(Debug)]
pub struct ResponseCheckTx {
    /// 0 on success; 1 invalid transaction; 2 decode failure.
    pub code: u32,
    /// Unused payload.
    pub data: Vec<u8>,
    /// Human-readable outcome.
    pub log: String,
    /// Gas the transaction asks for: its byte size.
    pub gas_wanted: i64,
    /// Gas the transaction used: its byte size.
    pub gas_used: i64,
    /// Emitted events.
    pub events: Vec<Event>,
    /// Error namespace; empty on success.
    pub codespace: String,
}

/// The answer to a delivered transaction.
#[derive(Debug)]
pub struct ResponseDeliverTx {
    /// 0 on success; 1 invalid; 2 decode failure; 3 no block being
    /// built.
    pub code: u32,
    /// The transaction id on success.
    pub data: Vec<u8>,
    /// Human-readable outcome.
    pub log: String,
    /// Gas the transaction asks for.
    pub gas_wanted: i64,
    /// Gas the transaction used.
    pub gas_used: i64,
    /// Emitted events.
    pub events: Vec<Event>,
    /// Error namespace; empty on success.
    pub codespace: String,
}

/// The events opening a block.
#[derive(Debug)]
pub struct ResponseBeginBlock {
    /// Emitted events.
    pub events: Vec<Event>,
}

/// The events closing a block; validator updates stay empty under proof
/// of work.
#[derive(Debug)]
pub struct ResponseEndBlock {
    /// Emitted events.
    pub events: Vec<Event>,
}

/// The answer to a commit.
#[derive(Debug)]
pub struct ResponseCommit {
    /// The sealed block's hash, or empty when nothing was being built.
    pub data: Vec<u8>,
    /// Lowest height to retain; 0 keeps everything.
    pub retain_height: i64,
}

/// The answer to a query.
#[derive(Debug)]
pub struct ResponseQuery {
    /// 0 success; 2 not found; 3 store failure; 4 malformed argument; 5
    /// unknown path.
    pub code: u32,
    /// Human-readable outcome.
    pub log: String,
    /// The request data, echoed on success.
    pub key: Vec<u8>,
    /// The answer payload.
    pub value: Vec<u8>,
    /// The height the answer speaks of.
    pub height: i64,
    /// Error namespace; empty on success.
    pub codespace: String,
}

/// What the state machine reports when it cannot be built.
#[derive(Debug)]
pub enum ConsensusError {
    /// The store failed.
    DatabaseError(String),
    /// A transaction was rejected.
    InvalidTransaction(String),
    /// A block could not be assembled.
    BlockBuildingError(String),
    /// Anything else in the consensus shim.
    ConsensusError(String),
}

/// The block being assembled between BeginBlock and Commit.
#[derive(Debug)]
struct BlockBuilder {
    /// Transactions so far, the coinbase first.
    transactions: Vec<Transaction>,
    /// Height this block will seal.
    height: u64,
    /// The current tip it builds on.
    previous_hash: [u8; 32],
    /// The driver-supplied block time.
    timestamp: u64,
    /// The compact difficulty it will carry.
    bits: u32,
}

/// The in-memory tip the state machine works from.
#[derive(Debug, Clone, Copy, PartialEq, Eq)]
pub struct ChainState {
    /// Height of the tip.
    pub height: u64,
    /// Hash of the tip.
    pub best_block_hash: [u8; 32],
    /// Transactions committed so far, as far as counted.
    pub total_transactions: u64,
    /// The prevailing compact difficulty.
    pub current_bits: u32,
}

/// Mathematical value of a `BlockBuilder`.
pub ghost struct BlockBuilderV {
    pub transactions: Seq<TxV>,
    pub height: u64,
    pub previous_hash: Seq<u8>,
    pub timestamp: u64,
    pub bits: u32,
}

/// The outcome of validating one transaction.
struct TxCheckResult {
    /// Whether it may enter a block.
    valid: bool,
    /// Why not, when it may not.
    error: Option<String>,
    /// The size-proportional gas placeholder.
    gas_used: u64,
}

/// The reward at `height`: the initial reward halved once per
/// `HALVING_INTERVAL` blocks, and nothing from the 64th halving on.
pub open spec fn spec_block_reward(height: u64) -> u64 {
    if height / crate::HALVING_INTERVAL >= 64 {
        0u64
    } else {
        (crate::INITIAL_BLOCK_REWARD >> (height / crate::HALVING_INTERVAL) as u64) as u64
    }
}

/// The fixed beneficiary script of this node's coinbases.
pub open spec fn spec_beneficiary() -> Seq<u8> {
    seq![
        0x73u8, 0x65, 0x64, 0x6c, 0x79, 0x5f, 0x76, 0x61, 0x6c, 0x69, 0x64, 0x61, 0x74, 0x6f,
        0x72,
    ]
}

/// The ASCII bytes of the beneficiary script.
fn beneficiary_bytes() -> (r: Vec<u8>)
    ensures
        r@ == spec_beneficiary(),
{
    let mut v: Vec<u8> = Vec::new();
    v.push(0x73);
    v.push(0x65);
    v.push(0x64);
    v.push(0x6c);
    v.push(0x79);
    v.push(0x5f);
    v.push(0x76);
    v.push(0x61);
    v.push(0x6c);
    v.push(0x69);
    v.push(0x64);
    v.push(0x61);
    v.push(0x74);
    v.push(0x6f);
    v.push(0x72);
    proof {
        assert(v@ =~= spec_beneficiary());
    }
    v
}

/// A freshly built application: the genesis tip in memory, no block
/// being assembled, and the store holding exactly the genesis block —
/// its block bytes under its hash, the height index at 0, the UTXO set
/// and transaction index as the genesis commit leaves them, and the tip
/// metadata naming it.
pub open spec fn spec_fresh_app(app: SedlyApp) -> bool {
    let g = crate::block::spec_genesis_block();
    let gh = spec_block_hash(g);
    &&& app.wf()
    &&& app.state().height == 0
    &&& app.state().best_block_hash@ == gh
    &&& app.state().total_transactions == 1
    &&& app.state().current_bits == 0x1d00ffffu32
    &&& app.builder() is None
    &&& app.blocks() == Map::<Seq<u8>, Seq<u8>>::empty().insert(gh, enc_block(g))
    &&& app.heights() == Map::<Seq<u8>, Seq<u8>>::empty().insert(height_key(0), gh)
    &&& app.utxos() == apply_txs_utxo(Map::<Seq<u8>, Seq<u8>>::empty(), g.transactions, 0)
    &&& app.txindex() == apply_txs_index(
        Map::<Seq<u8>, Seq<u8>>::empty(),
        g.transactions,
        gh,
        0,
        0,
    )
    &&& app.meta() == Map::<Seq<u8>, Seq<u8>>::empty().insert(meta_best_key(), gh).insert(
        meta_height_key(),
        height_key(0),
    ).insert(meta_genesis_key(), gh)
}

/// The header a commit of builder `b` seals at timestamp `ts`.
pub open spec fn spec_commit_header(b: BlockBuilderV, ts: u64) -> BlockHeaderV {
    BlockHeaderV {
        version: crate::PROTOCOL_VERSION,
        previous_hash: b.previous_hash,
        merkle_root: spec_merkle_root(b.transactions),
        timestamp: ts,
        bits: b.bits,
        nonce: 0,
        height: b.height,
    }
}

/// The bits a retarget over the window `ws` yields from `cur`, exactly
/// as the controller decides it: the prevailing bits stay when the
/// window is out of order, the clamped factor is one, or the rescaling
/// cannot be encoded; otherwise the rescaled target's compact form.
pub open spec fn spec_retarget_outcome(
    ws: Seq<BlockV>,
    cur: u32,
    tbt: u64,
    interval: u64,
    fmax: u64,
) -> u32 {
    let expected = (tbt * (interval - 1)) as u64;
    let actual = (ws.last().header.timestamp - ws.first().header.timestamp) as u64;
    let f = spec_clamped_factor(expected, actual, fmax);
    if !crate::difficulty::spec_sequence_ok(ws) {
        cur
    } else if f.is_one() {
        cur
    } else if cur >> 24u32 > 32 {
        cur
    } else if 0 < crate::difficulty::spec_retarget_scaled(cur, f) < 0x1000000 {
        cur
    } else {
        spec_new_bits(cur, f)
    }
}

/// The ABCI application: the store, the block being assembled, the
/// chain state and the retargeting controller.
pub struct SedlyApp {
    db: BlockchainDB,
    current_block: Option<BlockBuilder>,
    difficulty_adjuster: DifficultyAdjuster,
    chain_state: ChainState,
}

impl SedlyApp {
    /// The store and controller are well formed; the controller carries
    /// the chain's fixed parameters.
    pub closed spec fn wf(&self) -> bool {
        &&& self.db.wf()
        &&& self.difficulty_adjuster.wf()
        &&& self.difficulty_adjuster.target_block_time == crate::TARGET_BLOCK_TIME
        &&& self.difficulty_adjuster.adjustment_interval == crate::DIFFICULTY_ADJUSTMENT_INTERVAL
        &&& self.difficulty_adjuster.max_adjustment_factor == crate::MAX_DIFFICULTY_ADJUSTMENT
    }

    /// The in-memory tip.
    pub closed spec fn state(&self) -> ChainState {
        self.chain_state
    }

    /// The block being assembled, if any.
    pub closed spec fn builder(&self) -> Option<BlockBuilderV> {
        match self.current_block {
            Some(b) => Some(
                BlockBuilderV {
                    transactions: b.transactions@.map_values(|t: Transaction| t@),
                    height: b.height,
                    previous_hash: b.previous_hash@,
                    timestamp: b.timestamp,
                    bits: b.bits,
                },
            ),
            None => None,
        }
    }

    /// The store's block namespace.
    pub closed spec fn blocks(&self) -> Map<Seq<u8>, Seq<u8>> {
        self.db.blocks_map()
    }

    /// The store's height index.
    pub closed spec fn heights(&self) -> Map<Seq<u8>, Seq<u8>> {
        self.db.heights_map()
    }

    /// The store's UTXO set.
    pub closed spec fn utxos(&self) -> Map<Seq<u8>, Seq<u8>> {
        self.db.utxos_map()
    }

    /// The store's transaction index.
    pub closed spec fn txindex(&self) -> Map<Seq<u8>, Seq<u8>> {
        self.db.txindex_map()
    }

    /// The store's metadata.
    pub closed spec fn meta(&self) -> Map<Seq<u8>, Seq<u8>> {
        self.db.meta_map()
    }

    /// Opens the store and seeds it with the genesis block; the chain
    /// state starts at the genesis tip and the store holds exactly the
    /// genesis commit.
    pub fn new(db_path: &str) -> (r: Result<Self, ConsensusError>)
        ensures
            match r {
                Ok(app) => spec_fresh_app(app),
                Err(_) => false,
            },
    {
        let db = match BlockchainDB::open(db_path) {
            Ok(db) => db,
            Err(_) => {
                return Err(
                    ConsensusError::DatabaseError(String::from_str("store cannot be opened")),
                );
            },
        };
        let mut db = db;
        let metadata = match db.get_metadata() {
            Ok(m) => m,
            Err(_) => {
                return Err(
                    ConsensusError::DatabaseError(String::from_str("store cannot be read")),
                );
            },
        };
        let chain_state: ChainState;
        if metadata.height == 0 {
            let genesis = Block::genesis();
            let genesis_hash = genesis.hash();
            match db.initialize_with_genesis(&genesis) {
                Ok(()) => {},
                Err(_) => {
                    return Err(
                        ConsensusError::DatabaseError(
                            String::from_str("genesis cannot be stored"),
                        ),
                    );
                },
            }
            chain_state = ChainState {
                height: 0,
                best_block_hash: genesis_hash,
                total_transactions: 1,
                current_bits: DifficultyAdjuster::genesis_difficulty(),
            };
        } else {
            chain_state = ChainState {
                height: metadata.height,
                best_block_hash: metadata.best_block_hash,
                total_transactions: 0,
                current_bits: DifficultyAdjuster::genesis_difficulty(),
            };
        }
        proof {
            assert(chain_state.height == 0);
        }
        Ok(
            SedlyApp {
                db,
                current_block: None,
                difficulty_adjuster: DifficultyAdjuster::new(),
                chain_state,
            },
        )
    }

    /// A copy of the in-memory tip.
    pub fn chain_state(&self) -> (r: ChainState)
        ensures
            r == self.state(),
    {
        self.chain_state
    }

    /// The reward at `height`: halved every `HALVING_INTERVAL` blocks,
    /// and zero from the 64th halving on.
    pub fn calculate_block_reward(&self, height: u64) -> (r: u64)
        ensures
            r == spec_block_reward(height),
    {
        let halvings = height / crate::HALVING_INTERVAL;
        if halvings >= 64 {
            0
        } else {
            crate::INITIAL_BLOCK_REWARD >> halvings
        }
    }

    /// The coinbase paying this block's reward to `beneficiary`.
    pub fn create_coinbase(&self, height: u64, beneficiary: &[u8]) -> (r: Transaction)
        ensures
            r@ == spec_coinbase_tx(beneficiary@, height, spec_block_reward(height)),
    {
        let reward = self.calculate_block_reward(height);
        Transaction::coinbase(beneficiary, height, reward)
    }

    /// Validates one transaction against the tip: structure, no
    /// coinbase in the mempool, and every input unspent and spendable
    /// at the current height. Gas is its byte size.
    fn check_transaction(&self, tx: &Transaction) -> (r: TxCheckResult)
        requires
            self.wf(),
        ensures
            r.valid == (tx@.valid() && !tx@.is_coinbase() && (forall|j: int|
                0 <= j < tx@.inputs.len() ==> spec_spendable(
                    self.utxos(),
                    (#[trigger] tx@.inputs[j]).previous_output,
                    self.state().height,
                ))),
            r.valid ==> r.gas_used == enc_tx(tx@).len(),
    {
        if !tx.is_valid() {
            return TxCheckResult {
                valid: false,
                error: Some(String::from_str("Invalid transaction structure")),
                gas_used: 0,
            };
        }
        if tx.is_coinbase() {
            return TxCheckResult {
                valid: false,
                error: Some(String::from_str("Coinbase transactions not allowed in mempool")),
                gas_used: 0,
            };
        }
        let n = tx.inputs.len();
        let mut j: usize = 0;
        while j < n
            invariant
                self.wf(),
                n == tx.inputs@.len(),
                0 <= j <= n,
                forall|k: int|
                    0 <= k < j ==> spec_spendable(
                        self.utxos(),
                        (#[trigger] tx@.inputs[k]).previous_output,
                        self.state().height,
                    ),
            decreases n - j,
        {
            proof {
                assert(tx@.inputs[j as int] == tx.inputs@[j as int]@);
            }
            match self.db.is_utxo_spendable(&tx.inputs[j].previous_output, self.chain_state.height)
            {
                Ok(true) => {},
                Ok(false) => {
                    return TxCheckResult {
                        valid: false,
                        error: Some(String::from_str("UTXO not found or not spendable")),
                        gas_used: 0,
                    };
                },
                Err(_) => {
                    return TxCheckResult {
                        valid: false,
                        error: Some(String::from_str("Database error")),
                        gas_used: 0,
                    };
                },
            }
            j = j + 1;
        }
        let size = tx.size();
        TxCheckResult { valid: true, error: None, gas_used: size as u64 }
    }

    /// The compact difficulty for a block at `height`: the prevailing
    /// bits away from a retarget boundary; at a boundary, the
    /// controller's verdict over the window stored at the 144 heights
    /// below `height` when that whole window can be read, and the
    /// prevailing bits when it cannot.
    #[verifier::rlimit(50)]
    fn update_difficulty(&self, height: u64) -> (r: u32)
        requires
            self.wf(),
        ensures
            (height % crate::DIFFICULTY_ADJUSTMENT_INTERVAL != 0 || height == 0) ==> r
                == self.state().current_bits,
            (height % crate::DIFFICULTY_ADJUSTMENT_INTERVAL == 0 && height > 0) ==> r == (
            match crate::storage::spec_stored_window(
                self.heights(),
                self.blocks(),
                height - crate::DIFFICULTY_ADJUSTMENT_INTERVAL,
                crate::DIFFICULTY_ADJUSTMENT_INTERVAL as int,
            ) {
                Some(ws) => spec_retarget_outcome(
                    ws,
                    self.state().current_bits,
                    crate::TARGET_BLOCK_TIME,
                    crate::DIFFICULTY_ADJUSTMENT_INTERVAL,
                    crate::MAX_DIFFICULTY_ADJUSTMENT,
                ),
                None => self.state().current_bits,
            }),
    {
        if height % crate::DIFFICULTY_ADJUSTMENT_INTERVAL == 0 && height > 0 {
            let start_height = height - crate::DIFFICULTY_ADJUSTMENT_INTERVAL;
            let ghost hm = self.heights();
            let ghost bm = self.blocks();
            let mut recent_blocks: Vec<Block> = Vec::new();
            let mut all_loaded = true;
            let mut h = start_height;
            while h < height
                invariant
                    self.wf(),
                    hm == self.heights(),
                    bm == self.blocks(),
                    start_height == height - crate::DIFFICULTY_ADJUSTMENT_INTERVAL,
                    start_height <= h <= height,
                    all_loaded ==> crate::storage::spec_stored_window(
                        hm,
                        bm,
                        start_height as int,
                        h - start_height,
                    ) == Some(recent_blocks@.map_values(|b: Block| b@)) && recent_blocks@.len() == h
                        - start_height,
                    !all_loaded ==> crate::storage::spec_stored_window(
                        hm,
                        bm,
                        start_height as int,
                        crate::DIFFICULTY_ADJUSTMENT_INTERVAL as int,
                    ) is None && recent_blocks@.len() < h - start_height,
                decreases height - h,
            {
                let ghost prevb = recent_blocks@;
                match self.db.get_block_by_height(h) {
                    Ok(Some(block)) => {
                        proof {
                            assert(crate::storage::spec_stored_block(hm, bm, h as int) == Some(
                                block@,
                            ));
                            if all_loaded {
                                crate::storage::lemma_stored_window_extend(
                                    hm,
                                    bm,
                                    start_height as int,
                                    h - start_height,
                                    prevb.map_values(|b: Block| b@),
                                    block@,
                                );
                            }
                        }
                        recent_blocks.push(block);
                        proof {
                            assert(recent_blocks@.map_values(|b: Block| b@)
                                =~= prevb.map_values(|b: Block| b@).push(recent_blocks@.last()@));
                        }
                    },
                    Ok(None) => {
                        proof {
                            assert(crate::storage::spec_stored_block(hm, bm, h as int) is None);
                            if all_loaded {
                                crate::storage::lemma_stored_window_broken(
                                    hm,
                                    bm,
                                    start_height as int,
                                    crate::DIFFICULTY_ADJUSTMENT_INTERVAL as int,
                                    h - start_height,
                                );
                            }
                        }
                        all_loaded = false;
                    },
                    Err(_) => {
                        proof {
                            assert(crate::storage::spec_stored_block(hm, bm, h as int) is None);
                            if all_loaded {
                                crate::storage::lemma_stored_window_broken(
                                    hm,
                                    bm,
                                    start_height as int,
                                    crate::DIFFICULTY_ADJUSTMENT_INTERVAL as int,
                                    h - start_height,
                                );
                            }
                        }
                        all_loaded = false;
                    },
                }
                h = h + 1;
            }
            if recent_blocks.len() as u64 == crate::DIFFICULTY_ADJUSTMENT_INTERVAL {
                proof {
                    assert(all_loaded);
                }
                match self.difficulty_adjuster.calculate_next_difficulty(
                    &recent_blocks,
                    self.chain_state.current_bits,
                ) {
                    Ok(adjustment) => {
                        proof {
                            let ws = recent_blocks@.map_values(|b: Block| b@);
                            assert(ws.len() == crate::DIFFICULTY_ADJUSTMENT_INTERVAL);
                            assert(adjustment.new_bits == spec_retarget_outcome(
                                ws,
                                self.state().current_bits,
                                crate::TARGET_BLOCK_TIME,
                                crate::DIFFICULTY_ADJUSTMENT_INTERVAL,
                                crate::MAX_DIFFICULTY_ADJUSTMENT,
                            ));
                        }
                        return adjustment.new_bits;
                    },
                    Err(e) => {
                        proof {
                            let ws = recent_blocks@.map_values(|b: Block| b@);
                            assert(self.chain_state.current_bits == spec_retarget_outcome(
                                ws,
                                self.state().current_bits,
                                crate::TARGET_BLOCK_TIME,
                                crate::DIFFICULTY_ADJUSTMENT_INTERVAL,
                                crate::MAX_DIFFICULTY_ADJUSTMENT,
                            ));
                        }
                        return self.chain_state.current_bits;
                    },
                }
            }
        }
        self.chain_state.current_bits
    }

    /// The application's self-description: its name, versions, and the
    /// tip it last committed.
    pub fn info(&self) -> (r: ResponseInfo)
        ensures
            r.data@ == "Sedly Blockchain"@,
            r.app_version == 1,
            r.last_block_height == self.state().height as i64,
            r.last_block_app_hash@ == self.state().best_block_hash@,
    {
        ResponseInfo {
            data: String::from_str("Sedly Blockchain"),
            version: String::from_str("0.1.0"),
            app_version: 1,
            last_block_height: #[verifier::truncate] (self.chain_state.height as i64),
            last_block_app_hash: crate::bytesutil::bytes_to_vec(
                self.chain_state.best_block_hash.as_slice(),
            ),
        }
    }

    /// Acknowledges chain initialization; the genesis was written when
    /// the application was built.
    pub fn init_chain(&self) -> (r: ResponseInitChain)
        ensures
            r.app_hash@ == self.state().best_block_hash@,
    {
        ResponseInitChain {
            app_hash: crate::bytesutil::bytes_to_vec(self.chain_state.best_block_hash.as_slice()),
        }
    }

    /// Checks a raw transaction for mempool admission: code 2 when the
    /// bytes do not parse, 1 when the transaction is rejected, 0 with
    /// its byte size as gas when it may enter a block.
    pub fn check_tx(&self, tx_bytes: &[u8]) -> (r: ResponseCheckTx)
        requires
            self.wf(),
        ensures
            r.code == 0 || r.code == 1 || r.code == 2,
            (r.code == 2) <==> tx_from_bytes(tx_bytes@) is None,
            (r.code == 0) == (match tx_from_bytes(tx_bytes@) {
                Some(t) => t.valid() && !t.is_coinbase() && (forall|j: int|
                    0 <= j < t.inputs.len() ==> spec_spendable(
                        self.utxos(),
                        (#[trigger] t.inputs[j]).previous_output,
                        self.state().height,
                    )),
                None => false,
            }),
            r.code == 0 ==> (match tx_from_bytes(tx_bytes@) {
                Some(t) => r.gas_wanted == ((enc_tx(t).len() as u64) as i64) && r.gas_used
                    == r.gas_wanted,
                None => false,
            }) && r.codespace@ == Seq::<char>::empty(),
            r.code != 0 ==> r.gas_wanted == 0 && r.gas_used == 0 && r.codespace@ == "sedly"@,
            r.code == 2 ==> r.log@ == "Failed to decode transaction"@,
            r.data@ == Seq::<u8>::empty(),
            r.events@.len() == 0,
    {
        let tx = match decode_transaction(tx_bytes) {
            Some(t) => t,
            None => {
                return ResponseCheckTx {
                    code: 2,
                    data: Vec::new(),
                    log: String::from_str("Failed to decode transaction"),
                    gas_wanted: 0,
                    gas_used: 0,
                    events: Vec::new(),
                    codespace: String::from_str("sedly"),
                };
            },
        };
        let result = self.check_transaction(&tx);
        if result.valid {
            ResponseCheckTx {
                code: 0,
                data: Vec::new(),
                log: String::from_str("Transaction valid"),
                gas_wanted: #[verifier::truncate] (result.gas_used as i64),
                gas_used: #[verifier::truncate] (result.gas_used as i64),
                events: Vec::new(),
                codespace: String::new(),
            }
        } else {
            let log = match result.error {
                Some(msg) => msg,
                None => String::from_str("Invalid transaction"),
            };
            ResponseCheckTx {
                code: 1,
                data: Vec::new(),
                log,
                gas_wanted: 0,
                gas_used: 0,
                events: Vec::new(),
                codespace: String::from_str("sedly"),
            }
        }
    }

    /// Opens a block at `height` with the driver-supplied `time`: the
    /// difficulty for this height is computed, a coinbase paying the
    /// fixed beneficiary is synthesized, and a builder takes their
    /// place; the event names the height and the difficulty in hex.
    pub fn begin_block(&mut self, height: u64, time: u64) -> (r: ResponseBeginBlock)
        requires
            old(self).wf(),
        ensures
            final(self).wf(),
            final(self).state() == old(self).state(),
            final(self).blocks() == old(self).blocks(),
            final(self).heights() == old(self).heights(),
            final(self).utxos() == old(self).utxos(),
            final(self).txindex() == old(self).txindex(),
            final(self).meta() == old(self).meta(),
            match final(self).builder() {
                Some(b) => b.height == height && b.previous_hash == old(
                    self,
                ).state().best_block_hash@ && b.timestamp == time && b.transactions == seq![
                    spec_coinbase_tx(spec_beneficiary(), height, spec_block_reward(height)),
                ] && ((height % crate::DIFFICULTY_ADJUSTMENT_INTERVAL != 0 || height == 0) ==> b.bits
                    == old(self).state().current_bits) && ((height
                    % crate::DIFFICULTY_ADJUSTMENT_INTERVAL == 0 && height > 0) ==> b.bits == (
                match crate::storage::spec_stored_window(
                    old(self).heights(),
                    old(self).blocks(),
                    height - crate::DIFFICULTY_ADJUSTMENT_INTERVAL,
                    crate::DIFFICULTY_ADJUSTMENT_INTERVAL as int,
                ) {
                    Some(ws) => spec_retarget_outcome(
                        ws,
                        old(self).state().current_bits,
                        crate::TARGET_BLOCK_TIME,
                        crate::DIFFICULTY_ADJUSTMENT_INTERVAL,
                        crate::MAX_DIFFICULTY_ADJUSTMENT,
                    ),
                    None => old(self).state().current_bits,
                })),
                None => false,
            },
            r.events@.len() == 1 && r.events@[0].type_str@ == "begin_block"@
                && r.events@[0].attributes@.len() == 2 && r.events@[0].attributes@[0].key@
                == "height"@ && r.events@[0].attributes@[0].value@ == spec_dec_digits(height)
                && r.events@[0].attributes@[1].key@ == "difficulty"@
                && r.events@[0].attributes@[1].value@ == "0x"@ + spec_hex8(
                final(self).builder().unwrap().bits,
            ),
    {
        let previous_hash = self.chain_state.best_block_hash;
        let new_bits = self.update_difficulty(height);
        let beneficiary = beneficiary_bytes();
        let coinbase = self.create_coinbase(height, beneficiary.as_slice());
        let mut transactions: Vec<Transaction> = Vec::new();
        transactions.push(coinbase);
        let builder = BlockBuilder {
            transactions,
            height,
            previous_hash,
            timestamp: time,
            bits: new_bits,
        };
        proof {
            assert(builder.transactions@.map_values(|t: Transaction| t@) =~= seq![
                spec_coinbase_tx(spec_beneficiary(), height, spec_block_reward(height)),
            ]);
        }
        self.current_block = Some(builder);
        let mut difficulty_text = String::from_str("0x");
        difficulty_text.append(u32_to_hex8_string(new_bits).as_str());
        let mut attributes: Vec<EventAttribute> = Vec::new();
        attributes.push(
            EventAttribute {
                key: String::from_str("height"),
                value: u64_to_dec_string(height),
                index: false,
            },
        );
        attributes.push(
            EventAttribute {
                key: String::from_str("difficulty"),
                value: difficulty_text,
                index: false,
            },
        );
        let event = Event { type_str: String::from_str("begin_block"), attributes };
        let mut events: Vec<Event> = Vec::new();
        events.push(event);
        ResponseBeginBlock { events }
    }

    /// Delivers a raw transaction into the block being built: code 2
    /// when the bytes do not parse, 1 when the transaction is rejected,
    /// 3 when no block is being built, and 0 with the transaction id
    /// when it was appended.
    pub fn deliver_tx(&mut self, tx_bytes: &[u8]) -> (r: ResponseDeliverTx)
        requires
            old(self).wf(),
        ensures
            final(self).wf(),
            final(self).state() == old(self).state(),
            final(self).blocks() == old(self).blocks(),
            final(self).heights() == old(self).heights(),
            final(self).utxos() == old(self).utxos(),
            final(self).txindex() == old(self).txindex(),
            final(self).meta() == old(self).meta(),
            r.code == 0 || r.code == 1 || r.code == 2 || r.code == 3,
            (r.code == 2) <==> tx_from_bytes(tx_bytes@) is None,
            r.code != 0 ==> final(self).builder() == old(self).builder(),
            r.code == 3 ==> old(self).builder() is None,
            (r.code == 1) == (match tx_from_bytes(tx_bytes@) {
                Some(t) => !(t.valid() && !t.is_coinbase() && (forall|j: int|
                    0 <= j < t.inputs.len() ==> spec_spendable(
                        old(self).utxos(),
                        (#[trigger] t.inputs[j]).previous_output,
                        old(self).state().height,
                    ))),
                None => false,
            }),
            r.code == 0 ==> (match tx_from_bytes(tx_bytes@) {
                Some(t) => {
                    &&& t.valid()
                    &&& !t.is_coinbase()
                    &&& forall|j: int|
                        0 <= j < t.inputs.len() ==> spec_spendable(
                            old(self).utxos(),
                            (#[trigger] t.inputs[j]).previous_output,
                            old(self).state().height,
                        )
                    &&& old(self).builder() matches Some(b)
                    &&& final(self).builder() matches Some(b2)
                    &&& b2 == (BlockBuilderV {
                        transactions: old(self).builder().unwrap().transactions.push(t),
                        ..old(self).builder().unwrap()
                    })
                    &&& r.data@ == spec_tx_hash(t)
                    &&& r.gas_wanted == ((enc_tx(t).len() as u64) as i64)
                    &&& r.gas_used == r.gas_wanted
                    &&& r.log@ == "Transaction delivered"@
                    &&& r.codespace@ == Seq::<char>::empty()
                    &&& r.events@.len() == 1
                    &&& r.events@[0].type_str@ == "deliver_tx"@
                    &&& r.events@[0].attributes@.len() == 1
                    &&& r.events@[0].attributes@[0].key@ == "txhash"@
                    &&& r.events@[0].attributes@[0].value@ == spec_hex_of(spec_tx_hash(t))
                },
                None => false,
            }),
            r.code != 0 ==> r.gas_wanted == 0 && r.gas_used == 0 && r.codespace@ == "sedly"@
                && r.data@ == Seq::<u8>::empty() && r.events@.len() == 0,
            r.code == 2 ==> r.log@ == "Failed to decode transaction"@,
            r.code == 3 ==> r.log@ == "No block being built"@,
    {
        let tx = match decode_transaction(tx_bytes) {
            Some(t) => t,
            None => {
                return ResponseDeliverTx {
                    code: 2,
                    data: Vec::new(),
                    log: String::from_str("Failed to decode transaction"),
                    gas_wanted: 0,
                    gas_used: 0,
                    events: Vec::new(),
                    codespace: String::from_str("sedly"),
                };
            },
        };
        let result = self.check_transaction(&tx);
        if !result.valid {
            let log = match result.error {
                Some(msg) => msg,
                None => String::from_str("Invalid transaction"),
            };
            return ResponseDeliverTx {
                code: 1,
                data: Vec::new(),
                log,
                gas_wanted: 0,
                gas_used: 0,
                events: Vec::new(),
                codespace: String::from_str("sedly"),
            };
        }
        let tx_hash = tx.hash();
        let ghost txg = tx@;
        match &mut self.current_block {
            Some(builder) => {
                let ghost prevtxs = builder.transactions@;
                builder.transactions.push(tx);
                proof {
                    assert(builder.transactions@.map_values(|t: Transaction| t@)
                        =~= prevtxs.map_values(|t: Transaction| t@).push(txg));
                }
                let hash_hex = hex_encode(tx_hash.as_slice());
                let mut attributes: Vec<EventAttribute> = Vec::new();
                attributes.push(
                    EventAttribute {
                        key: String::from_str("txhash"),
                        value: hash_hex,
                        index: true,
                    },
                );
                let event = Event { type_str: String::from_str("deliver_tx"), attributes };
                let mut events: Vec<Event> = Vec::new();
                events.push(event);
                ResponseDeliverTx {
                    code: 0,
                    data: crate::bytesutil::bytes_to_vec(tx_hash.as_slice()),
                    log: String::from_str("Transaction delivered"),
                    gas_wanted: #[verifier::truncate] (result.gas_used as i64),
                    gas_used: #[verifier::truncate] (result.gas_used as i64),
                    events,
                    codespace: String::new(),
                }
            },
            None => ResponseDeliverTx {
                code: 3,
                data: Vec::new(),
                log: String::from_str("No block being built"),
                gas_wanted: 0,
                gas_used: 0,
                events: Vec::new(),
                codespace: String::from_str("sedly"),
            },
        }
    }

    /// Closes the assembly phase; nothing changes, and the event names
    /// the height.
    pub fn end_block(&self, height: u64) -> (r: ResponseEndBlock)
        ensures
            r.events@.len() == 1 && r.events@[0].type_str@ == "end_block"@
                && r.events@[0].attributes@.len() == 1 && r.events@[0].attributes@[0].key@
                == "height"@ && r.events@[0].attributes@[0].value@ == spec_dec_digits(height),
    {
        let mut attributes: Vec<EventAttribute> = Vec::new();
        attributes.push(
            EventAttribute {
                key: String::from_str("height"),
                value: u64_to_dec_string(height),
                index: false,
            },
        );
        let event = Event { type_str: String::from_str("end_block"), attributes };
        let mut events: Vec<Event> = Vec::new();
        events.push(event);
        ResponseEndBlock { events }
    }

    /// Seals the block being built into the store and advances the
    /// chain state to it: the new height, tip hash and difficulty come
    /// from the builder, and the transaction count grows by the block's
    /// size. With nothing being built, the answer carries empty data.
    pub fn commit(&mut self) -> (r: ResponseCommit)
        requires
            old(self).wf(),
        ensures
            final(self).wf(),
            final(self).builder() is None,
            r.retain_height == 0,
            old(self).builder() is None ==> r.data@ == Seq::<u8>::empty() && final(self).state()
                == old(self).state() && final(self).blocks() == old(self).blocks()
                && final(self).utxos() == old(self).utxos(),
            old(self).builder() matches Some(b) ==> exists|ts: u64|
                #![trigger spec_commit_header(b, ts)]
                {
                    let hdr = spec_commit_header(b, ts);
                    let bv = BlockV { header: hdr, transactions: b.transactions };
                    let bh = spec_header_hash(hdr);
                    &&& r.data@ == bh
                    &&& final(self).state().height == b.height
                    &&& final(self).state().best_block_hash@ == bh
                    &&& final(self).state().current_bits == b.bits
                    &&& final(self).state().total_transactions == (if old(
                        self,
                    ).state().total_transactions + b.transactions.len() <= u64::MAX {
                        (old(self).state().total_transactions + b.transactions.len()) as u64
                    } else {
                        u64::MAX
                    })
                    &&& final(self).blocks() == old(self).blocks().insert(bh, enc_block(bv))
                    &&& final(self).heights() == old(self).heights().insert(
                        height_key(b.height),
                        bh,
                    )
                    &&& final(self).utxos() == apply_txs_utxo(
                        old(self).utxos(),
                        b.transactions,
                        b.height,
                    )
                    &&& final(self).txindex() == apply_txs_index(
                        old(self).txindex(),
                        b.transactions,
                        bh,
                        b.height,
                        0,
                    )
                    &&& final(self).meta() == old(self).meta().insert(meta_best_key(), bh).insert(
                        meta_height_key(),
                        height_key(b.height),
                    )
                },
    {
        let builder = match self.current_block.take() {
            Some(b) => b,
            None => {
                return ResponseCommit { data: Vec::new(), retain_height: 0 };
            },
        };
        let tx_count = builder.transactions.len();
        let block = Block::new(
            builder.previous_hash,
            builder.transactions,
            builder.bits,
            builder.height,
        );
        let block_hash = block.hash();
        match self.db.store_block(&block) {
            Ok(()) => {},
            Err(_) => {
                return ResponseCommit { data: Vec::new(), retain_height: 0 };
            },
        }
        self.chain_state.height = builder.height;
        self.chain_state.best_block_hash = block_hash;
        self.chain_state.current_bits = builder.bits;
        self.chain_state.total_transactions = self.chain_state.total_transactions.saturating_add(
            tx_count as u64,
        );
        proof {
            let bg = old(self).builder().unwrap();
            let ts = block.header.timestamp;
            assert(block@.header == spec_commit_header(bg, ts));
            assert(block@ == (BlockV {
                header: spec_commit_header(bg, ts),
                transactions: bg.transactions,
            }));
        }
        ResponseCommit {
            data: crate::bytesutil::bytes_to_vec(block_hash.as_slice()),
            retain_height: 0,
        }
    }

    /// Answers a query: `info` reports the tip as a small JSON object;
    /// `block/<height>` returns the canonical bytes of the stored block;
    /// anything else is an unknown path.
    pub fn query(&self, path: &str, data: &[u8]) -> (r: ResponseQuery)
        requires
            self.wf(),
        ensures
            ({
                let pb = vstd::utf8::encode_utf8(path@);
                if spec_is_info_path(pb) {
                    r.code == 0 && r.value@ == spec_info_value(
                        self.state().height,
                        self.state().best_block_hash@,
                    ) && r.height == self.state().height as i64
                } else if spec_is_block_path(pb) {
                    match spec_parse_u64(pb.skip(6)) {
                        Some(h) => {
                            let hk = height_key(h);
                            if self.heights().contains_key(hk) && self.heights()[hk].len() == 32
                                && self.blocks().contains_key(self.heights()[hk]) {
                                match block_from_bytes(self.blocks()[self.heights()[hk]]) {
                                    Some(bv) => r.code == 0 && r.value@ == enc_block(bv) && r.key@
                                        == data@ && r.height == h as i64,
                                    None => r.code == 3,
                                }
                            } else if self.heights().contains_key(hk) && self.heights()[hk].len()
                                != 32 {
                                r.code == 3
                            } else {
                                r.code == 2
                            }
                        },
                        None => r.code == 4,
                    }
                } else {
                    r.code == 5
                }
            }),
    {
        let pb = path.as_bytes();
        let mut info_path: Vec<u8> = Vec::new();
        info_path.push(0x69);
        info_path.push(0x6e);
        info_path.push(0x66);
        info_path.push(0x6f);
        proof {
            assert(info_path@ =~= seq![0x69u8, 0x6e, 0x66, 0x6f]);
        }
        if crate::bytesutil::bytes_eq(pb, info_path.as_slice()) {
            let mut value: Vec<u8> = Vec::new();
            value.push(0x7b);
            value.push(0x22);
            value.push(0x68);
            value.push(0x65);
            value.push(0x69);
            value.push(0x67);
            value.push(0x68);
            value.push(0x74);
            value.push(0x22);
            value.push(0x3a);
            let ghost prefix_done = value@;
            proof {
                assert(prefix_done =~= spec_info_prefix());
            }
            let dec = crate::strutil::u64_to_dec_bytes(self.chain_state.height);
            crate::codec::w_raw(&mut value, dec.as_slice());
            value.push(0x2c);
            value.push(0x22);
            value.push(0x62);
            value.push(0x65);
            value.push(0x73);
            value.push(0x74);
            value.push(0x5f);
            value.push(0x62);
            value.push(0x6c);
            value.push(0x6f);
            value.push(0x63);
            value.push(0x6b);
            value.push(0x22);
            value.push(0x3a);
            value.push(0x22);
            let hexed = crate::strutil::hex_bytes_of(self.chain_state.best_block_hash.as_slice());
            crate::codec::w_raw(&mut value, hexed.as_slice());
            value.push(0x22);
            value.push(0x7d);
            proof {
                assert(value@ =~= spec_info_value(
                    self.state().height,
                    self.state().best_block_hash@,
                ));
            }
            return ResponseQuery {
                code: 0,
                log: String::from_str("Chain info"),
                key: Vec::new(),
                value,
                height: #[verifier::truncate] (self.chain_state.height as i64),
                codespace: String::new(),
            };
        }
        let mut block_prefix: Vec<u8> = Vec::new();
        block_prefix.push(0x62);
        block_prefix.push(0x6c);
        block_prefix.push(0x6f);
        block_prefix.push(0x63);
        block_prefix.push(0x6b);
        block_prefix.push(0x2f);
        proof {
            assert(block_prefix@ =~= seq![0x62u8, 0x6c, 0x6f, 0x63, 0x6b, 0x2f]);
        }
        if pb.len() >= 6 {
            let head = vstd::slice::slice_subrange(pb, 0, 6);
            if crate::bytesutil::bytes_eq(head, block_prefix.as_slice()) {
                let mut no_more_slash = true;
                let n = pb.len();
                let mut i: usize = 6;
                while i < n
                    invariant
                        6 <= i <= n,
                        n == pb@.len(),
                        no_more_slash == (forall|j: int| 6 <= j < i ==> pb@[j] != 0x2fu8),
                    decreases n - i,
                {
                    if pb[i] == 0x2f {
                        no_more_slash = false;
                    }
                    i = i + 1;
                }
                if no_more_slash {
                    proof {
                        assert(spec_is_block_path(pb@));
                    }
                    let arg = vstd::slice::slice_subrange(pb, 6, pb.len());
                    proof {
                        assert(arg@ =~= pb@.skip(6));
                    }
                    match crate::strutil::parse_u64_dec(arg) {
                        Some(height) => {
                            return self.query_block(height, data);
                        },
                        None => {
                            return ResponseQuery {
                                code: 4,
                                log: String::from_str("Invalid height format"),
                                key: Vec::new(),
                                value: Vec::new(),
                                height: 0,
                                codespace: String::from_str("sedly"),
                            };
                        },
                    }
                }
            }
        }
        ResponseQuery {
            code: 5,
            log: String::from_str("Unknown query path"),
            key: Vec::new(),
            value: Vec::new(),
            height: 0,
            codespace: String::from_str("sedly"),
        }
    }

    /// Answers a `block/<height>` query from the store.
    fn query_block(&self, height: u64, data: &[u8]) -> (r: ResponseQuery)
        requires
            self.wf(),
        ensures
            ({
                let hk = height_key(height);
                if self.heights().contains_key(hk) && self.heights()[hk].len() == 32
                    && self.blocks().contains_key(self.heights()[hk]) {
                    match block_from_bytes(self.blocks()[self.heights()[hk]]) {
                        Some(bv) => r.code == 0 && r.value@ == enc_block(bv) && r.key@ == data@
                            && r.height == height as i64,
                        None => r.code == 3,
                    }
                } else if self.heights().contains_key(hk) && self.heights()[hk].len() != 32 {
                    r.code == 3
                } else {
                    r.code == 2
                }
            }),
    {
        match self.db.get_block_by_height(height) {
            Ok(Some(block)) => {
                let bytes = encode_block(&block);
                ResponseQuery {
                    code: 0,
                    log: String::from_str("Block found"),
                    key: crate::bytesutil::bytes_to_vec(data),
                    value: bytes,
                    height: #[verifier::truncate] (height as i64),
                    codespace: String::new(),
                }
            },
            Ok(None) => ResponseQuery {
                code: 2,
                log: String::from_str("Block not found"),
                key: Vec::new(),
                value: Vec::new(),
                height: 0,
                codespace: String::from_str("sedly"),
            },
            Err(_) => ResponseQuery {
                code: 3,
                log: String::from_str("Database error"),
                key: Vec::new(),
                value: Vec::new(),
                height: 0,
                codespace: String::from_str("sedly"),
            },
        }
    }
}

/// Whether the path bytes spell `info`.
pub open spec fn spec_is_info_path(pb: Seq<u8>) -> bool {
    pb =~= seq![0x69u8, 0x6e, 0x66, 0x6f]
}

/// Whether the path bytes spell `block/` followed by an argument with
/// no further slash.
pub open spec fn spec_is_block_path(pb: Seq<u8>) -> bool {
    &&& pb.len() >= 6
    &&& pb.subrange(0, 6) =~= seq![0x62u8, 0x6c, 0x6f, 0x63, 0x6b, 0x2f]
    &&& forall|j: int| 6 <= j < pb.len() ==> pb[j] != 0x2fu8
}

/// The opening bytes of the info object.
pub open spec fn spec_info_prefix() -> Seq<u8> {
    seq![0x7bu8, 0x22, 0x68, 0x65, 0x69, 0x67, 0x68, 0x74, 0x22, 0x3a]
}

/// The middle bytes of the info object.
pub open spec fn spec_info_mid() -> Seq<u8> {
    seq![
        0x2cu8, 0x22, 0x62, 0x65, 0x73, 0x74, 0x5f, 0x62, 0x6c, 0x6f, 0x63, 0x6b, 0x22, 0x3a,
        0x22,
    ]
}

/// The closing bytes of the info object.
pub open spec fn spec_info_suffix() -> Seq<u8> {
    seq![0x22u8, 0x7d]
}

/// The JSON object the `info` query answers with: the height and the
/// tip hash in hex.
pub open spec fn spec_info_value(height: u64, best: Seq<u8>) -> Seq<u8> {
    spec_info_prefix() + crate::strutil::spec_dec_digit_bytes(height) + spec_info_mid()
        + crate::strutil::spec_hex_bytes(best) + spec_info_suffix()
}

} // verus!
