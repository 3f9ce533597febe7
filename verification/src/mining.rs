//! The proof-of-work miner: a nonce search over a header template until
//! the header's hash lies at or below the target. Nonces are taken in
//! batches from a counter so that workers driven by a caller can
//! partition the search space; the stop flag is honored at batch
//! boundaries.

use vstd::prelude::*;
use crate::block::{
    spec_bits_to_target, spec_block_hash, spec_header_hash, spec_merkle_root, bits_to_target,
    Block, BlockHeader,
};
use crate::bytesutil::spec_lex_le;
use crate::transaction::Transaction;

verus! {

/// The miner: its target, worker count, stop flag and shared nonce
/// counter.
#[derive(Debug)]
pub struct Miner {
    /// The 256-bit target a solution must lie at or below.
    pub target: [u8; 32],
    /// How many workers a driver may spawn.
    pub threads: usize,
    /// Cooperative stop; honored between nonce batches.
    pub should_stop: bool,
    /// The next nonce batch starts here.
    pub nonce_counter: u64,
}

/// A successful mining run.
#[derive(Debug, Clone)]
pub struct MiningResult {
    /// The sealed block.
    pub block: Block,
    /// How many headers were hashed.
    pub hashes_calculated: u64,
    /// Wall-clock milliseconds the search took.
    pub mining_time_millis: u64,
}

/// Why a mining run ended without a block.
#[derive(Debug, Clone, PartialEq, Eq)]
pub enum MiningError {
    /// The stop flag was raised.
    Stopped,
    /// The run outlived its allowance.
    Timeout,
    /// The template cannot be mined.
    InvalidTemplate(String),
}

impl Miner {
    /// A miner for the given target.
    pub fn new(target: [u8; 32], threads: usize) -> (r: Self)
        ensures
            r.target@ == target@,
            r.threads == threads,
            !r.should_stop,
            r.nonce_counter == 0,
    {
        Self { target, threads, should_stop: false, nonce_counter: 0 }
    }

    /// A miner whose target comes from compact bits.
    pub fn with_difficulty_bits(bits: u32, threads: usize) -> (r: Self)
        requires
            bits >> 24u32 <= 32,
        ensures
            r.target@ == spec_bits_to_target(bits),
            r.threads == threads,
            !r.should_stop,
            r.nonce_counter == 0,
    {
        let target = bits_to_target(bits);
        Self::new(target, threads)
    }

    /// Whether a header's hash lies at or below this miner's target.
    pub fn check_proof_of_work(&self, header: &BlockHeader) -> (r: bool)
        ensures
            r == spec_lex_le(spec_header_hash(header@), self.target@),
    {
        let hash = header.hash();
        crate::bytesutil::hash32_lex_le(&hash, &self.target)
    }

    /// The current wall clock in seconds since the Unix epoch.
    pub fn current_timestamp() -> u64 {
        crate::timeutil::now_seconds()
    }

    /// Raises the stop flag; a running search stops at its next batch
    /// boundary.
    pub fn stop(&mut self)
        ensures
            final(self).should_stop,
            final(self).target@ == old(self).target@,
            final(self).threads == old(self).threads,
            final(self).nonce_counter == old(self).nonce_counter,
    {
        self.should_stop = true;
    }

    /// Searches nonces for a block over the given transactions whose
    /// header hash lies at or below this miner's target. The template's
    /// timestamp starts at the wall clock and is refreshed during long
    /// searches. A stop flag raised before the call ends the search at
    /// once.
    pub fn mine_block(
        &mut self,
        previous_hash: [u8; 32],
        transactions: Vec<Transaction>,
        height: u64,
        bits: u32,
    ) -> (r: Result<MiningResult, MiningError>)
        ensures
            final(self).target@ == old(self).target@,
            final(self).threads == old(self).threads,
            final(self).should_stop == old(self).should_stop,
            match r {
                Ok(res) => {
                    &&& spec_lex_le(spec_block_hash(res.block@), old(self).target@)
                    &&& res.block@.transactions == transactions@.map_values(
                        |t: Transaction| t@,
                    )
                    &&& res.block@.header.version == crate::PROTOCOL_VERSION
                    &&& res.block@.header.previous_hash == previous_hash@
                    &&& res.block@.header.merkle_root == spec_merkle_root(
                        transactions@.map_values(|t: Transaction| t@),
                    )
                    &&& res.block@.header.bits == bits
                    &&& res.block@.header.height == height
                    &&& res.hashes_calculated > 0
                    &&& !old(self).should_stop
                },
                Err(e) => match e {
                    MiningError::Stopped => old(self).should_stop,
                    MiningError::Timeout => !old(self).should_stop,
                    _ => false,
                },
            },
    {
        let start_millis = crate::timeutil::now_millis();
        self.nonce_counter = 0;
        let merkle_root = Block::calculate_merkle_root(&transactions);
        let mut header = BlockHeader {
            version: crate::PROTOCOL_VERSION,
            previous_hash,
            merkle_root,
            timestamp: Self::current_timestamp(),
            bits,
            nonce: 0,
            height,
        };
        let ghost txv = transactions@.map_values(|t: Transaction| t@);
        let mut total_hashes: u64 = 0;
        let batch_size: u64 = 100_000;
        let max_batches: u64 = u64::MAX / 100_000;
        let mut batch_index: u64 = 0;
        let mut sealed = false;
        while batch_index < max_batches && !sealed
            invariant
                self.target@ == old(self).target@,
                self.threads == old(self).threads,
                self.should_stop == old(self).should_stop,
                header.version == crate::PROTOCOL_VERSION,
                header.previous_hash@ == previous_hash@,
                header.merkle_root@ == spec_merkle_root(txv),
                header.bits == bits,
                header.height == height,
                txv == transactions@.map_values(|t: Transaction| t@),
                batch_size == 100_000,
                sealed ==> spec_lex_le(spec_header_hash(header@), self.target@) && total_hashes
                    > 0,
                (batch_index > 0 || sealed) ==> !old(self).should_stop,
            decreases max_batches - batch_index, 1int - (if sealed { 1int } else { 0int }),
        {
            if self.should_stop {
                return Err(MiningError::Stopped);
            }
            let start_nonce = self.nonce_counter;
            self.nonce_counter = self.nonce_counter.wrapping_add(batch_size);
            let mut nonce_offset: u64 = 0;
            let mut found = false;
            while nonce_offset < batch_size
                invariant
                    self.target@ == old(self).target@,
                    self.threads == old(self).threads,
                    header.version == crate::PROTOCOL_VERSION,
                    header.previous_hash@ == previous_hash@,
                    header.merkle_root@ == spec_merkle_root(txv),
                    header.bits == bits,
                    header.height == height,
                    found ==> spec_lex_le(spec_header_hash(header@), self.target@) && total_hashes
                        > 0,
                decreases batch_size - nonce_offset,
            {
                if found {
                    break ;
                }
                header.nonce = start_nonce.wrapping_add(nonce_offset);
                total_hashes = total_hashes.wrapping_add(1);
                if self.check_proof_of_work(&header) {
                    if total_hashes == 0 {
                        total_hashes = 1;
                    }
                    found = true;
                } else {
                    if total_hashes % 1_000_000 == 0 {
                        header.timestamp = Self::current_timestamp();
                    }
                }
                nonce_offset = nonce_offset + 1;
            }
            if found {
                sealed = true;
            } else {
                batch_index = batch_index + 1;
            }
        }
        if !sealed {
            return Err(MiningError::Timeout);
        }
        let end_millis = crate::timeutil::now_millis();
        let mining_time_millis = if end_millis >= start_millis {
            end_millis - start_millis
        } else {
            0
        };
        let block = Block { header, transactions };
        proof {
            assert(block@.transactions == txv);
        }
        Ok(MiningResult { block, hashes_calculated: total_hashes, mining_time_millis })
    }

    /// Whether a block's hash lies at or below a target.
    pub fn verify_block_hash(block: &Block, target: &[u8; 32]) -> (r: bool)
        ensures
            r == spec_lex_le(spec_block_hash(block@), target@),
    {
        let hash = block.hash();
        crate::bytesutil::hash32_lex_le(&hash, target)
    }
}

/// The low eight bytes of a 256-bit value read big-endian, the
/// approximation used for difficulty arithmetic.
pub fn u256_from_bytes(bytes: &[u8; 32]) -> (r: u64)
    ensures
        r == crate::difficulty::spec_low8_be(bytes@),
{
    let low = vstd::slice::slice_subrange(bytes.as_slice(), 24, 32);
    let r = crate::bytesutil::u64_from_be_slice(low);
    proof {
        assert(low@[0] == bytes@[24]);
        assert(low@[1] == bytes@[25]);
        assert(low@[2] == bytes@[26]);
        assert(low@[3] == bytes@[27]);
        assert(low@[4] == bytes@[28]);
        assert(low@[5] == bytes@[29]);
        assert(low@[6] == bytes@[30]);
        assert(low@[7] == bytes@[31]);
    }
    r
}

} // verus!
