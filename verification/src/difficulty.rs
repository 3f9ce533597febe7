//! The difficulty-retargeting controller: over a window of consecutive
//! blocks it compares the time they took against the target pace and
//! rescales the proof-of-work target, with the adjustment factor
//! clamped to a bounded range. Factors are exact rationals; no
//! floating point enters the arithmetic.

use vstd::prelude::*;
use crate::block::{
    bits_to_target, spec_bits_to_target, spec_size_from, spec_target_size, spec_target_to_bits,
    target_to_bits, Block, BlockV,
};
use crate::bytesutil::{spec_u64_of_be_bytes, u64_from_be_slice, u64_to_be_byte_vec};

verus! {

/// An exact non-negative rational, as a numerator and denominator.
#[derive(Debug, Clone, Copy, PartialEq, Eq, Structural)]
pub struct Ratio {
    /// Numerator.
    pub num: u64,
    /// Denominator.
    pub den: u64,
}

impl Ratio {
    /// The rational `num / den`.
    pub fn new(num: u64, den: u64) -> (r: Self)
        ensures
            r == (Ratio { num, den }),
    {
        Self { num, den }
    }

    /// Whether this ratio equals one.
    pub open spec fn is_one(self) -> bool {
        self.num == self.den
    }
}

/// The outcome of a retarget computation.
#[derive(Debug, Clone, Copy, PartialEq, Eq)]
pub struct DifficultyAdjustment {
    /// The compact bits the window was mined under.
    pub current_bits: u32,
    /// The compact bits to use next.
    pub new_bits: u32,
    /// The clamped adjustment factor.
    pub adjustment_factor: Ratio,
    /// The observed average time per block, in seconds.
    pub actual_time_per_block: Ratio,
    /// Whether the bits changed.
    pub needs_adjustment: bool,
}

/// What can go wrong while retargeting.
#[derive(Debug, Clone, PartialEq, Eq)]
pub enum DifficultyError {
    /// Fewer blocks than the adjustment window.
    InsufficientBlocks { required: usize, provided: usize },
    /// Heights not consecutive or timestamps decreasing.
    InvalidBlockSequence,
    /// Compact bits whose exponent lies outside the representable
    /// range.
    BitsOutOfRange { bits: u32, min_bits: u32, max_bits: u32 },
    /// No data to predict from.
    InsufficientData,
    /// A rescaled target too small for the compact encoding.
    TargetOverflow,
    /// A factor the controller cannot apply.
    InvalidAdjustmentFactor { factor: Ratio },
}

/// The retargeting controller and its parameters.
#[derive(Debug, Clone, Copy, PartialEq, Eq)]
pub struct DifficultyAdjuster {
    /// Target seconds per block.
    pub target_block_time: u64,
    /// Window length in blocks.
    pub adjustment_interval: u64,
    /// Upper clamp on the adjustment factor.
    pub max_adjustment_factor: u64,
    /// Lower clamp on the adjustment factor, the reciprocal of the
    /// upper one.
    pub min_adjustment_factor: Ratio,
}

impl DifficultyAdjuster {
    /// Parameter sanity: a window of at least two blocks, a positive
    /// pace, a clamp of at least one, and an expected window time that
    /// fits a machine word.
    pub open spec fn wf(self) -> bool {
        &&& self.target_block_time >= 1
        &&& self.adjustment_interval >= 2
        &&& self.max_adjustment_factor >= 1
        &&& self.target_block_time * (self.adjustment_interval - 1) <= u64::MAX
        &&& self.min_adjustment_factor == (Ratio { num: 1u64, den: self.max_adjustment_factor })
    }

    /// The controller with the default chain parameters.
    pub fn new() -> (r: Self)
        ensures
            r.wf(),
            r.target_block_time == crate::TARGET_BLOCK_TIME,
            r.adjustment_interval == crate::DIFFICULTY_ADJUSTMENT_INTERVAL,
            r.max_adjustment_factor == crate::MAX_DIFFICULTY_ADJUSTMENT,
    {
        Self {
            target_block_time: crate::TARGET_BLOCK_TIME,
            adjustment_interval: crate::DIFFICULTY_ADJUSTMENT_INTERVAL,
            max_adjustment_factor: crate::MAX_DIFFICULTY_ADJUSTMENT,
            min_adjustment_factor: Ratio { num: 1, den: crate::MAX_DIFFICULTY_ADJUSTMENT },
        }
    }

    /// A controller with custom parameters.
    pub fn with_params(
        target_block_time: u64,
        adjustment_interval: u64,
        max_adjustment_factor: u64,
    ) -> (r: Self)
        requires
            target_block_time >= 1,
            adjustment_interval >= 2,
            max_adjustment_factor >= 1,
            target_block_time * (adjustment_interval - 1) <= u64::MAX,
        ensures
            r.wf(),
            r.target_block_time == target_block_time,
            r.adjustment_interval == adjustment_interval,
            r.max_adjustment_factor == max_adjustment_factor,
    {
        Self {
            target_block_time,
            adjustment_interval,
            max_adjustment_factor,
            min_adjustment_factor: Ratio { num: 1, den: max_adjustment_factor },
        }
    }

    /// The genesis compact difficulty.
    pub fn genesis_difficulty() -> (r: u32)
        ensures
            r == 0x1d00ffffu32,
    {
        0x1d00ffff
    }

    /// The easiest compact difficulty the chain accepts.
    pub fn minimum_difficulty() -> (r: u32)
        ensures
            r == 0x1d00ffffu32,
    {
        0x1d00ffff
    }

    /// The hardest compact difficulty the chain accepts.
    pub fn maximum_difficulty() -> (r: u32)
        ensures
            r == 0x1b000000u32,
    {
        0x1b000000
    }

    /// Checks that compact bits lie between the hardest and the easiest
    /// accepted difficulty (numerically, between `maximum_difficulty`
    /// and `minimum_difficulty`).
    pub fn validate_bits(bits: u32) -> (r: Result<(), DifficultyError>)
        ensures
            match r {
                Ok(()) => 0x1b000000u32 <= bits <= 0x1d00ffffu32,
                Err(e) => (bits > 0x1d00ffffu32 || bits < 0x1b000000u32) && e
                    == (DifficultyError::BitsOutOfRange {
                    bits,
                    min_bits: 0x1d00ffffu32,
                    max_bits: 0x1b000000u32,
                }),
            },
    {
        let min_bits = Self::minimum_difficulty();
        let max_bits = Self::maximum_difficulty();
        if bits > min_bits || bits < max_bits {
            return Err(DifficultyError::BitsOutOfRange { bits, min_bits, max_bits });
        }
        Ok(())
    }
}

/// The adjustment factor `expected / actual` clamped to
/// `[1 / fmax, fmax]`; an instant window clamps to the upper bound.
pub open spec fn spec_clamped_factor(expected: u64, actual: u64, fmax: u64) -> Ratio {
    if actual == 0 || expected >= fmax * actual {
        Ratio { num: fmax, den: 1u64 }
    } else if fmax * expected <= actual {
        Ratio { num: 1u64, den: fmax }
    } else {
        Ratio { num: expected, den: actual }
    }
}

/// The clamped factor lies in `[1 / fmax, fmax]`.
pub proof fn lemma_clamped_factor_bounds(expected: u64, actual: u64, fmax: u64)
    requires
        fmax >= 1,
        expected >= 1,
    ensures
        spec_clamped_factor(expected, actual, fmax).num <= fmax * spec_clamped_factor(
            expected,
            actual,
            fmax,
        ).den,
        spec_clamped_factor(expected, actual, fmax).den <= fmax * spec_clamped_factor(
            expected,
            actual,
            fmax,
        ).num,
        spec_clamped_factor(expected, actual, fmax).num >= 1,
        spec_clamped_factor(expected, actual, fmax).den >= 1,
{
    let f = spec_clamped_factor(expected, actual, fmax);
    assert(fmax * fmax >= 1) by (nonlinear_arith)
        requires
            fmax >= 1,
    ;
    if actual == 0 || expected >= fmax * actual {
        assert(f.num * 1 == fmax * f.den) by (nonlinear_arith)
            requires
                f.num == fmax,
                f.den == 1,
        ;
    } else if fmax * expected <= actual {
        assert(f.den * 1 == fmax * f.num) by (nonlinear_arith)
            requires
                f.den == fmax,
                f.num == 1,
        ;
        assert(fmax * expected >= expected) by (nonlinear_arith)
            requires
                fmax >= 1,
                expected >= 0,
        ;
    } else {
        assert(fmax * actual >= actual) by (nonlinear_arith)
            requires
                fmax >= 1,
                actual >= 0,
        ;
        assert(fmax * expected >= expected) by (nonlinear_arith)
            requires
                fmax >= 1,
                expected >= 0,
        ;
    }
    assert(f.num <= fmax * f.den);
    assert(f.den <= fmax * f.num);
    assert(f.num >= 1);
    assert(f.den >= 1);
}

/// A window that took exactly its expected time clamps to a factor of
/// one.
pub proof fn lemma_clamped_factor_equal(expected: u64, actual: u64, fmax: u64)
    requires
        fmax >= 1,
        expected >= 1,
        expected == actual,
    ensures
        spec_clamped_factor(expected, actual, fmax).is_one(),
{
    let f = spec_clamped_factor(expected, actual, fmax);
    if expected >= fmax * actual {
        assert(fmax * actual >= actual) by (nonlinear_arith)
            requires
                fmax >= 1,
                actual >= 0,
        ;
        assert(fmax * actual <= actual) by (nonlinear_arith)
            requires
                expected >= fmax * actual,
                expected == actual,
        ;
        assert(fmax == 1) by (nonlinear_arith)
            requires
                fmax * actual == actual,
                actual >= 1,
                fmax >= 1,
        ;
    } else if fmax * expected <= actual {
        assert(fmax * expected >= expected) by (nonlinear_arith)
            requires
                fmax >= 1,
                expected >= 0,
        ;
    }
}

/// The `u64` read big-endian from the low eight bytes of a target.
pub open spec fn spec_low8_be(t: Seq<u8>) -> u64 {
    spec_u64_of_be_bytes(t[24], t[25], t[26], t[27], t[28], t[29], t[30], t[31])
}

/// A target value rescaled by `den / num`, saturating at the largest
/// machine word.
pub open spec fn spec_scaled_value(t: u64, f: Ratio) -> u64 {
    let v = (t as int * f.den as int) / (f.num as int);
    if v > u64::MAX {
        u64::MAX
    } else {
        v as u64
    }
}

/// A 32-byte target whose low eight bytes hold `v` big-endian and whose
/// rest is zero.
pub open spec fn spec_value_target(v: u64) -> Seq<u8> {
    Seq::new(
        32,
        |i: int|
            if i < 24 {
                0u8
            } else {
                crate::bytesutil::spec_u64_to_be_bytes(v)[i - 24]
            },
    )
}

/// The compact bits that a retarget by clamped factor `f` yields from
/// `current_bits`: the low eight target bytes are rescaled by `1 / f`
/// and re-encoded.
pub open spec fn spec_new_bits(current_bits: u32, f: Ratio) -> u32 {
    spec_target_to_bits(
        spec_value_target(spec_scaled_value(spec_low8_be(spec_bits_to_target(current_bits)), f)),
    )
}

/// The rescaled low-target value behind a retarget of `current_bits`.
pub open spec fn spec_retarget_scaled(current_bits: u32, f: Ratio) -> u64 {
    spec_scaled_value(spec_low8_be(spec_bits_to_target(current_bits)), f)
}

/// The product of two machine words fits the wide word.
proof fn lemma_u64_mul_fits(a: u64, b: u64)
    ensures
        a as int * b as int <= u128::MAX,
{
    assert(a as int * b as int <= 0xffffffffffffffffint * 0xffffffffffffffffint)
        by (nonlinear_arith)
        requires
            0 <= a <= 0xffffffffffffffffint,
            0 <= b <= 0xffffffffffffffffint,
    ;
}

/// Rescales a target value by `den / num`, saturating at the largest
/// machine word.
fn scale_value(t: u64, f: Ratio) -> (r: u64)
    requires
        f.num >= 1,
    ensures
        r == spec_scaled_value(t, f),
{
    proof {
        lemma_u64_mul_fits(t, f.den);
    }
    let prod: u128 = (t as u128) * (f.den as u128);
    let q: u128 = prod / (f.num as u128);
    if q > u64::MAX as u128 {
        u64::MAX
    } else {
        q as u64
    }
}

/// From any position at or before a non-zero byte, the scan sees at
/// least that byte.
proof fn lemma_size_from_lower(t: Seq<u8>, j: int, i: int)
    requires
        0 <= j <= i < 32,
        t[i] != 0u8,
    ensures
        spec_size_from(t, j) >= 32 - i,
    decreases i - j,
{
    if j < i && t[j] == 0u8 {
        lemma_size_from_lower(t, j + 1, i);
    }
}

/// A value target reads back with size 0 when the value is 0, and with
/// size at least 4 when the value needs four or more bytes.
proof fn lemma_value_target_size(v: u64)
    ensures
        v == 0 ==> spec_target_size(spec_value_target(v)) == 0,
        v >= 0x1000000 ==> spec_target_size(spec_value_target(v)) >= 4,
{
    let t = spec_value_target(v);
    if v == 0 {
        assert((0u64 >> 56u32) as u8 == 0 && (0u64 >> 48u32) as u8 == 0 && (0u64 >> 40u32) as u8
            == 0 && (0u64 >> 32u32) as u8 == 0 && (0u64 >> 24u32) as u8 == 0 && (0u64 >> 16u32)
            as u8 == 0 && (0u64 >> 8u32) as u8 == 0 && 0u64 as u8 == 0) by (bit_vector);
        assert(forall|i: int| 0 <= i < 32 ==> t[i] == 0u8);
        crate::block::lemma_size_from_range(t, 0, 32);
    }
    if v >= 0x1000000 {
        if t[24] != 0u8 {
            lemma_size_from_lower(t, 0, 24);
        } else if t[25] != 0u8 {
            lemma_size_from_lower(t, 0, 25);
        } else if t[26] != 0u8 {
            lemma_size_from_lower(t, 0, 26);
        } else if t[27] != 0u8 {
            lemma_size_from_lower(t, 0, 27);
        } else if t[28] != 0u8 {
            lemma_size_from_lower(t, 0, 28);
        } else {
            assert(t[24] == (v >> 56u32) as u8);
            assert(t[25] == (v >> 48u32) as u8);
            assert(t[26] == (v >> 40u32) as u8);
            assert(t[27] == (v >> 32u32) as u8);
            assert(t[28] == (v >> 24u32) as u8);
            assert(!((v >> 56u32) as u8 == 0 && (v >> 48u32) as u8 == 0 && (v >> 40u32) as u8 == 0
                && (v >> 32u32) as u8 == 0 && (v >> 24u32) as u8 == 0)) by (bit_vector)
                requires
                    v >= 0x1000000u64,
            ;
        }
    }
}

/// Rescales the target of `current_bits` by the reciprocal of the
/// clamped factor and re-encodes it. Exponents above 32 are rejected,
/// and so is a rescaled value below the four-byte compact range, whose
/// re-encoding would not read back as itself.
fn adjust_bits(current_bits: u32, factor: Ratio) -> (r: Result<u32, DifficultyError>)
    requires
        factor.num >= 1,
    ensures
        match r {
            Ok(nb) => current_bits >> 24u32 <= 32 && nb == spec_new_bits(current_bits, factor)
                && (spec_retarget_scaled(current_bits, factor) == 0 || spec_retarget_scaled(
                current_bits,
                factor,
            ) >= 0x1000000),
            Err(e) => match e {
                DifficultyError::BitsOutOfRange { bits, .. } => bits == current_bits
                    && current_bits >> 24u32 > 32,
                DifficultyError::TargetOverflow => current_bits >> 24u32 <= 32 && 0
                    < spec_retarget_scaled(current_bits, factor) < 0x1000000,
                _ => false,
            },
        },
{
    if (current_bits >> 24) > 32 {
        return Err(
            DifficultyError::BitsOutOfRange {
                bits: current_bits,
                min_bits: DifficultyAdjuster::minimum_difficulty(),
                max_bits: DifficultyAdjuster::maximum_difficulty(),
            },
        );
    }
    let current_target = bits_to_target(current_bits);
    let low = vstd::slice::slice_subrange(current_target.as_slice(), 24, 32);
    let t64 = u64_from_be_slice(low);
    proof {
        assert(low@[0] == current_target@[24]);
        assert(low@[1] == current_target@[25]);
        assert(low@[2] == current_target@[26]);
        assert(low@[3] == current_target@[27]);
        assert(low@[4] == current_target@[28]);
        assert(low@[5] == current_target@[29]);
        assert(low@[6] == current_target@[30]);
        assert(low@[7] == current_target@[31]);
        assert(t64 == spec_low8_be(spec_bits_to_target(current_bits)));
    }
    let scaled = scale_value(t64, factor);
    if scaled != 0 && scaled < 0x1000000 {
        return Err(DifficultyError::TargetOverflow);
    }
    let be = u64_to_be_byte_vec(scaled);
    let mut new_target: [u8; 32] = [0u8; 32];
    new_target[24] = be[0];
    new_target[25] = be[1];
    new_target[26] = be[2];
    new_target[27] = be[3];
    new_target[28] = be[4];
    new_target[29] = be[5];
    new_target[30] = be[6];
    new_target[31] = be[7];
    proof {
        assert(new_target@ =~= spec_value_target(scaled));
        lemma_value_target_size(scaled);
    }
    let nb = target_to_bits(&new_target);
    Ok(nb)
}

/// Every compact value a retarget emits reads back as itself: with a
/// rescaled target of zero or at least four significant bytes (the only
/// values `adjust_bits` lets through), re-encoding the emitted bits
/// yields them unchanged.
pub proof fn lemma_retarget_bits_round_trip(current_bits: u32, f: Ratio)
    requires
        spec_retarget_scaled(current_bits, f) == 0 || spec_retarget_scaled(current_bits, f)
            >= 0x1000000,
    ensures
        spec_target_to_bits(spec_bits_to_target(spec_new_bits(current_bits, f)))
            == spec_new_bits(current_bits, f),
{
    let v = spec_retarget_scaled(current_bits, f);
    let t = spec_value_target(v);
    lemma_value_target_size(v);
    if v == 0 {
        assert((0u64 >> 56u32) as u8 == 0 && (0u64 >> 48u32) as u8 == 0 && (0u64 >> 40u32) as u8
            == 0 && (0u64 >> 32u32) as u8 == 0 && (0u64 >> 24u32) as u8 == 0 && (0u64 >> 16u32)
            as u8 == 0 && (0u64 >> 8u32) as u8 == 0 && 0u64 as u8 == 0) by (bit_vector);
        assert(forall|i: int| 0 <= i < 32 ==> t[i] == 0u8);
        crate::block::lemma_size_from_range(t, 0, 32);
        assert(spec_new_bits(current_bits, f) == 0);
        crate::block::lemma_bits_round_trip(0);
    } else {
        let s = spec_target_size(t);
        assert(s >= 4);
        crate::block::lemma_size_first_nonzero(t, 0);
        let i = 32 - s;
        assert(t[i] != 0u8);
        assert(i >= 24);
        assert(s <= 8);
        let c0 = t[i] as u32;
        let c1 = t[i + 1] as u32;
        let c2 = t[i + 2] as u32;
        let su = s as u32;
        let nb = spec_target_to_bits(t);
        assert(nb == c0 | (c1 << 8u32) | (c2 << 16u32) | (su << 24u32));
        assert((c0 | (c1 << 8u32) | (c2 << 16u32) | (su << 24u32)) >> 24u32 == su && ((c0 | (c1
            << 8u32) | (c2 << 16u32) | (su << 24u32)) & 0xffu32) == c0) by (bit_vector)
            requires
                c0 < 256,
                c1 < 256,
                c2 < 256,
                4 <= su <= 8u32,
        ;
        assert(nb >> 24u32 == su);
        assert(nb & 0xffu32 == c0);
        assert(c0 != 0);
        crate::block::lemma_bits_round_trip(nb);
        assert(spec_new_bits(current_bits, f) == nb);
    }
}

/// Heights strictly consecutive and timestamps never decreasing.
pub open spec fn spec_sequence_ok(blocks: Seq<BlockV>) -> bool {
    forall|i: int|
        1 <= i < blocks.len() ==> (#[trigger] blocks[i]).header.height == blocks[i
            - 1].header.height + 1 && blocks[i].header.timestamp >= blocks[i - 1].header.timestamp
}

/// In an ordered window, no timestamp lies before the first.
proof fn lemma_sequence_ts_monotone(blocks: Seq<BlockV>, i: int)
    requires
        spec_sequence_ok(blocks),
        0 <= i < blocks.len(),
    ensures
        blocks[i].header.timestamp >= blocks[0].header.timestamp,
    decreases i,
{
    if i > 0 {
        lemma_sequence_ts_monotone(blocks, i - 1);
    }
}

impl DifficultyAdjuster {
    /// Checks that the window's heights are strictly consecutive and
    /// its timestamps never decrease.
    fn verify_block_sequence(&self, blocks: &Vec<Block>) -> (r: bool)
        ensures
            r == spec_sequence_ok(blocks@.map_values(|b: Block| b@)),
    {
        let ghost bv = blocks@.map_values(|b: Block| b@);
        let n = blocks.len();
        let mut i: usize = 1;
        if n == 0 {
            return true;
        }
        while i < n
            invariant
                n == blocks@.len(),
                bv == blocks@.map_values(|b: Block| b@),
                1 <= i <= n,
                forall|j: int|
                    1 <= j < i ==> (#[trigger] bv[j]).header.height == bv[j - 1].header.height + 1
                        && bv[j].header.timestamp >= bv[j - 1].header.timestamp,
            decreases n - i,
        {
            let prev_height = blocks[i - 1].header.height;
            let curr_height = blocks[i].header.height;
            if prev_height == u64::MAX || curr_height != prev_height + 1 {
                proof {
                    assert(bv[i as int].header.height != bv[i as int - 1].header.height + 1);
                }
                return false;
            }
            if blocks[i].header.timestamp < blocks[i - 1].header.timestamp {
                proof {
                    assert(bv[i as int].header.timestamp < bv[i as int - 1].header.timestamp);
                }
                return false;
            }
            i = i + 1;
        }
        true
    }

    /// Retargets over a window of `adjustment_interval` consecutive
    /// blocks mined under `current_bits`: the factor
    /// `expected / actual` is clamped to the bounded range; a factor of
    /// exactly one keeps the bits, and otherwise the target is rescaled
    /// by its reciprocal and re-encoded.
    pub fn calculate_next_difficulty(&self, recent_blocks: &Vec<Block>, current_bits: u32) -> (r:
        Result<DifficultyAdjustment, DifficultyError>)
        requires
            self.wf(),
        ensures
            ({
                let bv = recent_blocks@.map_values(|b: Block| b@);
                let expected = (self.target_block_time * (self.adjustment_interval - 1)) as u64;
                let actual = (bv.last().header.timestamp - bv.first().header.timestamp) as u64;
                let f = spec_clamped_factor(expected, actual, self.max_adjustment_factor);
                match r {
                    Ok(adj) => recent_blocks@.len() >= self.adjustment_interval
                        && spec_sequence_ok(bv) && adj == (DifficultyAdjustment {
                        current_bits,
                        new_bits: if f.is_one() {
                            current_bits
                        } else {
                            spec_new_bits(current_bits, f)
                        },
                        adjustment_factor: f,
                        actual_time_per_block: Ratio {
                            num: actual,
                            den: (self.adjustment_interval - 1) as u64,
                        },
                        needs_adjustment: (if f.is_one() {
                            current_bits
                        } else {
                            spec_new_bits(current_bits, f)
                        }) != current_bits,
                    }) && adj.adjustment_factor.num <= self.max_adjustment_factor
                        * adj.adjustment_factor.den && adj.adjustment_factor.den
                        <= self.max_adjustment_factor * adj.adjustment_factor.num && (actual
                        == expected ==> adj.new_bits == current_bits) && (!f.is_one()
                        ==> current_bits >> 24u32 <= 32 && !(0 < spec_retarget_scaled(
                        current_bits,
                        f,
                    ) < 0x1000000)),
                    Err(e) => match e {
                        DifficultyError::InsufficientBlocks { required, provided } => recent_blocks@.len()
                            < self.adjustment_interval && required
                            == self.adjustment_interval as usize && provided
                            == recent_blocks@.len(),
                        DifficultyError::InvalidBlockSequence => recent_blocks@.len()
                            >= self.adjustment_interval && !spec_sequence_ok(bv),
                        DifficultyError::BitsOutOfRange { bits, .. } => recent_blocks@.len()
                            >= self.adjustment_interval && spec_sequence_ok(bv) && !f.is_one()
                            && bits == current_bits && current_bits >> 24u32 > 32,
                        DifficultyError::TargetOverflow => recent_blocks@.len()
                            >= self.adjustment_interval && spec_sequence_ok(bv) && !f.is_one() && 0
                            < spec_retarget_scaled(current_bits, f) < 0x1000000,
                        _ => false,
                    },
                }
            }),
    {
        let ghost bv = recent_blocks@.map_values(|b: Block| b@);
        if (recent_blocks.len() as u64) < self.adjustment_interval {
            return Err(
                DifficultyError::InsufficientBlocks {
                    required: self.adjustment_interval as usize,
                    provided: recent_blocks.len(),
                },
            );
        }
        if !self.verify_block_sequence(recent_blocks) {
            return Err(DifficultyError::InvalidBlockSequence);
        }
        let n = recent_blocks.len();
        proof {
            lemma_sequence_ts_monotone(bv, n - 1);
            assert(bv.last() == bv[n - 1]);
            assert(bv.first() == bv[0]);
        }
        let first_ts = recent_blocks[0].header.timestamp;
        let last_ts = recent_blocks[n - 1].header.timestamp;
        let actual_time = last_ts - first_ts;
        let expected_time = self.target_block_time * (self.adjustment_interval - 1);
        let factor = self.clamp_factor(expected_time, actual_time);
        proof {
            assert(self.target_block_time * (self.adjustment_interval - 1) >= 1)
                by (nonlinear_arith)
                requires
                    self.target_block_time >= 1,
                    self.adjustment_interval >= 2,
            ;
        }
        let new_bits = if factor.num == factor.den {
            current_bits
        } else {
            proof {
                lemma_clamped_factor_bounds(
                    expected_time,
                    actual_time,
                    self.max_adjustment_factor,
                );
            }
            match adjust_bits(current_bits, factor) {
                Ok(nb) => nb,
                Err(e) => {
                    return Err(e);
                },
            }
        };
        proof {
            if actual_time == expected_time {
                lemma_clamped_factor_equal(
                    expected_time,
                    actual_time,
                    self.max_adjustment_factor,
                );
            }
            lemma_clamped_factor_bounds(expected_time, actual_time, self.max_adjustment_factor);
        }
        Ok(
            DifficultyAdjustment {
                current_bits,
                new_bits,
                adjustment_factor: factor,
                actual_time_per_block: Ratio {
                    num: actual_time,
                    den: self.adjustment_interval - 1,
                },
                needs_adjustment: new_bits != current_bits,
            },
        )
    }

    /// The clamped adjustment factor for a window that took
    /// `actual` seconds against `expected`.
    fn clamp_factor(&self, expected: u64, actual: u64) -> (r: Ratio)
        ensures
            r == spec_clamped_factor(expected, actual, self.max_adjustment_factor),
    {
        let fmax = self.max_adjustment_factor;
        proof {
            lemma_u64_mul_fits(fmax, actual);
            lemma_u64_mul_fits(fmax, expected);
        }
        if actual == 0 || (expected as u128) >= (fmax as u128) * (actual as u128) {
            Ratio::new(fmax, 1)
        } else if (fmax as u128) * (expected as u128) <= (actual as u128) {
            Ratio::new(1, fmax)
        } else {
            Ratio::new(expected, actual)
        }
    }

    /// Predicts the next adjustment from recent inter-block intervals:
    /// the factor `target_block_time / average` is clamped and applied
    /// as in a retarget.
    pub fn predict_next_adjustment(&self, recent_block_times: &Vec<u64>, current_bits: u32) -> (r:
        Result<DifficultyAdjustment, DifficultyError>)
        requires
            self.wf(),
            spec_sum_u64(recent_block_times@) <= u64::MAX,
            self.target_block_time * recent_block_times@.len() <= u64::MAX,
        ensures
            ({
                let total = spec_sum_u64(recent_block_times@) as u64;
                let goal = (self.target_block_time * recent_block_times@.len()) as u64;
                let f = spec_clamped_factor(goal, total, self.max_adjustment_factor);
                match r {
                    Ok(adj) => recent_block_times@.len() > 0 && adj == (DifficultyAdjustment {
                        current_bits,
                        new_bits: if f.is_one() {
                            current_bits
                        } else {
                            spec_new_bits(current_bits, f)
                        },
                        adjustment_factor: f,
                        actual_time_per_block: Ratio {
                            num: total,
                            den: recent_block_times@.len() as u64,
                        },
                        needs_adjustment: (if f.is_one() {
                            current_bits
                        } else {
                            spec_new_bits(current_bits, f)
                        }) != current_bits,
                    }),
                    Err(e) => match e {
                        DifficultyError::InsufficientData => recent_block_times@.len() == 0,
                        DifficultyError::BitsOutOfRange { bits, .. } => recent_block_times@.len()
                            > 0 && !f.is_one() && bits == current_bits && current_bits >> 24u32
                            > 32,
                        DifficultyError::TargetOverflow => recent_block_times@.len() > 0
                            && !f.is_one() && 0 < spec_retarget_scaled(current_bits, f)
                            < 0x1000000,
                        _ => false,
                    },
                }
            }),
    {
        if recent_block_times.len() == 0 {
            return Err(DifficultyError::InsufficientData);
        }
        let total = sum_u64(recent_block_times);
        proof {
            assert(self.target_block_time * recent_block_times@.len() >= 1) by (nonlinear_arith)
                requires
                    self.target_block_time >= 1,
                    recent_block_times@.len() >= 1,
            ;
        }
        let goal = self.target_block_time * (recent_block_times.len() as u64);
        let factor = self.clamp_factor(goal, total);
        proof {
            lemma_clamped_factor_bounds(goal, total, self.max_adjustment_factor);
        }
        let predicted_bits = if factor.num == factor.den {
            current_bits
        } else {
            match adjust_bits(current_bits, factor) {
                Ok(nb) => nb,
                Err(e) => {
                    return Err(e);
                },
            }
        };
        Ok(
            DifficultyAdjustment {
                current_bits,
                new_bits: predicted_bits,
                adjustment_factor: factor,
                actual_time_per_block: Ratio {
                    num: total,
                    den: recent_block_times.len() as u64,
                },
                needs_adjustment: predicted_bits != current_bits,
            },
        )
    }
}

/// The sum of a sequence of durations.
pub open spec fn spec_sum_u64(s: Seq<u64>) -> int
    decreases s.len(),
{
    if s.len() == 0 {
        0
    } else {
        spec_sum_u64(s.drop_last()) + s.last()
    }
}

/// Prefix sums never exceed the whole.
proof fn lemma_sum_u64_prefix(s: Seq<u64>, i: int)
    requires
        0 < i <= s.len(),
    ensures
        spec_sum_u64(s.take(i)) == spec_sum_u64(s.take(i - 1)) + s[i - 1],
        spec_sum_u64(s.take(i)) <= spec_sum_u64(s),
    decreases s.len() - i,
{
    assert(s.take(i).drop_last() =~= s.take(i - 1));
    assert(s.take(i).last() == s[i - 1]);
    if i < s.len() {
        lemma_sum_u64_prefix(s, i + 1);
    } else {
        assert(s.take(i) =~= s);
    }
}

/// Sums a vector of durations.
fn sum_u64(s: &Vec<u64>) -> (r: u64)
    requires
        spec_sum_u64(s@) <= u64::MAX,
    ensures
        r == spec_sum_u64(s@),
{
    let mut total: u64 = 0;
    let n = s.len();
    let mut i: usize = 0;
    while i < n
        invariant
            n == s@.len(),
            0 <= i <= n,
            spec_sum_u64(s@) <= u64::MAX,
            total == spec_sum_u64(s@.take(i as int)),
        decreases n - i,
    {
        proof {
            lemma_sum_u64_prefix(s@, i + 1);
        }
        total = total + s[i];
        i = i + 1;
    }
    proof {
        assert(s@.take(n as int) =~= s@);
    }
    total
}

impl DifficultyAdjustment {
    /// Whether the difficulty rose: smaller compact bits mean a lower
    /// target, so a harder chain.
    pub fn is_increase(&self) -> (r: bool)
        ensures
            r == (self.new_bits < self.current_bits),
    {
        self.new_bits < self.current_bits
    }

    /// Whether the difficulty fell.
    pub fn is_decrease(&self) -> (r: bool)
        ensures
            r == (self.new_bits > self.current_bits),
    {
        self.new_bits > self.current_bits
    }
}

} // verus!
