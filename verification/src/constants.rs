//! The economic constants: supply, the block reward schedule with its
//! halvings, burn rates, and the health targets.
use vstd::prelude::*;
use vstd::arithmetic::power2::pow2;

verus! {

// ─── Supply parameters ───────────────────────────────────────────────────────

/// Initial token supply at genesis (100 million base units).
pub const INITIAL_SUPPLY: u64 = 100_000_000;

/// Long-term target maximum supply (1 billion base units).
pub const FINAL_SUPPLY_TARGET: u64 = 1_000_000_000;

/// Base units per token: 1 SEER = 10^8 base units.
pub const BASE_UNIT_PRECISION: u64 = 100_000_000;

/// Maximum supply that can ever exist.
pub const MAX_SUPPLY: u64 = FINAL_SUPPLY_TARGET;

// ─── Block reward schedule ───────────────────────────────────────────────────

/// Base block reward at genesis, in base units (50 SEER).
pub const BLOCK_REWARD_BASE: u64 = 50 * BASE_UNIT_PRECISION;

/// Number of blocks between reward halvings.
pub const HALVING_INTERVAL: u64 = 12_614_400;

/// Minimum block reward after all halvings (0.01 SEER).
pub const MIN_BLOCK_REWARD: u64 = BASE_UNIT_PRECISION / 100;

// ─── Burn & fee parameters ───────────────────────────────────────────────────

/// Base burn rate numerator over `RATE_DENOM` (1%).
pub const BURN_RATE_BASE_NUM: u64 = 1;

/// Denominator of the burn rates.
pub const RATE_DENOM: u64 = 100;

/// Maximum burn rate numerator (10%).
pub const BURN_RATE_MAX_NUM: u64 = 10;

/// Minimum transaction fee in base units (0.001 SEER).
pub const MIN_TX_FEE: u64 = BASE_UNIT_PRECISION / 1_000;

// ─── Economic health targets ─────────────────────────────────────────────────

/// Target Gini coefficient, scaled by `GINI_SCALE` (0.35).
pub const TARGET_GINI_SCALED: u64 = 35;

/// Scale of `TARGET_GINI_SCALED`.
pub const GINI_SCALE: u64 = 100;

/// Target token velocity, scaled by `VELOCITY_SCALE` (5.0).
pub const VELOCITY_TARGET_SCALED: u64 = 500;

/// Scale of velocities.
pub const VELOCITY_SCALE: u64 = 100;

/// Dead-band around the velocity target, scaled by `SENTIMENT_SCALE` (0.15).
pub const SENTIMENT_BUFFER_SCALED: u64 = 15;

/// Scale of sentiment values.
pub const SENTIMENT_SCALE: u64 = 100;

// ─── Timing constants ────────────────────────────────────────────────────────

/// Target block time in seconds.
pub const TARGET_BLOCK_TIME_SECS: u64 = 10;

/// Number of blocks per day at the target block time.
pub const BLOCKS_PER_DAY: u64 = 86_400 / TARGET_BLOCK_TIME_SECS;

/// Number of blocks per year (approximate).
pub const BLOCKS_PER_YEAR: u64 = BLOCKS_PER_DAY * 365;

// ─── Reward calculation ──────────────────────────────────────────────────────

/// The block reward at `height`: the base reward halved once per
/// `HALVING_INTERVAL` blocks, never below `MIN_BLOCK_REWARD`.
pub open spec fn reward_at(height: u64) -> u64 {
    let halvings = height / HALVING_INTERVAL;
    if halvings >= 64 {
        MIN_BLOCK_REWARD
    } else {
        let r = BLOCK_REWARD_BASE as nat / pow2(halvings as nat);
        if r < MIN_BLOCK_REWARD {
            MIN_BLOCK_REWARD
        } else {
            r as u64
        }
    }
}

/// Computes the block reward at a given block height.
pub fn block_reward_at(height: u64) -> (r: u64)
    ensures
        r == reward_at(height),
{
    let halvings = height / HALVING_INTERVAL;
    if halvings >= 64 {
        return MIN_BLOCK_REWARD;
    }
    let reward = BLOCK_REWARD_BASE >> halvings;
    proof {
        vstd::bits::lemma_u64_shr_is_div(BLOCK_REWARD_BASE, halvings);
    }
    if reward < MIN_BLOCK_REWARD {
        MIN_BLOCK_REWARD
    } else {
        reward
    }
}

/// The block reward never grows with height, and stays between the floor and
/// the base reward.
pub proof fn lemma_reward_non_increasing(h1: u64, h2: u64)
    requires
        h1 <= h2,
    ensures
        reward_at(h2) <= reward_at(h1),
        MIN_BLOCK_REWARD <= reward_at(h1) <= BLOCK_REWARD_BASE,
{
    let a = h1 / HALVING_INTERVAL;
    let b = h2 / HALVING_INTERVAL;
    assert(a <= b) by {
        vstd::arithmetic::div_mod::lemma_div_is_ordered(h1 as int, h2 as int, HALVING_INTERVAL as int);
    }
    vstd::arithmetic::power2::lemma_pow2_pos(a as nat);
    vstd::arithmetic::power2::lemma_pow2_pos(b as nat);
    if a < 64 {
        assert(BLOCK_REWARD_BASE as nat / pow2(a as nat) <= BLOCK_REWARD_BASE) by {
            vstd::arithmetic::div_mod::lemma_div_is_ordered_by_denominator(
                BLOCK_REWARD_BASE as int,
                1,
                pow2(a as nat) as int,
            );
            vstd::arithmetic::power2::lemma_pow2(0);
        }
        if b < 64 {
            if a < b {
                vstd::arithmetic::power2::lemma_pow2_strictly_increases(a as nat, b as nat);
            }
            vstd::arithmetic::div_mod::lemma_div_is_ordered_by_denominator(
                BLOCK_REWARD_BASE as int,
                pow2(a as nat) as int,
                pow2(b as nat) as int,
            );
        }
    }
}

/// Halving: one `HALVING_INTERVAL` later the block reward is half of what it
/// was (rounded down), but never below `MIN_BLOCK_REWARD`.
pub proof fn lemma_reward_halves(h: u64)
    requires
        h + HALVING_INTERVAL <= u64::MAX,
    ensures
        reward_at((h + HALVING_INTERVAL) as u64) == if reward_at(h) / 2 < MIN_BLOCK_REWARD {
            MIN_BLOCK_REWARD
        } else {
            reward_at(h) / 2
        },
{
    let k = h / HALVING_INTERVAL;
    let h2 = (h + HALVING_INTERVAL) as u64;
    assert(h2 / HALVING_INTERVAL == k + 1) by {
        vstd::arithmetic::div_mod::lemma_div_plus_one(h as int, HALVING_INTERVAL as int);
    }
    if k < 63 {
        vstd::arithmetic::power2::lemma_pow2_unfold((k + 1) as nat);
        vstd::arithmetic::power2::lemma_pow2_pos(k as nat);
        vstd::arithmetic::div_mod::lemma_div_denominator(
            BLOCK_REWARD_BASE as int,
            pow2(k as nat) as int,
            2,
        );
        assert(pow2((k + 1) as nat) == pow2(k as nat) * 2);
    } else if k == 63 {
        vstd::arithmetic::power2::lemma2_to64_rest();
        assert(BLOCK_REWARD_BASE as nat / pow2(63) == 0);
    }
}

/// The burn for a fee at the base rate: `fee / 100`, saturating the product.
pub open spec fn burn_of(fee: u64) -> u64 {
    (fee as int * BURN_RATE_BASE_NUM as int / RATE_DENOM as int) as u64
}

/// Computes the burn amount for a fee at the base burn rate.
pub fn burn_amount(fee: u64) -> (b: u64)
    ensures
        b == burn_of(fee),
        b <= fee,
{
    let product: u64 = match fee.checked_mul(BURN_RATE_BASE_NUM) {
        Some(p) => p,
        None => u64::MAX,
    };
    product / RATE_DENOM
}

/// The burn for a fee at the rate `rate_num / 100`, the rate capped at
/// `BURN_RATE_MAX_NUM` and the product saturating at `u64::MAX`.
pub open spec fn dynamic_burn_of(fee: u64, rate_num: u64) -> u64 {
    let clamped = if rate_num < BURN_RATE_MAX_NUM {
        rate_num
    } else {
        BURN_RATE_MAX_NUM
    };
    let product = if fee * clamped > u64::MAX {
        u64::MAX as int
    } else {
        fee * clamped
    };
    (product / RATE_DENOM as int) as u64
}

/// The dynamic burn takes `rate_num` percent of the fee, rounded down, with
/// the rate capped at `BURN_RATE_MAX_NUM`: it never exceeds a tenth of the
/// fee, grows with the fee and with the rate, and at the base rate equals the
/// base burn.
pub proof fn lemma_dynamic_burn_law(fee: u64, more_fee: u64, rate: u64, more_rate: u64)
    ensures
        dynamic_burn_of(fee, rate) <= fee / 10,
        fee <= more_fee ==> dynamic_burn_of(fee, rate) <= dynamic_burn_of(more_fee, rate),
        rate <= more_rate ==> dynamic_burn_of(fee, rate) <= dynamic_burn_of(fee, more_rate),
        rate <= BURN_RATE_MAX_NUM && fee * rate <= u64::MAX ==> dynamic_burn_of(fee, rate) == fee
            * rate / 100,
        rate >= BURN_RATE_MAX_NUM ==> dynamic_burn_of(fee, rate) == dynamic_burn_of(
            fee,
            BURN_RATE_MAX_NUM,
        ),
        dynamic_burn_of(fee, BURN_RATE_BASE_NUM) == burn_of(fee),
{
    let c: int = if rate < 10 { rate as int } else { 10 };
    let c2: int = if more_rate < 10 { more_rate as int } else { 10 };
    let sat = |x: int| if x > u64::MAX { u64::MAX as int } else { x };
    assert(fee * c <= fee * 10) by (nonlinear_arith) requires 0 <= c <= 10, fee >= 0;
    assert(fee * c >= 0) by (nonlinear_arith) requires c >= 0, fee >= 0;
    assert((fee * 10) / 100 == fee / 10) by (nonlinear_arith) requires fee >= 0;
    if fee * 10 <= u64::MAX {
        vstd::arithmetic::div_mod::lemma_div_is_ordered(fee * c, fee * 10, 100);
    } else {
        assert(fee >= 1844674407370955162) by (nonlinear_arith) requires fee * 10 > 18446744073709551615int;
    }
    if fee <= more_fee {
        assert(fee * c <= more_fee * c) by (nonlinear_arith) requires fee <= more_fee, c >= 0;
        vstd::arithmetic::div_mod::lemma_div_is_ordered(sat(fee * c), sat(more_fee * c), 100);
    }
    if rate <= more_rate {
        assert(c <= c2);
        assert(fee * c <= fee * c2) by (nonlinear_arith) requires c <= c2, fee >= 0;
        vstd::arithmetic::div_mod::lemma_div_is_ordered(sat(fee * c), sat(fee * c2), 100);
    }
}

/// Computes the burn amount for a fee at a dynamic burn rate.
pub fn dynamic_burn_amount(fee: u64, rate_num: u64) -> (b: u64)
    ensures
        b == dynamic_burn_of(fee, rate_num),
        b <= fee,
{
    let clamped = if rate_num < BURN_RATE_MAX_NUM {
        rate_num
    } else {
        BURN_RATE_MAX_NUM
    };
    let product: u64 = match fee.checked_mul(clamped) {
        Some(p) => p,
        None => u64::MAX,
    };
    proof {
        assert(fee * clamped <= fee * 10) by (nonlinear_arith)
            requires
                clamped <= 10,
        ;
    }
    product / RATE_DENOM
}

} // verus!
