use lib::constants::{
    block_reward_at, burn_amount, dynamic_burn_amount, BLOCKS_PER_DAY, BLOCK_REWARD_BASE,
    BURN_RATE_MAX_NUM, GINI_SCALE, HALVING_INTERVAL, INITIAL_SUPPLY, MAX_SUPPLY, MIN_BLOCK_REWARD,
    TARGET_GINI_SCALED,
};

#[test]
fn test_initial_supply_less_than_max() {
    assert!(INITIAL_SUPPLY < MAX_SUPPLY);
}

#[test]
fn test_block_reward_genesis() {
    assert_eq!(block_reward_at(0), BLOCK_REWARD_BASE);
}

#[test]
fn test_block_reward_first_halving() {
    assert_eq!(block_reward_at(HALVING_INTERVAL), BLOCK_REWARD_BASE / 2);
}

#[test]
fn test_block_reward_second_halving() {
    assert_eq!(block_reward_at(HALVING_INTERVAL * 2), BLOCK_REWARD_BASE / 4);
}

#[test]
fn test_block_reward_floor() {
    assert_eq!(block_reward_at(HALVING_INTERVAL * 64), MIN_BLOCK_REWARD);
}

#[test]
fn test_burn_amount_base_rate() {
    assert_eq!(burn_amount(10_000), 100);
}

#[test]
fn test_dynamic_burn_capped() {
    let fee = 1_000;
    assert_eq!(dynamic_burn_amount(fee, 50), dynamic_burn_amount(fee, BURN_RATE_MAX_NUM));
}

#[test]
fn test_blocks_per_day() {
    assert_eq!(BLOCKS_PER_DAY, 8_640);
}

#[test]
fn test_gini_scale_consistency() {
    assert!(TARGET_GINI_SCALED <= GINI_SCALE);
}

// ── Further cases ────────────────────────────────────────────────────────────

#[test]
fn reward_halves_then_floors() {
    assert_eq!(block_reward_at(HALVING_INTERVAL - 1), BLOCK_REWARD_BASE);
    assert_eq!(block_reward_at(HALVING_INTERVAL * 3), BLOCK_REWARD_BASE / 8);
    // 5_000_000_000 >> 9 = 9_765_625, >> 10 = 4_882_812 (still above the floor)
    assert_eq!(block_reward_at(HALVING_INTERVAL * 10), 4_882_812);
    assert_eq!(block_reward_at(u64::MAX), MIN_BLOCK_REWARD);
    let mut prev = block_reward_at(0);
    for k in 1..70u64 {
        let r = block_reward_at(HALVING_INTERVAL * k);
        assert!(r <= prev);
        assert!(r >= MIN_BLOCK_REWARD);
        prev = r;
    }
}

#[test]
fn burn_amounts_never_exceed_fee() {
    assert_eq!(burn_amount(99), 0);
    assert_eq!(burn_amount(0), 0);
    assert_eq!(dynamic_burn_amount(1_000, 5), 50);
    assert_eq!(dynamic_burn_amount(1_000, 10), 100);
    assert_eq!(dynamic_burn_amount(1_000, 0), 0);
    for fee in [0u64, 1, 7, 99, 1_000, u64::MAX] {
        assert!(burn_amount(fee) <= fee);
        assert!(dynamic_burn_amount(fee, 200) <= fee);
    }
}
