use lib::constants::{GINI_SCALE, TARGET_GINI_SCALED};
use lib::gini::{
    gini_coefficient, reward_multiplier, sampled_gini, scale_reward, to_gini_scale, GINI_PRECISION,
    MAX_BOOST, MIN_MULTIPLIER, REWARD_MULTIPLIER_SCALE,
};

#[test]
fn gini_test_gini_perfect_equality() {
    let balances = vec![100u64; 10];
    let g = gini_coefficient(&balances);
    assert_eq!(g, 0, "perfect equality should give G = 0");
}

#[test]
fn test_gini_maximum_inequality() {
    let mut balances = vec![0u64; 9];
    balances.push(1_000_000);
    let g = gini_coefficient(&balances);
    assert!(g > 850_000, "G should be close to 0.9, got {g}");
}

#[test]
fn test_gini_empty_slice() {
    assert_eq!(gini_coefficient(&[]), 0);
}

#[test]
fn gini_test_gini_all_zero() {
    assert_eq!(gini_coefficient(&[0, 0, 0]), 0);
}

#[test]
fn test_gini_two_equal() {
    let g = gini_coefficient(&[50, 50]);
    assert_eq!(g, 0);
}

#[test]
fn test_gini_two_unequal() {
    let g = gini_coefficient(&[0, 100]);
    assert_eq!(g, GINI_PRECISION / 2);
}

#[test]
fn test_gini_in_range() {
    let balances: Vec<u64> = (1..=100).collect();
    let g = gini_coefficient(&balances);
    assert!(g > 0 && g < GINI_PRECISION, "G should be in (0, 1), got {g}");
}

#[test]
fn test_to_gini_scale() {
    let g = 350_000u64;
    assert_eq!(to_gini_scale(g), 35);
}

#[test]
fn test_reward_multiplier_no_adjustment_below_target() {
    let target_gini = TARGET_GINI_SCALED * GINI_PRECISION / GINI_SCALE;
    let m = reward_multiplier(1_000, 1_000, target_gini);
    assert_eq!(m, REWARD_MULTIPLIER_SCALE);
}

#[test]
fn test_reward_multiplier_small_account_gets_boost() {
    let high_gini = 800_000u64;
    let m = reward_multiplier(100, 10_000, high_gini);
    assert!(m > REWARD_MULTIPLIER_SCALE, "small account should get boost, got {m}");
}

#[test]
fn test_reward_multiplier_large_account_gets_penalty() {
    let high_gini = 800_000u64;
    let m = reward_multiplier(100_000, 1_000, high_gini);
    assert!(m < REWARD_MULTIPLIER_SCALE, "large account should get penalty, got {m}");
}

#[test]
fn test_scale_reward() {
    let base = 1_000u64;
    let multiplier = 1_500u64;
    let scaled = scale_reward(base, multiplier);
    assert_eq!(scaled, 1_500);
}

// ── Further cases ────────────────────────────────────────────────────────────

#[test]
fn gini_exact_values() {
    let mut balances = vec![0u64; 9];
    balances.push(1_000_000);
    assert_eq!(gini_coefficient(&balances), 900_000);
    let ramp: Vec<u64> = (1..=100).collect();
    assert_eq!(gini_coefficient(&ramp), 330_000);
}

#[test]
fn gini_ignores_order_and_equal_balances_give_zero() {
    assert_eq!(gini_coefficient(&[100, 0]), gini_coefficient(&[0, 100]));
    assert_eq!(gini_coefficient(&[3, 1, 2]), gini_coefficient(&[1, 2, 3]));
    assert_eq!(gini_coefficient(&[7, 7, 7, 7]), 0);
    assert_eq!(sampled_gini(&[0, 100]), 500_000);
}

#[test]
fn reward_multiplier_exact_values() {
    // excess ratio (800_000 - 350_000) * 1e6 / 650_000 = 692_307
    assert_eq!(reward_multiplier(100, 10_000, 800_000), 1_346);
    assert_eq!(reward_multiplier(100_000, 1_000, 800_000), 827);
    assert_eq!(reward_multiplier(1, 2, GINI_PRECISION), MAX_BOOST);
    assert_eq!(reward_multiplier(3, 2, GINI_PRECISION), MIN_MULTIPLIER);
    // a zero mean means no adjustment
    assert_eq!(reward_multiplier(3, 0, GINI_PRECISION), REWARD_MULTIPLIER_SCALE);
}

#[test]
fn scale_reward_saturates() {
    assert_eq!(scale_reward(u64::MAX, 2_000), u64::MAX / 1_000);
    assert_eq!(scale_reward(999, 1), 0);
    assert_eq!(to_gini_scale(GINI_PRECISION), GINI_SCALE);
}

#[test]
fn gini_scale_invariant_and_single_holder() {
    let b = vec![1u64, 2, 3, 10];
    let scaled: Vec<u64> = b.iter().map(|x| x * 7).collect();
    assert_eq!(gini_coefficient(&b), gini_coefficient(&scaled));
    // one holder among three: (3 - 1) / 3
    assert_eq!(gini_coefficient(&[0, 5, 0]), 666_666);
}
