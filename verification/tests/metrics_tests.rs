use lib::constants::{
    BURN_RATE_BASE_NUM, BURN_RATE_MAX_NUM, SENTIMENT_SCALE, VELOCITY_TARGET_SCALED,
};
use lib::metrics::{
    compute_velocity, dynamic_burn_rate, velocity_in_target, EpochSnapshot, MetricsAccumulator,
    SentimentScalar,
};

fn make_snapshot(volume: u64, supply: u64, fees: u64, addresses: u64) -> EpochSnapshot {
    EpochSnapshot::new(0, 100, 50, volume, fees, 0, supply, addresses)
}

#[test]
fn test_velocity_zero_supply() {
    let snap = make_snapshot(1_000, 0, 10, 5);
    assert_eq!(compute_velocity(&snap), 0);
}

#[test]
fn test_velocity_at_target() {
    let snap = make_snapshot(5_000, 1_000, 50, 10);
    let v = compute_velocity(&snap);
    assert_eq!(v, VELOCITY_TARGET_SCALED);
    assert!(velocity_in_target(v));
}

#[test]
fn test_velocity_out_of_target() {
    let snap = make_snapshot(100, 1_000_000, 1, 2);
    let v = compute_velocity(&snap);
    assert!(!velocity_in_target(v));
}

#[test]
fn test_sentiment_positive() {
    let prev = make_snapshot(1_000, 10_000, 100, 50);
    let curr = make_snapshot(5_000, 10_000, 500, 100);
    let s = SentimentScalar::compute(&prev, &curr);
    assert!(s.is_positive(), "sentiment should be positive, got {}", s.value());
}

#[test]
fn test_dynamic_burn_rate_high_velocity_positive_sentiment() {
    let high_velocity = VELOCITY_TARGET_SCALED * 2;
    let positive = SentimentScalar(SENTIMENT_SCALE);
    let rate = dynamic_burn_rate(high_velocity, &positive);
    assert_eq!(rate, BURN_RATE_BASE_NUM, "high velocity + positive sentiment → base burn rate");
}

#[test]
fn test_dynamic_burn_rate_low_velocity_negative_sentiment() {
    let low_velocity = 0u64;
    let negative = SentimentScalar(0);
    let rate = dynamic_burn_rate(low_velocity, &negative);
    assert_eq!(rate, BURN_RATE_MAX_NUM, "low velocity + negative sentiment → max burn rate");
}

#[test]
fn test_accumulator_records_txs() {
    let mut acc = MetricsAccumulator::new(0);
    let alice = [1u8; 32];
    let bob = [2u8; 32];
    acc.record_tx(alice, bob, 1_000, 10, 1);
    acc.record_tx(alice, bob, 2_000, 20, 2);
    let snap = acc.finalise(100, 1_000_000);
    assert_eq!(snap.tx_count, 2);
    assert_eq!(snap.volume, 3_000);
    assert_eq!(snap.fees_collected, 30);
    assert_eq!(snap.tokens_burned, 3);
    assert_eq!(snap.active_addresses, 2);
}

#[test]
fn test_epoch_length() {
    let snap = EpochSnapshot::new(100, 200, 0, 0, 0, 0, 0, 0);
    assert_eq!(snap.epoch_length(), 100);
}

// ── Further cases ────────────────────────────────────────────────────────────

#[test]
fn sentiment_exact_value() {
    // address growth 200 (capped), fee ratio 10, velocity score 10
    let prev = make_snapshot(1_000, 10_000, 100, 50);
    let curr = make_snapshot(5_000, 10_000, 500, 100);
    assert_eq!(SentimentScalar::compute(&prev, &curr).value(), 86);
    // no previous addresses: neutral growth
    let fresh = make_snapshot(0, 0, 0, 0);
    let s = SentimentScalar::compute(&fresh, &make_snapshot(5_000, 1_000, 0, 7));
    // (100*40 + 0*30 + 100*30) / 100 = 70
    assert_eq!(s.value(), 70);
}

#[test]
fn velocity_band_edges() {
    // target 500, buffer 75
    assert!(velocity_in_target(425));
    assert!(velocity_in_target(575));
    assert!(!velocity_in_target(424));
    assert!(!velocity_in_target(576));
    let big = make_snapshot(u64::MAX, 1, 0, 0);
    assert_eq!(compute_velocity(&big), u64::MAX);
}

#[test]
fn burn_rate_intermediate() {
    // deficit 250 → 4, negativity 25 → 4, plus base 1
    assert_eq!(dynamic_burn_rate(250, &SentimentScalar(25)), 9);
    assert_eq!(dynamic_burn_rate(VELOCITY_TARGET_SCALED, &SentimentScalar(50)), 1);
}

#[test]
fn accumulator_counts_distinct_addresses_and_saturates() {
    let mut acc = MetricsAccumulator::new(10);
    acc.record_tx([1u8; 32], [1u8; 32], u64::MAX, 0, 0);
    acc.record_tx([1u8; 32], [3u8; 32], 5, 0, 0);
    let snap = acc.finalise(20, 7);
    assert_eq!(snap.active_addresses, 2);
    assert_eq!(snap.volume, u64::MAX);
    assert_eq!(snap.start_height, 10);
    assert_eq!(snap.epoch_length(), 10);
    assert_eq!(snap.circulating_supply, 7);
}
