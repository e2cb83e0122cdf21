use lib::convergence::{
    compute_gini_scaled, ConvergenceEngine, Prng, SimParams, BASE_REWARD, BLOCKS_PER_EPOCH,
    BURN_RATE_NUM, HALVING_INTERVAL, INITIAL_SUPPLY, TARGET_BLOCK_TIME, TARGET_GINI,
    TARGET_VELOCITY,
};

#[test]
fn test_canonical_block_time_matches_genesis() {
    assert_eq!(TARGET_BLOCK_TIME, 10, "must match genesis.toml target_block_time");
}

#[test]
fn test_canonical_blocks_per_epoch() {
    assert_eq!(BLOCKS_PER_EPOCH, 8_640, "86400 / 10s block time");
}

#[test]
fn test_canonical_halving_interval_matches_constants_rs() {
    assert_eq!(HALVING_INTERVAL, 12_614_400);
}

#[test]
fn test_canonical_burn_rate_matches_genesis() {
    assert_eq!(BURN_RATE_NUM, 100);
}

#[test]
fn test_canonical_initial_supply_token_count() {
    let token_count = INITIAL_SUPPLY / 100_000_000;
    assert_eq!(token_count, 100_000_000);
}

#[test]
fn test_prng_deterministic() {
    let mut r1 = Prng::new(42);
    let mut r2 = Prng::new(42);
    for _ in 0..100 {
        assert_eq!(r1.next(), r2.next());
    }
}

#[test]
fn test_prng_different_seeds() {
    let mut r1 = Prng::new(1);
    let mut r2 = Prng::new(2);
    assert_ne!(r1.next(), r2.next());
}

#[test]
fn convergence_test_gini_perfect_equality() {
    let balances = vec![100u64; 100];
    let g = compute_gini_scaled(&balances);
    assert_eq!(g, 0, "equal balances should have Gini = 0");
}

#[test]
fn test_gini_empty() {
    assert_eq!(compute_gini_scaled(&[]), 0);
}

#[test]
fn convergence_test_gini_all_zero() {
    let balances = vec![0u64; 10];
    assert_eq!(compute_gini_scaled(&balances), 0);
}

#[test]
fn test_gini_range() {
    let balances: Vec<u64> = (1..=100).collect();
    let g = compute_gini_scaled(&balances);
    assert!(g >= 0, "Gini must be non-negative");
    assert!(g <= 1_000_000, "Gini must be ≤ 1.0");
}

fn fast_engine() -> ConvergenceEngine {
    ConvergenceEngine::new(SimParams {
        initial_supply: 100_000_000 * 100_000_000,
        base_reward: BASE_REWARD,
        halving_interval: HALVING_INTERVAL,
        burn_rate_num: BURN_RATE_NUM,
        initial_nodes: 10,
        node_growth_rate: 100,
        initial_difficulty: 16,
        target_gini: TARGET_GINI,
        target_velocity: TARGET_VELOCITY,
        target_block_time: TARGET_BLOCK_TIME,
        max_epochs: 5,
        blocks_per_epoch: 10,
        seed: 0x5EED_5EED_5EED_5EED,
    })
}

#[test]
fn test_simulation_deterministic() {
    let e1 = fast_engine();
    let e2 = fast_engine();
    let r1 = e1.run();
    let r2 = e2.run();
    assert_eq!(r1.final_supply, r2.final_supply);
    assert_eq!(r1.total_burned, r2.total_burned);
}

#[test]
fn test_supply_is_positive() {
    let engine = fast_engine();
    let result = engine.run();
    assert!(result.final_supply > 0, "supply should remain positive");
}

#[test]
fn test_node_count_grows() {
    let engine = fast_engine();
    let result = engine.run();
    let first = result.epochs.first().unwrap().node_count;
    let last = result.epochs.last().unwrap().node_count;
    assert!(last > first, "node count should grow (first={first}, last={last})");
}

// ── Further cases ────────────────────────────────────────────────────────────

#[test]
fn prng_is_xorshift64() {
    let mut r = Prng::new(1);
    // 1 ^ (1 << 13) = 0x2001; ^ (>> 7) = 0x2041; ^ (<< 17) = 0x4082_2041
    assert_eq!(r.next(), 0x4082_2041);
    let mut z = Prng::new(0);
    // the lowest bit of the seed is always set, so 0 and 1 start alike
    assert_eq!(z.next(), 0x4082_2041);
    let mut m = Prng::new(7);
    for _ in 0..50 {
        assert!(m.next_mod(13) < 13);
    }
}

#[test]
fn simulation_records_every_epoch() {
    let result = fast_engine().run();
    assert_eq!(result.epochs.len(), 5);
    for (i, e) in result.epochs.iter().enumerate() {
        assert_eq!(e.epoch, i as u64);
        assert!(e.gini >= 0 && e.gini <= 1_000_000);
    }
    assert_eq!(result.final_supply, result.epochs.last().unwrap().supply);
    // five epochs cannot contain a full stability window
    assert!(!result.converged);
    assert!(result.convergence_epoch.is_none());
    assert!(result.genesis_params.is_none());
}

#[test]
fn sweep_runs_once_per_rate() {
    let engine = fast_engine();
    let results = engine.sweep_burn_rates(&[50, 100, 200]);
    let rates: Vec<u64> = results.iter().map(|(r, _)| *r).collect();
    assert_eq!(rates, vec![50, 100, 200]);
    for (_, res) in &results {
        assert_eq!(res.epochs.len(), 5);
    }
}

#[test]
fn gini_scaled_matches_formula() {
    assert_eq!(compute_gini_scaled(&[0, 100]), 500_000);
    assert_eq!(compute_gini_scaled(&[100, 0]), 500_000);
}

#[test]
fn small_run_exact_values() {
    let e = ConvergenceEngine::new(SimParams {
        initial_supply: 10_000,
        base_reward: 1_000,
        halving_interval: 10,
        burn_rate_num: 100,
        initial_nodes: 1,
        node_growth_rate: 0,
        initial_difficulty: 16,
        target_gini: 350_000,
        target_velocity: 5_000_000,
        target_block_time: 10,
        max_epochs: 2,
        blocks_per_epoch: 10,
        seed: 42,
    });
    let r = e.run();
    assert_eq!(r.epochs.len(), 2);
    assert_eq!(r.epochs[0].block_reward, 1_000);
    assert_eq!(r.epochs[1].block_reward, 500);
    assert_eq!(r.epochs[0].burned_this_epoch, 100);
    assert_eq!(r.epochs[0].supply, 19_900);
    assert_eq!(r.epochs[1].burned_this_epoch, 199);
    assert_eq!(r.final_supply, 24_701);
    assert_eq!(r.total_burned, 299);
    assert_eq!(r.epochs[0].node_count, 2);
    assert_eq!(r.epochs[1].node_count, 3);
    assert!(!r.converged);
    assert!(r.convergence_epoch.is_none());
}
