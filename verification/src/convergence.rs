//! The deterministic economic simulation from which the genesis parameters
//! are derived: supply with halvings and burns, node growth, wealth
//! redistribution, Gini, velocity and difficulty, epoch after epoch, until
//! the convergence criteria hold for a window of consecutive epochs.
use vstd::prelude::*;
use vstd::arithmetic::power2::pow2;
use crate::gini::{ascending, sort_u64, sum_of, weighted_sum, weighted_u128};

verus! {

// ─── Constants ───────────────────────────────────────────────────────────────

/// Number of epochs to simulate per run.
pub const SIM_EPOCHS: u64 = 1_000;

/// Target block time in seconds.
pub const TARGET_BLOCK_TIME: u64 = 10;

/// Number of blocks per epoch (one day of blocks at the target block time).
pub const BLOCKS_PER_EPOCH: u64 = 86_400 / TARGET_BLOCK_TIME;

/// Number of consecutive stable epochs required for convergence.
pub const CONVERGENCE_WINDOW: u64 = 10;

/// Gini tolerance, in parts per million.
pub const GINI_TOLERANCE: i64 = 20_000;

/// Velocity tolerance, in parts per million.
pub const VELOCITY_TOLERANCE: i64 = 50_000;

/// Block time tolerance in seconds.
pub const BLOCK_TIME_TOLERANCE: u64 = 2;

/// Target Gini coefficient, in parts per million (0.35).
pub const TARGET_GINI: i64 = 350_000;

/// Target velocity, in parts per million (5.0).
pub const TARGET_VELOCITY: i64 = 5_000_000;

/// Base block reward in base units (50 SEER).
pub const BASE_REWARD: u64 = 50 * 100_000_000;

/// Halving interval in blocks.
pub const HALVING_INTERVAL: u64 = 12_614_400;

/// Burn rate numerator over 10 000 (1%).
pub const BURN_RATE_NUM: u64 = 100;

/// Initial circulating supply in base units (10^8 tokens of 10^8 units).
pub const INITIAL_SUPPLY: u64 = 100_000_000 * 100_000_000;

/// Default seed of the simulation.
pub const DEFAULT_SEED: u64 = 0x5EED_5EED_5EED_5EED;

// ─── Parameters and results ──────────────────────────────────────────────────

/// Parameters of one simulation run.
#[derive(Debug, Clone, Copy)]
pub struct SimParams {
    /// Initial circulating supply (base units).
    pub initial_supply: u64,
    /// Base block reward (base units).
    pub base_reward: u64,
    /// Halving interval in blocks.
    pub halving_interval: u64,
    /// Burn rate numerator (denominator 10 000).
    pub burn_rate_num: u64,
    /// Initial number of nodes.
    pub initial_nodes: u64,
    /// Node growth rate per epoch (per mille).
    pub node_growth_rate: u64,
    /// Initial difficulty bits.
    pub initial_difficulty: u32,
    /// Target Gini coefficient (parts per million).
    pub target_gini: i64,
    /// Target velocity (parts per million).
    pub target_velocity: i64,
    /// Target block time in seconds.
    pub target_block_time: u64,
    /// Number of epochs to simulate.
    pub max_epochs: u64,
    /// Number of blocks per epoch.
    pub blocks_per_epoch: u64,
    /// Seed of the pseudo-random generator.
    pub seed: u64,
}

/// The canonical genesis parameters.
pub open spec fn canonical_params() -> SimParams {
    SimParams {
        initial_supply: INITIAL_SUPPLY,
        base_reward: BASE_REWARD,
        halving_interval: HALVING_INTERVAL,
        burn_rate_num: BURN_RATE_NUM,
        initial_nodes: 10,
        node_growth_rate: 100,
        initial_difficulty: 16,
        target_gini: TARGET_GINI,
        target_velocity: TARGET_VELOCITY,
        target_block_time: TARGET_BLOCK_TIME,
        max_epochs: SIM_EPOCHS,
        blocks_per_epoch: BLOCKS_PER_EPOCH,
        seed: DEFAULT_SEED,
    }
}

impl Default for SimParams {
    fn default() -> (p: Self)
        ensures
            p == canonical_params(),
    {
        SimParams {
            initial_supply: INITIAL_SUPPLY,
            base_reward: BASE_REWARD,
            halving_interval: HALVING_INTERVAL,
            burn_rate_num: BURN_RATE_NUM,
            initial_nodes: 10,
            node_growth_rate: 100,
            initial_difficulty: 16,
            target_gini: TARGET_GINI,
            target_velocity: TARGET_VELOCITY,
            target_block_time: TARGET_BLOCK_TIME,
            max_epochs: SIM_EPOCHS,
            blocks_per_epoch: BLOCKS_PER_EPOCH,
            seed: DEFAULT_SEED,
        }
    }
}

/// The state of the simulation at the end of one epoch.
#[derive(Debug, Clone, Copy)]
pub struct EpochState {
    /// Epoch number (from 0).
    pub epoch: u64,
    /// Circulating supply at the end of the epoch.
    pub supply: u64,
    /// Tokens burned from the supply in this epoch.
    pub burned_this_epoch: u64,
    /// Gini coefficient (parts per million).
    pub gini: i64,
    /// Velocity (parts per million).
    pub velocity: i64,
    /// Average block time this epoch (seconds).
    pub avg_block_time: u64,
    /// Difficulty bits after this epoch's adjustment.
    pub difficulty: u32,
    /// Number of active nodes.
    pub node_count: u64,
    /// Block reward during the epoch.
    pub block_reward: u64,
    /// Whether all convergence criteria held this epoch.
    pub converged: bool,
}

/// Genesis parameters suggested by a converged run.
#[derive(Debug, Clone, Copy)]
pub struct GenesisParams {
    pub initial_supply: u64,
    pub initial_difficulty: u32,
    pub base_reward: u64,
    pub halving_interval: u64,
    pub burn_rate_num: u64,
    pub target_gini: i64,
    pub target_velocity: i64,
    pub target_block_time: u64,
}

/// The result of a full simulation run.
#[derive(Debug, Clone)]
pub struct SimResult {
    /// Per-epoch snapshots.
    pub epochs: Vec<EpochState>,
    /// Whether the simulation converged.
    pub converged: bool,
    /// The first epoch ending a window of `CONVERGENCE_WINDOW` stable epochs.
    pub convergence_epoch: Option<u64>,
    /// Supply at the end of the simulation.
    pub final_supply: u64,
    /// Tokens burned over the whole simulation (supply burns and fee burns).
    pub total_burned: u64,
    /// Suggested genesis parameters, when the run converged.
    pub genesis_params: Option<GenesisParams>,
}

// ─── Pseudo-random generator ─────────────────────────────────────────────────

/// One xorshift64 step.
pub open spec fn xorshift(x: u64) -> u64 {
    let a = x ^ (x << 13u64);
    let b = a ^ (a >> 7u64);
    b ^ (b << 17u64)
}

/// A xorshift64 generator.
#[derive(Debug)]
pub struct Prng {
    state: u64,
}

impl Prng {
    /// The current state.
    pub closed spec fn spec_state(&self) -> u64 {
        self.state
    }

    /// Creates a generator; the state is the seed with its lowest bit set.
    pub fn new(seed: u64) -> (r: Prng)
        ensures
            r.spec_state() == seed | 1,
    {
        Prng { state: seed | 1 }
    }

    /// Advances the state by one xorshift step and returns it.
    pub fn next(&mut self) -> (r: u64)
        ensures
            r == xorshift(old(self).spec_state()),
            final(self).spec_state() == r,
    {
        self.state = self.state ^ (self.state << 13u64);
        self.state = self.state ^ (self.state >> 7u64);
        self.state = self.state ^ (self.state << 17u64);
        self.state
    }

    /// A value in `[0, n)`: the next output modulo `n`; 0 without advancing
    /// when `n` is 0.
    pub fn next_mod(&mut self, n: u64) -> (r: u64)
        ensures
            n == 0 ==> r == 0 && final(self).spec_state() == old(self).spec_state(),
            n > 0 ==> r == xorshift(old(self).spec_state()) % n && final(self).spec_state()
                == xorshift(old(self).spec_state()),
    {
        if n == 0 {
            return 0;
        }
        self.next() % n
    }
}

// ─── Gini ────────────────────────────────────────────────────────────────────

/// The simulation's Gini coefficient in parts per million:
/// 2·10^6·Σ(i·x_i)/(n·Σx) − (n+1)·10^6/n, each quotient rounded down and
/// the difference floored at 0; 0 for no balances or a zero total.
pub open spec fn sim_gini_of(b: Seq<u64>) -> int {
    let n = b.len();
    let total = sum_of(b);
    if n == 0 || total == 0 {
        0
    } else {
        let term1 = (2 * weighted_sum(ascending(b)) * 1_000_000) as int / ((n * total) as int);
        let term2 = ((n + 1) * 1_000_000) as int / n as int;
        if term1 < term2 {
            0
        } else {
            term1 - term2
        }
    }
}

/// Computes the Gini coefficient of the balances, scaled by 10^6.
pub fn compute_gini_scaled(balances: &[u64]) -> (g: i64)
    requires
        2_000_000 * balances@.len() * sum_of(balances@) <= u128::MAX,
    ensures
        g == sim_gini_of(balances@),
        0 <= g <= 1_000_000,
{
    let n = balances.len();
    if n == 0 {
        return 0;
    }
    let sorted = sort_u64(balances);
    proof {
        crate::gini::lemma_ascending_facts(balances@);
        assert(sum_of(balances@) <= u128::MAX) by (nonlinear_arith)
            requires
                2_000_000 * balances@.len() * sum_of(balances@) <= u128::MAX,
                balances@.len() >= 1,
        ;
    }
    let mut sum: u128 = 0;
    let mut i: usize = 0;
    while i < sorted.len()
        invariant
            i <= sorted@.len(),
            sum == sum_of(sorted@.subrange(0, i as int)),
            sum_of(sorted@) <= u128::MAX,
            sorted@.len() == n,
        decreases sorted@.len() - i,
    {
        proof {
            crate::gini::lemma_sum_prefix(sorted@, i as int);
            crate::gini::lemma_sum_monotone(sorted@, i + 1);
        }
        sum = sum + sorted[i] as u128;
        i = i + 1;
    }
    assert(sorted@.subrange(0, i as int) =~= sorted@);
    if sum == 0 {
        return 0;
    }
    let n128 = n as u128;
    proof {
        assert(n128 * sum <= u128::MAX / 2_000_000) by (nonlinear_arith)
            requires
                2_000_000 * n * sum <= u128::MAX,
                n128 == n,
        ;
        crate::gini::lemma_weighted_bound(sorted@);
    }
    let weighted = weighted_u128(sorted.as_slice(), n128 * sum);
    proof {
        assert(2 * weighted * 1_000_000 <= 2_000_000 * (n128 * sum)) by (nonlinear_arith)
            requires
                weighted <= n128 * sum,
        ;
        assert(n128 * sum > 0) by (nonlinear_arith)
            requires
                n128 >= 1,
                sum >= 1,
        ;
    }
    let numerator = 2u128 * weighted * 1_000_000;
    let denominator = n128 * sum;
    let term1 = numerator / denominator;
    let term2 = (n128 + 1) * 1_000_000 / n128;
    proof {
        assert(term1 <= 2_000_000) by (nonlinear_arith)
            requires
                numerator <= 2_000_000 * denominator,
                term1 == numerator / denominator,
                denominator > 0,
        ;
        assert(term2 >= 1_000_000) by (nonlinear_arith)
            requires
                term2 == (n128 + 1) * 1_000_000 / n128 as int,
                n128 >= 1,
        ;
    }
    if term1 < term2 {
        0
    } else {
        (term1 - term2) as i64
    }
}

// ─── The simulation ──────────────────────────────────────────────────────────

/// `x` saturated to the range of `u64`.
pub open spec fn sat_u64(x: int) -> int {
    if x > u64::MAX {
        u64::MAX as int
    } else if x < 0 {
        0
    } else {
        x
    }
}

/// The block reward during epoch `e`.
pub open spec fn epoch_reward(p: SimParams, e: nat) -> int {
    let halvings = (e * p.blocks_per_epoch) / p.halving_interval as int;
    let h = if halvings > 63 {
        63
    } else {
        halvings
    };
    (p.base_reward as nat / pow2(h as nat)) as int
}

/// The tokens burned from the supply `s` in one epoch.
pub open spec fn epoch_burn(p: SimParams, s: int) -> int {
    sat_u64(s * p.burn_rate_num) / 10_000
}

/// The supply at the end of epoch `e`, which depends on the parameters
/// alone: each epoch mints the reward for every block (saturating) and
/// burns its share of the supply.
pub open spec fn supply_after(p: SimParams, e: nat) -> int
    decreases e,
{
    let prev = if e == 0 {
        p.initial_supply as int
    } else {
        supply_after(p, (e - 1) as nat)
    };
    let minted = sat_u64(epoch_reward(p, e) * p.blocks_per_epoch);
    sat_u64(sat_u64(prev + minted) - epoch_burn(p, prev))
}

/// An upper bound on the node count after `e` epochs: the count grows by at
/// most its growth rate, and by at least one node, per epoch.
pub open spec fn node_cap(p: SimParams, e: nat) -> int
    decreases e,
{
    if e == 0 {
        p.initial_nodes as int
    } else {
        let c = node_cap(p, (e - 1) as nat);
        let g = c * p.node_growth_rate / 1000;
        c + if g > 1 {
            g
        } else {
            1
        }
    }
}

/// The node count after the growth of one epoch, before churn.
pub open spec fn grown(p: SimParams, nodes: u64) -> int {
    let g = sat_u64(nodes * p.node_growth_rate) / 1000;
    if g > 1 {
        g
    } else {
        1
    }
}

/// The average block time for a difficulty and node count.
pub open spec fn block_time_of(difficulty: u32, nodes: u64) -> int {
    let d = if difficulty > 63 {
        63
    } else {
        difficulty
    };
    let hash_power = sat_u64(nodes * 1000);
    let t = pow2(d as nat) / (if hash_power > 1 {
        hash_power
    } else {
        1
    }) as nat;
    if t < 1 {
        1
    } else if t > 300 {
        300
    } else {
        t as int
    }
}

/// The simulated block reward halves over time: it never grows from one
/// epoch to a later one and never exceeds the base reward.
pub proof fn lemma_epoch_reward_non_increasing(p: SimParams, e1: nat, e2: nat)
    requires
        p.halving_interval > 0,
        e1 <= e2,
    ensures
        0 <= epoch_reward(p, e2) <= epoch_reward(p, e1) <= p.base_reward,
{
    let a = (e1 * p.blocks_per_epoch) / p.halving_interval as int;
    let b = (e2 * p.blocks_per_epoch) / p.halving_interval as int;
    assert(e1 * p.blocks_per_epoch <= e2 * p.blocks_per_epoch) by (nonlinear_arith)
        requires e1 <= e2;
    assert(e1 * p.blocks_per_epoch >= 0) by (nonlinear_arith);
    vstd::arithmetic::div_mod::lemma_div_is_ordered(
        e1 * p.blocks_per_epoch,
        e2 * p.blocks_per_epoch,
        p.halving_interval as int,
    );
    vstd::arithmetic::div_mod::lemma_div_pos_is_pos(e1 * p.blocks_per_epoch, p.halving_interval as int);
    let ha: nat = (if a > 63 { 63 } else { a }) as nat;
    let hb: nat = (if b > 63 { 63 } else { b }) as nat;
    vstd::arithmetic::power2::lemma_pow2_pos(ha);
    vstd::arithmetic::power2::lemma_pow2_pos(hb);
    if ha < hb {
        vstd::arithmetic::power2::lemma_pow2_strictly_increases(ha, hb);
    }
    vstd::arithmetic::div_mod::lemma_div_is_ordered_by_denominator(
        p.base_reward as int,
        pow2(ha) as int,
        pow2(hb) as int,
    );
    vstd::arithmetic::div_mod::lemma_div_is_ordered_by_denominator(p.base_reward as int, 1, pow2(ha) as int);
    vstd::arithmetic::div_mod::lemma_div_pos_is_pos(p.base_reward as int, pow2(hb) as int);
}

/// Blocks come slower at a higher difficulty and faster with more nodes; the
/// average block time always lies in `[1, 300]` seconds.
pub proof fn lemma_block_time_monotone(d1: u32, d2: u32, n1: u64, n2: u64)
    requires
        d1 <= d2,
        n1 <= n2,
    ensures
        1 <= block_time_of(d1, n1) <= 300,
        block_time_of(d1, n2) <= block_time_of(d1, n1),
        block_time_of(d1, n1) <= block_time_of(d2, n1),
{
    let c1: nat = (if d1 > 63 { 63 } else { d1 }) as nat;
    let c2: nat = (if d2 > 63 { 63 } else { d2 }) as nat;
    let hp1 = sat_u64(n1 * 1000);
    let hp2 = sat_u64(n2 * 1000);
    let q1: nat = (if hp1 > 1 { hp1 } else { 1 }) as nat;
    let q2: nat = (if hp2 > 1 { hp2 } else { 1 }) as nat;
    assert(n1 * 1000 <= n2 * 1000) by (nonlinear_arith) requires n1 <= n2;
    assert(q1 <= q2);
    vstd::arithmetic::power2::lemma_pow2_pos(c1);
    vstd::arithmetic::power2::lemma_pow2_pos(c2);
    vstd::arithmetic::div_mod::lemma_div_is_ordered_by_denominator(pow2(c1) as int, q1 as int, q2 as int);
    if c1 < c2 {
        vstd::arithmetic::power2::lemma_pow2_strictly_increases(c1, c2);
    }
    vstd::arithmetic::div_mod::lemma_div_is_ordered(pow2(c1) as int, pow2(c2) as int, q1 as int);
}

/// The difficulty after an epoch with the given average block time.
pub open spec fn adjusted_difficulty(p: SimParams, difficulty: u32, avg_block_time: u64) -> int {
    let low = if p.target_block_time >= BLOCK_TIME_TOLERANCE {
        p.target_block_time - BLOCK_TIME_TOLERANCE
    } else {
        0
    };
    if avg_block_time < low {
        if difficulty + 1 > 64 {
            64
        } else {
            difficulty + 1
        }
    } else if avg_block_time > p.target_block_time + BLOCK_TIME_TOLERANCE {
        if difficulty - 1 < 1 {
            1
        } else {
            difficulty - 1
        }
    } else {
        difficulty as int
    }
}

/// Difficulty feedback goes against the block time: blocks slower than the
/// target plus tolerance never raise the difficulty (and lower it when it is
/// above 1), blocks faster than the target minus tolerance never lower it (and
/// raise it when it is below the cap of 64), and a block time within the
/// tolerance keeps it. The result always lies in `[1, 64]` when the previous
/// difficulty did.
pub proof fn lemma_difficulty_feedback(p: SimParams, difficulty: u32, avg_block_time: u64)
    ensures
        avg_block_time > p.target_block_time + BLOCK_TIME_TOLERANCE && difficulty >= 1
            ==> adjusted_difficulty(p, difficulty, avg_block_time) <= difficulty,
        avg_block_time > p.target_block_time + BLOCK_TIME_TOLERANCE && difficulty > 1
            ==> adjusted_difficulty(p, difficulty, avg_block_time) < difficulty,
        avg_block_time + BLOCK_TIME_TOLERANCE < p.target_block_time && difficulty <= 64
            ==> adjusted_difficulty(p, difficulty, avg_block_time) >= difficulty,
        avg_block_time + BLOCK_TIME_TOLERANCE < p.target_block_time && difficulty < 64
            ==> adjusted_difficulty(p, difficulty, avg_block_time) > difficulty,
        p.target_block_time <= avg_block_time + BLOCK_TIME_TOLERANCE && avg_block_time
            <= p.target_block_time + BLOCK_TIME_TOLERANCE ==> adjusted_difficulty(
            p,
            difficulty,
            avg_block_time,
        ) == difficulty,
        1 <= difficulty <= 64 ==> 1 <= adjusted_difficulty(p, difficulty, avg_block_time) <= 64,
{
}

/// `|a - b|`.
pub open spec fn abs_diff(a: int, b: int) -> int {
    if a >= b {
        a - b
    } else {
        b - a
    }
}

/// The convergence criteria on one epoch's state.
pub open spec fn criteria_hold(p: SimParams, s: EpochState) -> bool {
    &&& abs_diff(s.gini as int, p.target_gini as int) <= GINI_TOLERANCE
    &&& abs_diff(s.velocity as int, p.target_velocity as int) <= VELOCITY_TOLERANCE
    &&& abs_diff(s.avg_block_time as int, p.target_block_time as int) <= BLOCK_TIME_TOLERANCE
}

/// The epochs `e - w + 1 ..= e` all met the criteria.
pub open spec fn stable_window(eps: Seq<EpochState>, e: int) -> bool {
    e + 1 >= CONVERGENCE_WINDOW && forall|j: int|
        e - CONVERGENCE_WINDOW < j <= e ==> (#[trigger] eps[j]).converged
}

/// The first epoch that ends a stable window, if any.
pub open spec fn first_stable(eps: Seq<EpochState>) -> Option<u64> {
    if exists|e: int| 0 <= e < eps.len() && stable_window(eps, e) {
        let e = choose|e: int|
            0 <= e < eps.len() && stable_window(eps, e) && forall|f: int|
                0 <= f < e ==> !#[trigger] stable_window(eps, f);
        Some(e as u64)
    } else {
        None
    }
}

/// The parameters keep every step of the simulation within its arithmetic.
pub open spec fn params_ok(p: SimParams) -> bool {
    &&& p.initial_nodes > 0
    &&& p.halving_interval > 0
    &&& p.blocks_per_epoch * 10 <= u64::MAX
    &&& p.max_epochs * p.blocks_per_epoch <= u64::MAX
    &&& p.initial_supply / p.initial_nodes + p.initial_supply / p.initial_nodes / 10 <= u64::MAX
    &&& p.target_block_time + BLOCK_TIME_TOLERANCE <= u64::MAX
    &&& node_cap(p, p.max_epochs as nat) <= u64::MAX
    &&& 2_000_000 * node_cap(p, p.max_epochs as nat) * node_cap(p, p.max_epochs as nat)
        * 0x1_0000_0000_0000_0000 <= u128::MAX
}

/// Epoch `e`'s state `s` follows from the parameters and from the node
/// count and difficulty the epoch started with.
pub open spec fn epoch_follows(
    p: SimParams,
    s: EpochState,
    e: int,
    prev_nodes: u64,
    prev_difficulty: u32,
) -> bool {
    let g = grown(p, prev_nodes);
    &&& s.epoch == e
    &&& s.block_reward == epoch_reward(p, e as nat)
    &&& s.supply == supply_after(p, e as nat)
    &&& s.burned_this_epoch == epoch_burn(
        p,
        if e == 0 {
            p.initial_supply as int
        } else {
            supply_after(p, (e - 1) as nat)
        },
    )
    &&& s.node_count >= 1
    &&& s.node_count <= prev_nodes + g
    &&& s.node_count >= prev_nodes + g - g / 2 || s.node_count == 1
    &&& 0 <= s.gini <= 1_000_000
    &&& s.avg_block_time == block_time_of(prev_difficulty, s.node_count)
    &&& s.difficulty == adjusted_difficulty(p, prev_difficulty, s.avg_block_time)
    &&& s.converged == criteria_hold(p, s)
}

/// Epoch `e` of `eps` follows from the one before it (or from the
/// parameters, for the first).
pub open spec fn epoch_ok(p: SimParams, eps: Seq<EpochState>, e: int) -> bool {
    epoch_follows(
        p,
        eps[e],
        e,
        if e == 0 {
            p.initial_nodes
        } else {
            eps[e - 1].node_count
        },
        if e == 0 {
            p.initial_difficulty
        } else {
            eps[e - 1].difficulty
        },
    )
}

/// What every run of the simulation with parameters `p` returns: one state
/// per epoch, in order, whose reward, supply and burn follow the schedule;
/// whose node count grows by the growth rate less at most half of it in
/// churn; whose block time follows from the difficulty and node count and
/// drives the next difficulty; whose convergence flag is the criteria; and
/// whose convergence epoch, flags and genesis parameters follow from them.
/// Every epoch's state, and the total burned, are those of the simulation
/// as a function of the parameters (`sim_epoch`, `sim_state`).
pub open spec fn run_outcome(p: SimParams, r: SimResult) -> bool {
    let eps = r.epochs@;
    &&& eps.len() == p.max_epochs
    &&& forall|e: int| 0 <= e < eps.len() ==> #[trigger] eps[e] == sim_epoch(p, e as nat)
    &&& r.total_burned == sim_state(p, p.max_epochs as nat).total_burned
    &&& forall|e: int| 0 <= e < eps.len() ==> #[trigger] epoch_ok(p, eps, e)
    &&& r.convergence_epoch == first_stable(eps)
    &&& r.converged == (r.convergence_epoch is Some)
    &&& r.final_supply == (if p.max_epochs == 0 {
        p.initial_supply as int
    } else {
        supply_after(p, (p.max_epochs - 1) as nat)
    })
    &&& r.genesis_params == if r.converged {
        Some(
            GenesisParams {
                initial_supply: p.initial_supply,
                initial_difficulty: eps.last().difficulty,
                base_reward: p.base_reward,
                halving_interval: p.halving_interval,
                burn_rate_num: p.burn_rate_num,
                target_gini: p.target_gini,
                target_velocity: p.target_velocity,
                target_block_time: p.target_block_time,
            },
        )
    } else {
        None
    }
}

/// In every run, each epoch's difficulty answers that epoch's block time:
/// slower than the target plus tolerance never raises it from the previous
/// epoch's, and faster than the target minus tolerance never lowers it (from
/// a difficulty of at most 64, the cap).
pub proof fn lemma_run_difficulty_feedback(p: SimParams, r: SimResult, e: int)
    requires
        run_outcome(p, r),
        1 <= e < r.epochs@.len(),
    ensures
        r.epochs@[e].avg_block_time > p.target_block_time + BLOCK_TIME_TOLERANCE
            && r.epochs@[e - 1].difficulty >= 1 ==> r.epochs@[e].difficulty <= r.epochs@[e - 1].difficulty,
        r.epochs@[e].avg_block_time + BLOCK_TIME_TOLERANCE < p.target_block_time
            && r.epochs@[e - 1].difficulty <= 64 ==> r.epochs@[e].difficulty >= r.epochs@[e - 1].difficulty,
{
    let eps = r.epochs@;
    assert(epoch_ok(p, eps, e));
    lemma_difficulty_feedback(p, eps[e - 1].difficulty, eps[e].avg_block_time);
}


// ─── Proof helpers ───────────────────────────────────────────────────────────

proof fn lemma_node_cap_monotone(p: SimParams, a: nat, b: nat)
    requires
        a <= b,
    ensures
        node_cap(p, a) <= node_cap(p, b),
    decreases b,
{
    if a < b {
        lemma_node_cap_monotone(p, a, (b - 1) as nat);
    }
}

proof fn lemma_grown_bound(p: SimParams, nodes: u64, e: nat)
    requires
        nodes <= node_cap(p, e),
    ensures
        nodes + grown(p, nodes) <= node_cap(p, e + 1),
{
    let c = node_cap(p, e);
    assert(node_cap(p, e + 1) == c + (if c * p.node_growth_rate / 1000 > 1 {
        c * p.node_growth_rate / 1000
    } else {
        1
    }));
    assert(nodes * p.node_growth_rate <= c * p.node_growth_rate) by (nonlinear_arith)
        requires
            nodes <= c,
            p.node_growth_rate >= 0,
    ;
    assert(sat_u64(nodes * p.node_growth_rate) / 1000 <= c * p.node_growth_rate / 1000) by {
        vstd::arithmetic::div_mod::lemma_div_is_ordered(
            sat_u64(nodes * p.node_growth_rate),
            c * p.node_growth_rate,
            1000,
        );
    }
}

proof fn lemma_sum_bound(s: Seq<u64>)
    ensures
        sum_of(s) <= s.len() * 0x1_0000_0000_0000_0000,
    decreases s.len(),
{
    if s.len() > 0 {
        lemma_sum_bound(s.drop_last());
    }
}

/// The number of consecutive converged epochs at the end of `eps`.
pub open spec fn trailing_converged(eps: Seq<EpochState>) -> nat
    decreases eps.len(),
{
    if eps.len() == 0 {
        0
    } else if eps.last().converged {
        trailing_converged(eps.drop_last()) + 1
    } else {
        0
    }
}

proof fn lemma_trailing(eps: Seq<EpochState>, k: nat)
    ensures
        trailing_converged(eps) >= k <==> (k <= eps.len() && forall|j: int|
            eps.len() - k <= j < eps.len() ==> (#[trigger] eps[j]).converged),
    decreases eps.len(),
{
    if eps.len() > 0 && k > 0 {
        lemma_trailing(eps.drop_last(), (k - 1) as nat);
        if eps.last().converged {
            if k <= eps.len() && forall|j: int|
                eps.len() - k <= j < eps.len() ==> (#[trigger] eps[j]).converged {
                assert forall|j: int|
                    eps.drop_last().len() - (k - 1) <= j < eps.drop_last().len() implies (
                    #[trigger] eps.drop_last()[j]).converged by {
                    assert(eps[j].converged);
                }
            }
            if trailing_converged(eps) >= k {
                assert forall|j: int| eps.len() - k <= j < eps.len() implies (
                #[trigger] eps[j]).converged by {
                    if j < eps.len() - 1 {
                        assert(eps.drop_last()[j] == eps[j]);
                    }
                }
            }
        } else {
            if k <= eps.len() {
                assert(!eps[eps.len() - 1].converged);
            }
        }
    }
}

proof fn lemma_window_prefix(eps: Seq<EpochState>, s: EpochState, e: int)
    requires
        0 <= e < eps.len(),
    ensures
        stable_window(eps.push(s), e) == stable_window(eps, e),
{
    let t = eps.push(s);
    if stable_window(t, e) {
        assert forall|j: int| e - CONVERGENCE_WINDOW < j <= e implies (#[trigger] eps[j]).converged by {
            assert(t[j] == eps[j]);
        }
    }
    if stable_window(eps, e) {
        assert forall|j: int| e - CONVERGENCE_WINDOW < j <= e implies (#[trigger] t[j]).converged by {
            assert(t[j] == eps[j]);
        }
    }
}

proof fn lemma_first_stable_step(eps: Seq<EpochState>, s: EpochState)
    ensures
        ({
            let t = eps.push(s);
            match first_stable(eps) {
                Some(e) => first_stable(t) == Some(e),
                None => first_stable(t) == if trailing_converged(t) >= CONVERGENCE_WINDOW {
                    Some(eps.len() as u64)
                } else {
                    None::<u64>
                },
            }
        }),
{
    let t = eps.push(s);
    assert forall|e: int| 0 <= e < eps.len() implies stable_window(t, e) == stable_window(eps, e) by {
        lemma_window_prefix(eps, s, e);
    }
    lemma_trailing(t, CONVERGENCE_WINDOW as nat);
    let n = eps.len() as int;
    assert(stable_window(t, n) <==> trailing_converged(t) >= CONVERGENCE_WINDOW) by {
        if stable_window(t, n) {
            assert forall|j: int| t.len() - CONVERGENCE_WINDOW <= j < t.len() implies (
            #[trigger] t[j]).converged by {
                assert(n - CONVERGENCE_WINDOW < j <= n);
            }
        }
        if trailing_converged(t) >= CONVERGENCE_WINDOW {
            assert forall|j: int| n - CONVERGENCE_WINDOW < j <= n implies (#[trigger] t[j]).converged by {
                assert(t.len() - CONVERGENCE_WINDOW <= j < t.len());
            }
        }
    }
    if exists|e: int| 0 <= e < eps.len() && stable_window(eps, e) {
        let e0 = choose|e: int|
            0 <= e < eps.len() && stable_window(eps, e) && forall|f: int|
                0 <= f < e ==> !#[trigger] stable_window(eps, f);
        lemma_min_exists(eps);
        assert(stable_window(t, e0));
        let c = choose|e: int|
            0 <= e < t.len() && stable_window(t, e) && forall|f: int|
                0 <= f < e ==> !#[trigger] stable_window(t, f);
        lemma_min_exists(t);
        if c < e0 {
            assert(stable_window(eps, c));
        }
        if e0 < c {
            assert(!stable_window(t, e0));
        }
        assert(c == e0);
    } else {
        if stable_window(t, n) {
            lemma_min_exists(t);
            let c = choose|e: int|
                0 <= e < t.len() && stable_window(t, e) && forall|f: int|
                    0 <= f < e ==> !#[trigger] stable_window(t, f);
            if c < n {
                assert(stable_window(eps, c));
            }
            assert(c == n);
        }
    }
}

/// When some epoch ends a stable window, a first one does.
proof fn lemma_min_exists(eps: Seq<EpochState>)
    requires
        exists|e: int| 0 <= e < eps.len() && stable_window(eps, e),
    ensures
        exists|e: int|
            0 <= e < eps.len() && stable_window(eps, e) && forall|f: int|
                0 <= f < e ==> !#[trigger] stable_window(eps, f),
{
    let w = choose|e: int| 0 <= e < eps.len() && stable_window(eps, e);
    lemma_min_below(eps, w);
}

proof fn lemma_min_below(eps: Seq<EpochState>, w: int)
    requires
        0 <= w < eps.len(),
        stable_window(eps, w),
    ensures
        exists|e: int|
            0 <= e < eps.len() && stable_window(eps, e) && forall|f: int|
                0 <= f < e ==> !#[trigger] stable_window(eps, f),
    decreases w,
{
    if exists|f: int| 0 <= f < w && stable_window(eps, f) {
        let f = choose|f: int| 0 <= f < w && stable_window(eps, f);
        lemma_min_below(eps, f);
    } else {
        assert(forall|f: int| 0 <= f < w ==> !#[trigger] stable_window(eps, f));
    }
}

// ─── The whole simulation as a function of its parameters ──────────────────

/// The state of a simulation between epochs.
pub struct SimState {
    /// Circulating supply.
    pub supply: u64,
    /// Number of nodes.
    pub node_count: u64,
    /// Difficulty bits.
    pub difficulty: u32,
    /// One balance per simulated account.
    pub balances: Seq<u64>,
    /// The generator state.
    pub rng: u64,
    /// Tokens burned so far.
    pub total_burned: u64,
}

/// The first `k` starting balances and the generator state after them:
/// each is the initial supply's per-node share plus a draw below a tenth of
/// it, from a generator seeded with the parameters' seed.
pub open spec fn initial_balances(p: SimParams, k: nat) -> (Seq<u64>, u64)
    decreases k,
{
    if k == 0 {
        (Seq::empty(), p.seed | 1)
    } else {
        let prev = initial_balances(p, (k - 1) as nat);
        let share = p.initial_supply / p.initial_nodes;
        let d = draw(prev.1, (share / 10 + 1) as u64);
        (prev.0.push((share + d.0) as u64), d.1)
    }
}

/// The state before the first epoch.
pub open spec fn initial_state(p: SimParams) -> SimState {
    let ib = initial_balances(p, p.initial_nodes as nat);
    SimState {
        supply: p.initial_supply,
        node_count: p.initial_nodes,
        difficulty: p.initial_difficulty,
        balances: ib.0,
        rng: ib.1,
        total_burned: 0,
    }
}

/// `b` with `n` more balances, each a draw below `bound`.
pub open spec fn fill_draws(b: Seq<u64>, state: u64, bound: u64, n: nat) -> (Seq<u64>, u64)
    decreases n,
{
    if n == 0 {
        (b, state)
    } else {
        let prev = fill_draws(b, state, bound, (n - 1) as nat);
        let d = draw(prev.1, bound);
        (prev.0.push(d.0), d.1)
    }
}

/// The balances topped up to one per node, each new one a draw below half
/// the supply per node (plus one), and the generator state after them.
pub open spec fn filled(b: Seq<u64>, state: u64, node_count: u64, supply: u64) -> (Seq<u64>, u64) {
    if b.len() < node_count as usize {
        fill_draws(
            b,
            state,
            (supply / node_count / 2 + 1) as u64,
            (node_count as usize - b.len()) as nat,
        )
    } else {
        (b, state)
    }
}

/// One epoch from state `st`: the supply mints the epoch's rewards and burns
/// its share; the node count grows and loses a drawn churn; balances are
/// topped up, miners rewarded and transfers made; then Gini, velocity,
/// block time, the next difficulty and the convergence flag follow.
pub open spec fn step_spec(p: SimParams, epoch: u64, st: SimState) -> (SimState, EpochState) {
    let reward = epoch_reward(p, epoch as nat) as u64;
    let minted = sat_u64(reward * p.blocks_per_epoch);
    let burned = epoch_burn(p, st.supply as int);
    let supply = sat_u64(sat_u64(st.supply + minted) - burned) as u64;
    let g = grown(p, st.node_count);
    let churn = draw(st.rng, (g / 2 + 1) as u64);
    let after_churn = sat_u64(st.node_count + g - churn.0);
    let nodes = (if after_churn > 1 {
        after_churn
    } else {
        1
    }) as u64;
    let f = filled(st.balances, churn.1, nodes, supply);
    let rounds = if p.blocks_per_epoch < nodes {
        p.blocks_per_epoch
    } else {
        nodes
    };
    let m = mine_rounds(f.0, f.1, nodes, reward, rounds as nat);
    let txd = draw(m.1, (p.blocks_per_epoch * 10) as u64);
    let burned_total = sat_u64(st.total_burned + burned) as u64;
    let t = if m.0.len() < 2 {
        (m.0, txd.1, burned_total)
    } else {
        transfer_rounds(m.0, txd.1, nodes, p.burn_rate_num, burned_total, txd.0 as nat)
    };
    let avg = block_time_of(st.difficulty, nodes) as u64;
    let diff = adjusted_difficulty(p, st.difficulty, avg) as u32;
    let s0 = EpochState {
        epoch,
        supply,
        burned_this_epoch: burned as u64,
        gini: sim_gini_of(t.0) as i64,
        velocity: epoch_velocity_of(txd.0, supply, nodes),
        avg_block_time: avg,
        difficulty: diff,
        node_count: nodes,
        block_reward: reward,
        converged: false,
    };
    (
        SimState {
            supply,
            node_count: nodes,
            difficulty: diff,
            balances: t.0,
            rng: t.1,
            total_burned: t.2,
        },
        EpochState { converged: criteria_hold(p, s0), ..s0 },
    )
}

/// The state after `e` epochs.
pub open spec fn sim_state(p: SimParams, e: nat) -> SimState
    decreases e,
{
    if e == 0 {
        initial_state(p)
    } else {
        step_spec(p, (e - 1) as u64, sim_state(p, (e - 1) as nat)).0
    }
}

/// What epoch `e` reports.
pub open spec fn sim_epoch(p: SimParams, e: nat) -> EpochState {
    step_spec(p, e as u64, sim_state(p, e)).1
}

// ─── One epoch's pieces ──────────────────────────────────────────────────────

/// `x * y`, saturating.
fn sat_mul(x: u64, y: u64) -> (r: u64)
    ensures
        r == sat_u64(x * y),
{
    match x.checked_mul(y) {
        Some(v) => v,
        None => u64::MAX,
    }
}

/// The average block time for a difficulty and node count.
fn block_time(difficulty: u32, node_count: u64) -> (t: u64)
    ensures
        t == block_time_of(difficulty, node_count),
{
    let hash_power = sat_mul(node_count, 1000);
    let d = if difficulty < 63 {
        difficulty
    } else {
        63
    };
    let target_hashes = 1u64 << d;
    proof {
        vstd::bits::lemma_u64_pow2_no_overflow(d as nat);
        vstd::bits::lemma_u64_shl_is_mul(1u64, d as u64);
        vstd::arithmetic::power2::lemma_pow2_pos(d as nat);
    }
    let divisor = if hash_power > 1 {
        hash_power
    } else {
        1
    };
    let t = target_hashes / divisor;
    if t < 1 {
        1
    } else if t > 300 {
        300
    } else {
        t
    }
}

/// Whether the convergence criteria hold for an epoch's values.
fn criteria(p: &SimParams, gini: i64, velocity: i64, avg_block_time: u64) -> (r: bool)
    ensures
        r == (abs_diff(gini as int, p.target_gini as int) <= GINI_TOLERANCE && abs_diff(
            velocity as int,
            p.target_velocity as int,
        ) <= VELOCITY_TOLERANCE && abs_diff(avg_block_time as int, p.target_block_time as int)
            <= BLOCK_TIME_TOLERANCE),
{
    let dg = gini as i128 - p.target_gini as i128;
    let gini_ok = (if dg < 0 {
        -dg
    } else {
        dg
    }) <= GINI_TOLERANCE as i128;
    let dv = velocity as i128 - p.target_velocity as i128;
    let vel_ok = (if dv < 0 {
        -dv
    } else {
        dv
    }) <= VELOCITY_TOLERANCE as i128;
    let dt = if avg_block_time >= p.target_block_time {
        avg_block_time - p.target_block_time
    } else {
        p.target_block_time - avg_block_time
    };
    let time_ok = dt <= BLOCK_TIME_TOLERANCE;
    gini_ok && vel_ok && time_ok
}

/// The velocity of an epoch, scaled by 10^6: the volume (transactions times
/// one percent of the supply per node, saturating) read as a signed 64-bit
/// number, times 10^6 (saturating), divided by the supply read as a signed
/// 64-bit number (rounding towards zero; `i64::MIN` where that overflows);
/// 0 for a zero supply.
pub open spec fn epoch_velocity_of(tx_count: u64, supply: u64, node_count: u64) -> i64 {
    if supply == 0 {
        0
    } else {
        let per_node = supply / (if node_count > 1 {
            node_count
        } else {
            1
        }) / 100;
        let vol = sat_u64(tx_count * per_node) as i64;
        let scaled: i64 = match vol.checked_mul(1_000_000) {
            Some(x) => x,
            None => if vol > 0 {
                i64::MAX
            } else {
                i64::MIN
            },
        };
        match scaled.checked_div(supply as i64) {
            Some(x) => x,
            None => i64::MIN,
        }
    }
}

/// Computes the velocity of an epoch.
fn epoch_velocity(tx_count: u64, supply: u64, node_count: u64) -> (v: i64)
    ensures
        v == epoch_velocity_of(tx_count, supply, node_count),
{
    let per_node = supply / (if node_count > 1 {
        node_count
    } else {
        1
    }) / 100;
    let volume = sat_mul(tx_count, per_node);
    if supply == 0 {
        return 0;
    }
    let vol = #[verifier::truncate] (volume as i64);
    let scaled: i64 = match vol.checked_mul(1_000_000) {
        Some(x) => x,
        None => if vol > 0 {
            i64::MAX
        } else {
            i64::MIN
        },
    };
    let divisor = #[verifier::truncate] (supply as i64);
    match scaled.checked_div(divisor) {
        Some(x) => x,
        None => i64::MIN,
    }
}

/// Appends random balances until there is one per node.
fn fill_balances(balances: &mut Vec<u64>, node_count: u64, supply: u64, rng: &mut Prng)
    requires
        node_count >= 1,
    ensures
        final(balances)@.len() == if old(balances)@.len() < node_count as usize {
            node_count as usize as int
        } else {
            old(balances)@.len() as int
        },
        (final(balances)@, final(rng).spec_state()) == filled(
            old(balances)@,
            old(rng).spec_state(),
            node_count,
            supply,
        ),
{
    let ghost bound = (supply / node_count / 2 + 1) as u64;
    while balances.len() < node_count as usize
        invariant
            node_count >= 1,
            bound == (supply / node_count / 2 + 1) as u64,
            old(balances)@.len() <= balances@.len(),
            old(balances)@.len() < node_count as usize ==> balances@.len() <= node_count as usize,
            old(balances)@.len() >= node_count as usize ==> balances@.len() == old(balances)@.len(),
            (balances@, rng.spec_state()) == fill_draws(
                old(balances)@,
                old(rng).spec_state(),
                bound,
                (balances@.len() - old(balances)@.len()) as nat,
            ),
        decreases node_count as usize - balances@.len(),
    {
        let new_bal = rng.next_mod(supply / node_count / 2 + 1);
        balances.push(new_bal);
    }
}

/// A draw of a value below `n` from generator state `state`: the value and
/// the state after it (`next_mod`).
pub open spec fn draw(state: u64, n: u64) -> (u64, u64) {
    if n == 0 {
        (0, state)
    } else {
        (xorshift(state) % n, xorshift(state))
    }
}

/// The balances and generator state after `n` mining rounds: each round draws
/// a miner index below `node_count` and, where a balance has that index,
/// credits it `reward` (saturating).
pub open spec fn mine_rounds(b: Seq<u64>, state: u64, node_count: u64, reward: u64, n: nat) -> (Seq<u64>, u64)
    decreases n,
{
    if n == 0 {
        (b, state)
    } else {
        let prev = mine_rounds(b, state, node_count, reward, (n - 1) as nat);
        let d = draw(prev.1, node_count);
        let idx = d.0 as usize as int;
        if idx < prev.0.len() {
            (prev.0.update(idx, sat_u64(prev.0[idx] + reward) as u64), d.1)
        } else {
            (prev.0, d.1)
        }
    }
}

/// Credits the block reward to randomly chosen miners, once for each of
/// `min(blocks_per_epoch, node_count)` rounds.
fn mine_rewards(balances: &mut Vec<u64>, p: &SimParams, node_count: u64, reward: u64, rng: &mut Prng)
    ensures
        final(balances)@.len() == old(balances)@.len(),
        (final(balances)@, final(rng).spec_state()) == mine_rounds(
            old(balances)@,
            old(rng).spec_state(),
            node_count,
            reward,
            (if p.blocks_per_epoch < node_count {
                p.blocks_per_epoch
            } else {
                node_count
            }) as nat,
        ),
{
    let rounds = if p.blocks_per_epoch < node_count {
        p.blocks_per_epoch
    } else {
        node_count
    };
    let mut k: u64 = 0;
    while k < rounds
        invariant
            balances@.len() == old(balances)@.len(),
            k <= rounds,
            (balances@, rng.spec_state()) == mine_rounds(
                old(balances)@,
                old(rng).spec_state(),
                node_count,
                reward,
                k as nat,
            ),
        decreases rounds - k,
    {
        let miner_idx = rng.next_mod(node_count) as usize;
        if miner_idx < balances.len() {
            let b = balances[miner_idx].saturating_add(reward);
            balances.set(miner_idx, b);
        }
        k = k + 1;
    }
}

/// One transfer: a sender and a receiver index are drawn below `node_count`
/// (taken modulo the number of balances); between two different ones an
/// amount below a tenth of the sender's balance (at least 1) plus one
/// percent fee leaves the sender (saturating), the amount reaches the
/// receiver (saturating), and the burned share of the fee is added to the
/// burn total (saturating). Returns balances, generator state and burn total.
pub open spec fn one_transfer(b: Seq<u64>, state: u64, node_count: u64, burn_rate: u64, burned: u64) -> (
    Seq<u64>,
    u64,
    u64,
) {
    let len = b.len() as usize;
    let d1 = draw(state, node_count);
    let from = ((d1.0 as usize) % len) as int;
    let d2 = draw(d1.1, node_count);
    let to = ((d2.0 as usize) % len) as int;
    if from == to {
        (b, d2.1, burned)
    } else {
        let fb = b[from];
        let d3 = draw(d2.1, ((if fb > 1 {
            fb
        } else {
            1
        }) / 10 + 1) as u64);
        let amount = d3.0;
        let fee = amount / 100;
        let burn = sat_u64(fee * burn_rate) / 10_000;
        let b1 = b.update(from, sat_u64(fb - (amount + fee)) as u64);
        let b2 = b1.update(to, sat_u64(b1[to] + amount) as u64);
        (b2, d3.1, sat_u64(burned + burn) as u64)
    }
}

/// The state after `n` transfers.
pub open spec fn transfer_rounds(b: Seq<u64>, state: u64, node_count: u64, burn_rate: u64, burned: u64, n: nat) -> (
    Seq<u64>,
    u64,
    u64,
)
    decreases n,
{
    if n == 0 {
        (b, state, burned)
    } else {
        let prev = transfer_rounds(b, state, node_count, burn_rate, burned, (n - 1) as nat);
        one_transfer(prev.0, prev.1, node_count, burn_rate, prev.2)
    }
}

/// Simulates transfers between nodes: draws a transaction count below ten
/// times the epoch's blocks, then, when there are at least two balances,
/// makes that many transfers. Returns the transaction count; the fee burns
/// are added to `total_burned`.
fn simulate_transfers(
    balances: &mut Vec<u64>,
    p: &SimParams,
    node_count: u64,
    rng: &mut Prng,
    total_burned: &mut u64,
) -> (tx_count: u64)
    requires
        p.blocks_per_epoch * 10 <= u64::MAX,
    ensures
        final(balances)@.len() == old(balances)@.len(),
        *final(total_burned) >= *old(total_burned),
        tx_count == draw(old(rng).spec_state(), (p.blocks_per_epoch * 10) as u64).0,
        (final(balances)@, final(rng).spec_state(), *final(total_burned)) == if old(balances)@.len()
            < 2 {
            (
                old(balances)@,
                draw(old(rng).spec_state(), (p.blocks_per_epoch * 10) as u64).1,
                *old(total_burned),
            )
        } else {
            transfer_rounds(
                old(balances)@,
                draw(old(rng).spec_state(), (p.blocks_per_epoch * 10) as u64).1,
                node_count,
                p.burn_rate_num,
                *old(total_burned),
                tx_count as nat,
            )
        },
{
    let tx_count = rng.next_mod(p.blocks_per_epoch * 10);
    if balances.len() < 2 {
        return tx_count;
    }
    let ghost start_state = rng.spec_state();
    let mut k: u64 = 0;
    while k < tx_count
        invariant
            balances@.len() == old(balances)@.len(),
            balances@.len() >= 2,
            *total_burned >= *old(total_burned),
            k <= tx_count,
            (balances@, rng.spec_state(), *total_burned) == transfer_rounds(
                old(balances)@,
                start_state,
                node_count,
                p.burn_rate_num,
                *old(total_burned),
                k as nat,
            ),
        decreases tx_count - k,
    {
        let len = balances.len();
        let from = (rng.next_mod(node_count) as usize) % len;
        let to = (rng.next_mod(node_count) as usize) % len;
        if from != to {
            let from_bal = balances[from];
            let amount = rng.next_mod((if from_bal > 1 {
                from_bal
            } else {
                1
            }) / 10 + 1);
            let fee = amount / 100;
            let burn = sat_mul(fee, p.burn_rate_num) / 10_000;
            balances.set(from, from_bal.saturating_sub(amount + fee));
            let to_bal = balances[to];
            balances.set(to, to_bal.saturating_add(amount));
            *total_burned = (*total_burned).saturating_add(burn);
        }
        k = k + 1;
    }
    tx_count
}

/// One epoch of the simulation: supply, nodes, balances, Gini, velocity
/// and difficulty move on, and the epoch's state is returned.
fn step_epoch(
    p: &SimParams,
    epoch: u64,
    supply: &mut u64,
    node_count: &mut u64,
    difficulty: &mut u32,
    balances: &mut Vec<u64>,
    rng: &mut Prng,
    total_burned: &mut u64,
) -> (s: EpochState)
    requires
        params_ok(*p),
        epoch < p.max_epochs,
        *old(supply) == if epoch == 0 {
            p.initial_supply as int
        } else {
            supply_after(*p, (epoch - 1) as nat)
        },
        1 <= *old(node_count) <= node_cap(*p, epoch as nat),
        old(balances)@.len() <= node_cap(*p, epoch as nat),
    ensures
        epoch_follows(*p, s, epoch as int, *old(node_count), *old(difficulty)),
        *final(supply) == s.supply,
        *final(node_count) == s.node_count,
        *final(difficulty) == s.difficulty,
        1 <= s.node_count <= node_cap(*p, (epoch + 1) as nat),
        final(balances)@.len() <= node_cap(*p, (epoch + 1) as nat),
        step_spec(
            *p,
            epoch,
            SimState {
                supply: *old(supply),
                node_count: *old(node_count),
                difficulty: *old(difficulty),
                balances: old(balances)@,
                rng: old(rng).spec_state(),
                total_burned: *old(total_burned),
            },
        ) == (
            SimState {
                supply: *final(supply),
                node_count: *final(node_count),
                difficulty: *final(difficulty),
                balances: final(balances)@,
                rng: final(rng).spec_state(),
                total_burned: *final(total_burned),
            },
            s,
        ),
{
    proof {
        assert(epoch * p.blocks_per_epoch <= p.max_epochs * p.blocks_per_epoch) by (nonlinear_arith)
            requires
                epoch < p.max_epochs,
        ;
    }
    let height_start = epoch * p.blocks_per_epoch;
    let halvings = height_start / p.halving_interval;
    let h = if halvings < 63 {
        halvings
    } else {
        63
    };
    let block_reward = p.base_reward >> h;
    proof {
        vstd::bits::lemma_u64_shr_is_div(p.base_reward, h);
    }
    let minted = sat_mul(block_reward, p.blocks_per_epoch);
    let burned_epoch = sat_mul(*supply, p.burn_rate_num) / 10_000;
    *supply = (*supply).saturating_add(minted).saturating_sub(burned_epoch);
    *total_burned = (*total_burned).saturating_add(burned_epoch);
    let growth_raw = sat_mul(*node_count, p.node_growth_rate) / 1000;
    let growth = if growth_raw > 1 {
        growth_raw
    } else {
        1
    };
    let churn = rng.next_mod(growth / 2 + 1);
    proof {
        lemma_grown_bound(*p, *node_count, epoch as nat);
        lemma_node_cap_monotone(*p, (epoch + 1) as nat, p.max_epochs as nat);
        lemma_node_cap_monotone(*p, epoch as nat, (epoch + 1) as nat);
    }
    let grown_count = (*node_count + growth).saturating_sub(churn);
    *node_count = if grown_count > 1 {
        grown_count
    } else {
        1
    };
    fill_balances(balances, *node_count, *supply, rng);
    mine_rewards(balances, p, *node_count, block_reward, rng);
    let tx_count = simulate_transfers(balances, p, *node_count, rng, total_burned);
    proof {
        let n = balances@.len();
        let cap = node_cap(*p, p.max_epochs as nat);
        lemma_sum_bound(balances@);
        assert(n <= cap);
        assert(2_000_000 * n * sum_of(balances@) <= u128::MAX) by (nonlinear_arith)
            requires
                n <= cap,
                sum_of(balances@) <= n * 0x1_0000_0000_0000_0000,
                2_000_000 * cap * cap * 0x1_0000_0000_0000_0000 <= u128::MAX,
        ;
    }
    let gini = compute_gini_scaled(balances.as_slice());
    let velocity = epoch_velocity(tx_count, *supply, *node_count);
    let avg_block_time = block_time(*difficulty, *node_count);
    *difficulty = adjust_difficulty(p, *difficulty, avg_block_time);
    let converged = criteria(p, gini, velocity, avg_block_time);
    EpochState {
        epoch,
        supply: *supply,
        burned_this_epoch: burned_epoch,
        gini,
        velocity,
        avg_block_time,
        difficulty: *difficulty,
        node_count: *node_count,
        block_reward,
        converged,
    }
}

// ─── The engine ──────────────────────────────────────────────────────────────

/// The simulation engine.
pub struct ConvergenceEngine {
    params: SimParams,
}

/// `p` with its burn rate replaced by `rate`.
pub open spec fn with_burn_rate(p: SimParams, rate: u64) -> SimParams {
    SimParams { burn_rate_num: rate, ..p }
}

impl ConvergenceEngine {
    /// The engine's parameters.
    pub closed spec fn spec_params(&self) -> SimParams {
        self.params
    }

    /// Creates an engine with the given parameters.
    pub fn new(params: SimParams) -> (e: ConvergenceEngine)
        ensures
            e.spec_params() == params,
    {
        ConvergenceEngine { params }
    }

    /// Creates an engine with the canonical genesis parameters.
    pub fn default() -> (e: ConvergenceEngine)
        ensures
            e.spec_params() == canonical_params(),
    {
        ConvergenceEngine::new(SimParams::default())
    }

    /// Runs the full simulation.
    pub fn run(&self) -> (r: SimResult)
        requires
            params_ok(self.spec_params()),
        ensures
            run_outcome(self.spec_params(), r),
    {
        let p = self.params;
        let mut rng = Prng::new(p.seed);
        let mut supply = p.initial_supply;
        let mut total_burned: u64 = 0;
        let mut difficulty = p.initial_difficulty;
        let mut node_count = p.initial_nodes;
        let mut epochs: Vec<EpochState> = Vec::new();
        let mut stable_streak: u64 = 0;
        let mut convergence_epoch: Option<u64> = None;
        let mut balances: Vec<u64> = Vec::new();
        let share = p.initial_supply / p.initial_nodes;
        let mut k: u64 = 0;
        while k < p.initial_nodes
            invariant
                k <= p.initial_nodes,
                balances@.len() == k,
                p == self.spec_params(),
                params_ok(p),
                share == p.initial_supply / p.initial_nodes,
                (balances@, rng.spec_state()) == initial_balances(p, k as nat),
            decreases p.initial_nodes - k,
        {
            let extra = rng.next_mod(share / 10 + 1);
            proof {
                assert(extra <= share / 10);
            }
            balances.push(share + extra);
            k = k + 1;
        }
        proof {
            lemma_node_cap_monotone(p, 0, p.max_epochs as nat);
        }
        let mut epoch: u64 = 0;
        while epoch < p.max_epochs
            invariant
                p == self.spec_params(),
                params_ok(p),
                epoch <= p.max_epochs,
                epochs@.len() == epoch,
                supply == if epoch == 0 {
                    p.initial_supply as int
                } else {
                    supply_after(p, (epoch - 1) as nat)
                },
                node_count == if epoch == 0 {
                    p.initial_nodes
                } else {
                    epochs@[epoch - 1].node_count
                },
                difficulty == if epoch == 0 {
                    p.initial_difficulty
                } else {
                    epochs@[epoch - 1].difficulty
                },
                1 <= node_count <= node_cap(p, epoch as nat),
                balances@.len() <= node_cap(p, epoch as nat),
                stable_streak == trailing_converged(epochs@),
                stable_streak <= epoch,
                convergence_epoch == first_stable(epochs@),
                forall|e: int| 0 <= e < epoch ==> #[trigger] epoch_ok(p, epochs@, e),
                forall|e: int| 0 <= e < epoch ==> #[trigger] epochs@[e] == sim_epoch(p, e as nat),
                (SimState {
                    supply,
                    node_count,
                    difficulty,
                    balances: balances@,
                    rng: rng.spec_state(),
                    total_burned,
                }) == sim_state(p, epoch as nat),
            decreases p.max_epochs - epoch,
        {
            let state = step_epoch(
                &p,
                epoch,
                &mut supply,
                &mut node_count,
                &mut difficulty,
                &mut balances,
                &mut rng,
                &mut total_burned,
            );
            let ghost old_eps = epochs@;
            proof {
                lemma_first_stable_step(old_eps, state);
            }
            epochs.push(state);
            if state.converged {
                stable_streak = stable_streak + 1;
            } else {
                stable_streak = 0;
            }
            proof {
                assert(epochs@.drop_last() =~= old_eps);
                assert(epochs@[epoch as int] == sim_epoch(p, epoch as nat));
                assert forall|e: int| 0 <= e < epoch + 1 implies #[trigger] epoch_ok(p, epochs@, e) by {
                    if e < epoch {
                        assert(epoch_ok(p, old_eps, e));
                        assert(epochs@[e] == old_eps[e]);
                        if e > 0 {
                            assert(epochs@[e - 1] == old_eps[e - 1]);
                        }
                    } else if e > 0 {
                        assert(epochs@[e - 1] == old_eps[e - 1]);
                    }
                }
            }
            if convergence_epoch.is_none() && stable_streak >= CONVERGENCE_WINDOW {
                convergence_epoch = Some(epoch);
            }
            epoch = epoch + 1;
        }
        let converged = convergence_epoch.is_some();
        let genesis_params = if converged {
            let last = epochs.len() - 1;
            Some(
                GenesisParams {
                    initial_supply: p.initial_supply,
                    initial_difficulty: epochs[last].difficulty,
                    base_reward: p.base_reward,
                    halving_interval: p.halving_interval,
                    burn_rate_num: p.burn_rate_num,
                    target_gini: p.target_gini,
                    target_velocity: p.target_velocity,
                    target_block_time: p.target_block_time,
                },
            )
        } else {
            None
        };
        SimResult {
            epochs,
            converged,
            convergence_epoch,
            final_supply: supply,
            total_burned,
            genesis_params,
        }
    }

    /// Runs the simulation once per burn rate, each with the engine's
    /// parameters but that burn rate, and pairs each rate with its result.
    pub fn sweep_burn_rates(&self, rates: &[u64]) -> (r: Vec<(u64, SimResult)>)
        requires
            params_ok(self.spec_params()),
        ensures
            r@.len() == rates@.len(),
            forall|i: int|
                0 <= i < rates@.len() ==> (#[trigger] r@[i]).0 == rates@[i] && run_outcome(
                    with_burn_rate(self.spec_params(), rates@[i]),
                    r@[i].1,
                ),
    {
        let mut out: Vec<(u64, SimResult)> = Vec::new();
        let mut i: usize = 0;
        while i < rates.len()
            invariant
                params_ok(self.spec_params()),
                i <= rates@.len(),
                out@.len() == i,
                forall|j: int|
                    0 <= j < i ==> (#[trigger] out@[j]).0 == rates@[j] && run_outcome(
                        with_burn_rate(self.spec_params(), rates@[j]),
                        out@[j].1,
                    ),
            decreases rates@.len() - i,
        {
            let rate = rates[i];
            let mut q = self.params;
            q.burn_rate_num = rate;
            let engine = ConvergenceEngine::new(q);
            proof {
                assert(q == with_burn_rate(self.spec_params(), rate));
                assert(forall|e: nat| node_cap(q, e) == node_cap(self.spec_params(), e)) by {
                    assert forall|e: nat| node_cap(q, e) == node_cap(self.spec_params(), e) by {
                        lemma_node_cap_rate_free(q, self.spec_params(), e);
                    }
                }
            }
            let result = engine.run();
            out.push((rate, result));
            i = i + 1;
        }
        out
    }
}

proof fn lemma_node_cap_rate_free(a: SimParams, b: SimParams, e: nat)
    requires
        a.initial_nodes == b.initial_nodes,
        a.node_growth_rate == b.node_growth_rate,
    ensures
        node_cap(a, e) == node_cap(b, e),
    decreases e,
{
    if e > 0 {
        lemma_node_cap_rate_free(a, b, (e - 1) as nat);
    }
}

/// The difficulty after an epoch with the given average block time.
fn adjust_difficulty(p: &SimParams, difficulty: u32, avg_block_time: u64) -> (d: u32)
    requires
        p.target_block_time + BLOCK_TIME_TOLERANCE <= u64::MAX,
    ensures
        d == adjusted_difficulty(*p, difficulty, avg_block_time),
{
    if avg_block_time < p.target_block_time.saturating_sub(BLOCK_TIME_TOLERANCE) {
        if difficulty >= 64 {
            64
        } else {
            difficulty + 1
        }
    } else if avg_block_time > p.target_block_time + BLOCK_TIME_TOLERANCE {
        if difficulty < 2 {
            1
        } else {
            difficulty - 1
        }
    } else {
        difficulty
    }
}

} // verus!
