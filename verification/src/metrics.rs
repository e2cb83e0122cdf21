//! Per-epoch network metrics: token velocity, a sentiment scalar built from
//! on-chain activity, the dynamic burn rate they drive, and an accumulator
//! that gathers per-transaction statistics into epoch snapshots.
use vstd::prelude::*;
use vstd::arithmetic::div_mod::lemma_div_is_ordered;
use crate::bytemap::ByteMap;
use crate::constants::{
    BURN_RATE_BASE_NUM,
    BURN_RATE_MAX_NUM,
    SENTIMENT_BUFFER_SCALED,
    SENTIMENT_SCALE,
    VELOCITY_SCALE,
    VELOCITY_TARGET_SCALED,
};

verus! {

/// `x` saturated to the range of `u64`.
pub open spec fn sat(x: int) -> int {
    if x > u64::MAX {
        u64::MAX as int
    } else if x < 0 {
        0
    } else {
        x
    }
}

/// A snapshot of on-chain activity for one epoch.
#[derive(Debug, Clone, Copy, Default)]
pub struct EpochSnapshot {
    /// Block height at the start of this epoch.
    pub start_height: u64,
    /// Block height at the end of this epoch.
    pub end_height: u64,
    /// Number of transactions processed.
    pub tx_count: u64,
    /// Token volume transferred, in base units.
    pub volume: u64,
    /// Fees collected, in base units.
    pub fees_collected: u64,
    /// Tokens burned, in base units.
    pub tokens_burned: u64,
    /// Circulating supply at the end of the epoch.
    pub circulating_supply: u64,
    /// Number of distinct active addresses.
    pub active_addresses: u64,
}

impl EpochSnapshot {
    /// Creates a snapshot from its fields.
    pub fn new(
        start_height: u64,
        end_height: u64,
        tx_count: u64,
        volume: u64,
        fees_collected: u64,
        tokens_burned: u64,
        circulating_supply: u64,
        active_addresses: u64,
    ) -> (s: EpochSnapshot)
        ensures
            s == (EpochSnapshot {
                start_height,
                end_height,
                tx_count,
                volume,
                fees_collected,
                tokens_burned,
                circulating_supply,
                active_addresses,
            }),
    {
        EpochSnapshot {
            start_height,
            end_height,
            tx_count,
            volume,
            fees_collected,
            tokens_burned,
            circulating_supply,
            active_addresses,
        }
    }

    /// The number of blocks in the epoch (zero if the end precedes the start).
    pub fn epoch_length(&self) -> (n: u64)
        ensures
            n == sat(self.end_height - self.start_height),
    {
        self.end_height.saturating_sub(self.start_height)
    }
}

/// Velocity scaled by 100: volume · 100 / supply (the product saturating),
/// or 0 for zero supply.
pub open spec fn velocity_of(s: EpochSnapshot) -> int {
    if s.circulating_supply == 0 {
        0
    } else {
        sat(s.volume * VELOCITY_SCALE) / s.circulating_supply as int
    }
}

/// Computes the token velocity of an epoch.
pub fn compute_velocity(snapshot: &EpochSnapshot) -> (v: u64)
    ensures
        v == velocity_of(*snapshot),
{
    if snapshot.circulating_supply == 0 {
        return 0;
    }
    let product: u64 = match snapshot.volume.checked_mul(VELOCITY_SCALE) {
        Some(p) => p,
        None => u64::MAX,
    };
    product / snapshot.circulating_supply
}

/// Velocity is volume over supply, scaled by 100 and rounded down: when the
/// scaled volume fits, `v * supply <= volume * 100 < (v + 1) * supply`. It
/// grows with volume, shrinks as supply grows, and is 0 for zero supply.
pub proof fn lemma_velocity_law(s: EpochSnapshot, more_volume: u64, more_supply: u64)
    ensures
        s.circulating_supply == 0 ==> velocity_of(s) == 0,
        s.circulating_supply > 0 && s.volume * VELOCITY_SCALE <= u64::MAX ==> {
            &&& velocity_of(s) * s.circulating_supply <= s.volume * VELOCITY_SCALE
            &&& s.volume * VELOCITY_SCALE < (velocity_of(s) + 1) * s.circulating_supply
        },
        s.volume <= more_volume ==> velocity_of(s) <= velocity_of(
            EpochSnapshot { volume: more_volume, ..s },
        ),
        0 < s.circulating_supply <= more_supply ==> velocity_of(
            EpochSnapshot { circulating_supply: more_supply, ..s },
        ) <= velocity_of(s),
{
    let c = s.circulating_supply as int;
    if c > 0 {
        let x = sat(s.volume * VELOCITY_SCALE);
        vstd::arithmetic::div_mod::lemma_fundamental_div_mod(x, c);
        vstd::arithmetic::div_mod::lemma_mod_bound(x, c);
        if s.volume * VELOCITY_SCALE <= u64::MAX {
            let q = x / c;
            let r = x % c;
            assert(velocity_of(s) == q);
            assert(x == c * q + r);
            assert(q * c <= x) by (nonlinear_arith) requires x == c * q + r, r >= 0;
            assert(x < (q + 1) * c) by (nonlinear_arith) requires x == c * q + r, r < c;
        }
        if s.volume <= more_volume {
            let y = sat(more_volume * VELOCITY_SCALE);
            assert(s.volume * VELOCITY_SCALE <= more_volume * VELOCITY_SCALE) by (nonlinear_arith)
                requires s.volume <= more_volume;
            lemma_div_is_ordered(x, y, c);
        }
        if c <= more_supply {
            vstd::arithmetic::div_mod::lemma_div_is_ordered_by_denominator(x, c, more_supply as int);
        }
    }
}

/// The band of velocities counted as on target: the target ± 15%.
pub open spec fn in_target_band(velocity: u64) -> bool {
    let buffer = VELOCITY_TARGET_SCALED * SENTIMENT_BUFFER_SCALED / SENTIMENT_SCALE as int;
    VELOCITY_TARGET_SCALED - buffer <= velocity <= VELOCITY_TARGET_SCALED + buffer
}

/// Returns `true` iff the velocity lies within the target band.
pub fn velocity_in_target(velocity: u64) -> (r: bool)
    ensures
        r == in_target_band(velocity),
{
    let buffer = VELOCITY_TARGET_SCALED * SENTIMENT_BUFFER_SCALED / SENTIMENT_SCALE;
    let low = VELOCITY_TARGET_SCALED.saturating_sub(buffer);
    let high = VELOCITY_TARGET_SCALED + buffer;
    velocity >= low && velocity <= high
}

/// A sentiment value in [0, 100]; above 50 is positive.
#[derive(Debug, Clone, Copy, PartialEq, Eq, Structural)]
pub struct SentimentScalar(pub u64);

/// Active-address growth ratio, scaled by 100 and capped at 2×; neutral
/// without previous data.
pub open spec fn addr_ratio_of(prev: EpochSnapshot, curr: EpochSnapshot) -> int {
    if prev.active_addresses == 0 {
        SENTIMENT_SCALE as int
    } else {
        let r = curr.active_addresses * SENTIMENT_SCALE / prev.active_addresses as int;
        if r > 2 * SENTIMENT_SCALE {
            2 * SENTIMENT_SCALE as int
        } else {
            r
        }
    }
}

/// Fee-to-volume ratio, scaled by 100 and capped at 100.
pub open spec fn fee_ratio_of(curr: EpochSnapshot) -> int {
    if curr.volume == 0 {
        0
    } else {
        let r = curr.fees_collected * SENTIMENT_SCALE / curr.volume as int;
        if r > SENTIMENT_SCALE {
            SENTIMENT_SCALE as int
        } else {
            r
        }
    }
}

/// Closeness of the velocity to its target, scaled to [0, 100].
pub open spec fn vel_score_of(curr: EpochSnapshot) -> int {
    let v = velocity_of(curr);
    let dev = if v >= VELOCITY_TARGET_SCALED {
        v - VELOCITY_TARGET_SCALED
    } else {
        VELOCITY_TARGET_SCALED - v
    };
    sat(SENTIMENT_SCALE - dev * SENTIMENT_SCALE / VELOCITY_TARGET_SCALED as int)
}

/// The sentiment of `curr` after `prev`: 40% address growth, 30% fee ratio,
/// 30% velocity score, capped at 100.
pub open spec fn sentiment_of(prev: EpochSnapshot, curr: EpochSnapshot) -> int {
    let raw = (addr_ratio_of(prev, curr) * 40 + fee_ratio_of(curr) * 30 + vel_score_of(curr) * 30)
        / 100;
    if raw > SENTIMENT_SCALE {
        SENTIMENT_SCALE as int
    } else {
        raw
    }
}

/// Sentiment lies in `[0, 100]` and rises with activity: more active
/// addresses in the current epoch, or more fees on the same volume, never
/// lower it. A velocity exactly on target scores full marks.
pub proof fn lemma_sentiment_law(prev: EpochSnapshot, curr: EpochSnapshot, more_addrs: u64, more_fees: u64)
    ensures
        0 <= sentiment_of(prev, curr) <= SENTIMENT_SCALE,
        curr.active_addresses <= more_addrs ==> sentiment_of(prev, curr) <= sentiment_of(
            prev,
            EpochSnapshot { active_addresses: more_addrs, ..curr },
        ),
        curr.fees_collected <= more_fees ==> sentiment_of(prev, curr) <= sentiment_of(
            prev,
            EpochSnapshot { fees_collected: more_fees, ..curr },
        ),
        velocity_of(curr) == VELOCITY_TARGET_SCALED ==> vel_score_of(curr) == SENTIMENT_SCALE,
{
    let c2 = EpochSnapshot { active_addresses: more_addrs, ..curr };
    let c3 = EpochSnapshot { fees_collected: more_fees, ..curr };
    let a1 = addr_ratio_of(prev, curr);
    let a2 = addr_ratio_of(prev, c2);
    let f1 = fee_ratio_of(curr);
    let f3 = fee_ratio_of(c3);
    let v = vel_score_of(curr);
    assert(0 <= v <= 100);
    assert(vel_score_of(c2) == v && vel_score_of(c3) == v);
    assert(fee_ratio_of(c2) == f1 && addr_ratio_of(prev, c3) == a1);
    if prev.active_addresses != 0 {
        let p = prev.active_addresses as int;
        assert(curr.active_addresses * 100 / p >= 0) by (nonlinear_arith) requires p > 0, curr.active_addresses >= 0;
        if curr.active_addresses <= more_addrs {
            assert(curr.active_addresses * 100 <= more_addrs * 100);
            lemma_div_is_ordered(curr.active_addresses * 100, more_addrs * 100, p);
        }
    }
    assert(0 <= a1 <= 200);
    if curr.volume != 0 {
        let vol = curr.volume as int;
        assert(curr.fees_collected * 100 / vol >= 0) by (nonlinear_arith) requires vol > 0, curr.fees_collected >= 0;
        if curr.fees_collected <= more_fees {
            assert(curr.fees_collected * 100 <= more_fees * 100);
            lemma_div_is_ordered(curr.fees_collected * 100, more_fees * 100, vol);
        }
    }
    assert(0 <= f1 <= 100);
    let raw1 = (a1 * 40 + f1 * 30 + v * 30) / 100;
    assert(raw1 >= 0);
    if curr.active_addresses <= more_addrs {
        assert(a1 <= a2);
        lemma_div_is_ordered(a1 * 40 + f1 * 30 + v * 30, a2 * 40 + f1 * 30 + v * 30, 100);
    }
    if curr.fees_collected <= more_fees {
        assert(f1 <= f3);
        lemma_div_is_ordered(a1 * 40 + f1 * 30 + v * 30, a1 * 40 + f3 * 30 + v * 30, 100);
    }
}

/// The sentiment arithmetic fits in 64 bits.
pub open spec fn sentiment_computable(prev: EpochSnapshot, curr: EpochSnapshot) -> bool {
    &&& prev.active_addresses != 0 ==> curr.active_addresses * SENTIMENT_SCALE <= u64::MAX
    &&& curr.volume != 0 ==> curr.fees_collected * SENTIMENT_SCALE <= u64::MAX
}

impl SentimentScalar {
    /// Computes the sentiment scalar from two consecutive epoch snapshots.
    pub fn compute(prev: &EpochSnapshot, curr: &EpochSnapshot) -> (s: SentimentScalar)
        requires
            sentiment_computable(*prev, *curr),
        ensures
            s.0 == sentiment_of(*prev, *curr),
    {
        let scale = SENTIMENT_SCALE;
        let addr_ratio = if prev.active_addresses == 0 {
            scale
        } else {
            let r = curr.active_addresses * scale / prev.active_addresses;
            if r > 2 * scale {
                2 * scale
            } else {
                r
            }
        };
        let fee_ratio = if curr.volume == 0 {
            0
        } else {
            let r = curr.fees_collected * scale / curr.volume;
            if r > scale {
                scale
            } else {
                r
            }
        };
        let velocity = compute_velocity(curr);
        let vel_deviation = if velocity >= VELOCITY_TARGET_SCALED {
            velocity - VELOCITY_TARGET_SCALED
        } else {
            VELOCITY_TARGET_SCALED - velocity
        };
        let dev_scaled: u64 = match vel_deviation.checked_mul(scale) {
            Some(p) => p / VELOCITY_TARGET_SCALED,
            None => u64::MAX,
        };
        proof {
            if vel_deviation * scale > u64::MAX {
                assert(vel_deviation * scale / VELOCITY_TARGET_SCALED as int >= scale);
            }
        }
        let vel_score = scale.saturating_sub(dev_scaled);
        let raw = (addr_ratio * 40 + fee_ratio * 30 + vel_score * 30) / 100;
        SentimentScalar(if raw > scale {
            scale
        } else {
            raw
        })
    }

    /// Returns `true` iff the sentiment is above the neutral midpoint.
    pub fn is_positive(&self) -> (r: bool)
        ensures
            r == (self.0 > SENTIMENT_SCALE / 2),
    {
        self.0 > SENTIMENT_SCALE / 2
    }

    /// Returns the raw scalar value.
    pub fn value(&self) -> (v: u64)
        ensures
            v == self.0,
    {
        self.0
    }
}

/// The burn-rate numerator for the next epoch: the base rate, plus up to
/// the rate range in proportion to how far velocity falls short of target,
/// plus up to the rate range in proportion to how negative sentiment is,
/// capped at `BURN_RATE_MAX_NUM`.
pub open spec fn burn_rate_of(velocity: u64, sentiment: u64) -> int {
    let range = BURN_RATE_MAX_NUM - BURN_RATE_BASE_NUM;
    let deficit = if velocity >= VELOCITY_TARGET_SCALED {
        0
    } else {
        VELOCITY_TARGET_SCALED - velocity
    };
    let vel_adj = deficit * range / VELOCITY_TARGET_SCALED as int;
    let half = SENTIMENT_SCALE / 2;
    let sent_adj = if sentiment > half {
        0
    } else {
        (half - sentiment) * range / half as int
    };
    let total = BURN_RATE_BASE_NUM + vel_adj + sent_adj;
    if total > BURN_RATE_MAX_NUM {
        BURN_RATE_MAX_NUM as int
    } else {
        total
    }
}

/// The burn rate answers a velocity shortfall whatever the sentiment: below
/// the velocity target it is at least the base rate plus the range scaled by
/// the shortfall (capped at the maximum), and with positive sentiment it is
/// exactly that. It never rises as velocity or sentiment rise, and always
/// lies between the base and the maximum.
pub proof fn lemma_burn_rate_direction(v1: u64, v2: u64, s1: u64, s2: u64)
    ensures
        v1 < VELOCITY_TARGET_SCALED ==> burn_rate_of(v1, s1) >= min_int(
            BURN_RATE_MAX_NUM as int,
            BURN_RATE_BASE_NUM + (VELOCITY_TARGET_SCALED - v1) * (BURN_RATE_MAX_NUM
                - BURN_RATE_BASE_NUM) / VELOCITY_TARGET_SCALED as int,
        ),
        s1 > SENTIMENT_SCALE / 2 && v1 < VELOCITY_TARGET_SCALED ==> burn_rate_of(v1, s1) == min_int(
            BURN_RATE_MAX_NUM as int,
            BURN_RATE_BASE_NUM + (VELOCITY_TARGET_SCALED - v1) * (BURN_RATE_MAX_NUM
                - BURN_RATE_BASE_NUM) / VELOCITY_TARGET_SCALED as int,
        ),
        s1 > SENTIMENT_SCALE / 2 && v1 >= VELOCITY_TARGET_SCALED ==> burn_rate_of(v1, s1)
            == BURN_RATE_BASE_NUM,
        v1 <= v2 ==> burn_rate_of(v1, s1) >= burn_rate_of(v2, s1),
        s1 <= s2 ==> burn_rate_of(v1, s1) >= burn_rate_of(v1, s2),
        BURN_RATE_BASE_NUM <= burn_rate_of(v1, s1) <= BURN_RATE_MAX_NUM,
{
    let range: int = 9;
    let d1: int = if v1 >= 500 { 0 } else { 500 - v1 };
    let d2: int = if v2 >= 500 { 0 } else { 500 - v2 };
    assert(d1 * range / 500 >= 0) by (nonlinear_arith) requires d1 >= 0, range == 9;
    assert(d2 * range / 500 >= 0) by (nonlinear_arith) requires d2 >= 0, range == 9;
    if v1 <= v2 {
        assert(d2 <= d1);
        lemma_div_is_ordered(d2 * range, d1 * range, 500);
    }
    let e1: int = if s1 > 50 { 0 } else { (50 - s1) * range / 50 };
    let e2: int = if s2 > 50 { 0 } else { (50 - s2) * range / 50 };
    if s1 <= 50 {
        assert(e1 >= 0) by (nonlinear_arith) requires s1 <= 50, e1 == (50 - s1) * range / 50, range == 9;
    }
    if s2 <= 50 {
        assert(e2 >= 0) by (nonlinear_arith) requires s2 <= 50, e2 == (50 - s2) * range / 50, range == 9;
    }
    if s1 <= s2 && s2 <= 50 {
        lemma_div_is_ordered((50 - s2) * range, (50 - s1) * range, 50);
    }
}

/// The smaller of two integers.
pub open spec fn min_int(a: int, b: int) -> int {
    if a <= b { a } else { b }
}

/// Computes the dynamic burn rate numerator for the next epoch.
pub fn dynamic_burn_rate(velocity: u64, sentiment: &SentimentScalar) -> (r: u64)
    ensures
        r == burn_rate_of(velocity, sentiment.0),
        BURN_RATE_BASE_NUM <= r <= BURN_RATE_MAX_NUM,
{
    let base = BURN_RATE_BASE_NUM;
    let vel_deficit = if velocity >= VELOCITY_TARGET_SCALED {
        0u64
    } else {
        VELOCITY_TARGET_SCALED - velocity
    };
    let range: u64 = BURN_RATE_MAX_NUM - base;
    assert(vel_deficit * range <= 4500) by (nonlinear_arith)
        requires
            vel_deficit <= 500,
            range == 9,
    ;
    let vel_adjustment = vel_deficit * range / VELOCITY_TARGET_SCALED;
    let sentiment_adjustment = if sentiment.is_positive() {
        0u64
    } else {
        let v = sentiment.value();
        let capped = if v < SENTIMENT_SCALE / 2 {
            v
        } else {
            SENTIMENT_SCALE / 2
        };
        let negativity = SENTIMENT_SCALE / 2 - capped;
        negativity * (BURN_RATE_MAX_NUM - base) / (SENTIMENT_SCALE / 2)
    };
    let total = base + vel_adjustment + sentiment_adjustment;
    if total > BURN_RATE_MAX_NUM {
        BURN_RATE_MAX_NUM
    } else {
        total
    }
}

// ─── Metrics accumulator ─────────────────────────────────────────────────────

/// Gathers per-transaction statistics and produces epoch snapshots.
#[derive(Debug)]
pub struct MetricsAccumulator {
    /// Height at which the epoch started.
    pub start_height: u64,
    /// Number of transactions recorded.
    pub tx_count: u64,
    /// Volume recorded (saturating).
    pub volume: u64,
    /// Fees recorded (saturating).
    pub fees_collected: u64,
    /// Burns recorded (saturating).
    pub tokens_burned: u64,
    /// The distinct addresses seen.
    pub active_addresses: ByteMap<()>,
}

impl MetricsAccumulator {
    /// The distinct addresses seen.
    pub open spec fn addresses(&self) -> Set<[u8; 32]> {
        self.active_addresses@.dom()
    }

    /// The address store is well formed.
    pub open spec fn wf(&self) -> bool {
        self.active_addresses.wf()
    }

    /// Creates an empty accumulator starting at the given block height.
    pub fn new(start_height: u64) -> (a: MetricsAccumulator)
        ensures
            a.wf(),
            a.start_height == start_height,
            a.tx_count == 0,
            a.volume == 0,
            a.fees_collected == 0,
            a.tokens_burned == 0,
            a.addresses() == Set::<[u8; 32]>::empty(),
    {
        let a = MetricsAccumulator {
            start_height,
            tx_count: 0,
            volume: 0,
            fees_collected: 0,
            tokens_burned: 0,
            active_addresses: ByteMap::new(),
        };
        assert(a.addresses() =~= Set::<[u8; 32]>::empty());
        a
    }

    /// Records a transaction: one more transaction, the amounts added
    /// (saturating), and both parties counted as active.
    pub fn record_tx(
        &mut self,
        sender: [u8; 32],
        receiver: [u8; 32],
        amount: u64,
        fee: u64,
        burned: u64,
    )
        requires
            old(self).wf(),
            old(self).tx_count < u64::MAX,
        ensures
            final(self).wf(),
            final(self).start_height == old(self).start_height,
            final(self).tx_count == old(self).tx_count + 1,
            final(self).volume == sat(old(self).volume + amount),
            final(self).fees_collected == sat(old(self).fees_collected + fee),
            final(self).tokens_burned == sat(old(self).tokens_burned + burned),
            final(self).addresses() == old(self).addresses().insert(sender).insert(receiver),
    {
        self.tx_count = self.tx_count + 1;
        self.volume = self.volume.saturating_add(amount);
        self.fees_collected = self.fees_collected.saturating_add(fee);
        self.tokens_burned = self.tokens_burned.saturating_add(burned);
        self.active_addresses.insert(sender, ());
        self.active_addresses.insert(receiver, ());
        assert(self.addresses() =~= old(self).addresses().insert(sender).insert(receiver));
    }

    /// The snapshot of the epoch so far, ending at `end_height`.
    pub fn finalise(&self, end_height: u64, circulating_supply: u64) -> (s: EpochSnapshot)
        requires
            self.wf(),
        ensures
            s == (EpochSnapshot {
                start_height: self.start_height,
                end_height,
                tx_count: self.tx_count,
                volume: self.volume,
                fees_collected: self.fees_collected,
                tokens_burned: self.tokens_burned,
                circulating_supply,
                active_addresses: self.addresses().len() as u64,
            }),
    {
        EpochSnapshot::new(
            self.start_height,
            end_height,
            self.tx_count,
            self.volume,
            self.fees_collected,
            self.tokens_burned,
            circulating_supply,
            self.active_addresses.len() as u64,
        )
    }
}

impl Default for MetricsAccumulator {
    fn default() -> (a: Self)
        ensures
            a.wf(),
            a.start_height == 0,
            a.tx_count == 0,
            a.addresses() == Set::<[u8; 32]>::empty(),
    {
        MetricsAccumulator::new(0)
    }
}

} // verus!
