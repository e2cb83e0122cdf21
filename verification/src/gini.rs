//! The Gini coefficient of account balances, in parts per million, and the
//! reward multiplier it drives.
use vstd::prelude::*;
use vstd::relations::{sorted_by, total_ordering};
use vstd::arithmetic::div_mod::lemma_div_is_ordered;
use crate::constants::{GINI_SCALE, TARGET_GINI_SCALED};

verus! {

broadcast use vstd::seq_lib::group_to_multiset_ensures;

/// Precision of Gini values: 10^6 = 1.0.
pub const GINI_PRECISION: u64 = 1_000_000;

/// Scale of reward multipliers: 1000 = 1×.
pub const REWARD_MULTIPLIER_SCALE: u64 = 1_000;

/// Maximum multiplier (1.5×).
pub const MAX_BOOST: u64 = 1_500;

/// Minimum multiplier (0.75×).
pub const MIN_MULTIPLIER: u64 = 750;

/// The target Gini coefficient in parts per million (0.35).
pub open spec fn target_gini() -> int {
    TARGET_GINI_SCALED * GINI_PRECISION / GINI_SCALE as int
}

// ─── Sums and order ──────────────────────────────────────────────────────────

/// The sum of a list of balances.
pub open spec fn sum_of(s: Seq<u64>) -> nat
    decreases s.len(),
{
    if s.len() == 0 {
        0
    } else {
        (sum_of(s.drop_last()) + s.last()) as nat
    }
}

/// Σ (i + 1) · s[i], with 1-based ranks.
pub open spec fn weighted_sum(s: Seq<u64>) -> nat
    decreases s.len(),
{
    if s.len() == 0 {
        0
    } else {
        (weighted_sum(s.drop_last()) + s.len() * s.last()) as nat
    }
}

/// The numeric order on balances.
pub open spec fn u64_le() -> spec_fn(u64, u64) -> bool {
    |a: u64, b: u64| a <= b
}

/// The balances in ascending order.
pub open spec fn ascending(s: Seq<u64>) -> Seq<u64> {
    s.sort_by(u64_le())
}

proof fn lemma_u64_le_total()
    ensures
        total_ordering(u64_le()),
{
}

/// The Gini coefficient in parts per million, by the sorted-list formula
/// G = 2·Σ(i·x_i)/(n·Σx) − (n+1)/n over ascending balances with 1-based
/// ranks, capped at 1.0; 0 for no balances or a zero total.
pub open spec fn gini_of(b: Seq<u64>) -> int {
    let n = b.len();
    let total = sum_of(b);
    if n == 0 || total == 0 {
        0
    } else {
        let num = 2 * weighted_sum(ascending(b));
        let corr = total * (n + 1);
        if num < corr {
            0
        } else {
            let g = GINI_PRECISION * (num - corr) / ((n * total) as int);
            if g > GINI_PRECISION {
                GINI_PRECISION as int
            } else {
                g
            }
        }
    }
}

/// Inputs whose Gini arithmetic fits: the total fits in 64 bits and the
/// scaled numerator in 128 bits.
pub open spec fn gini_computable(b: Seq<u64>) -> bool {
    sum_of(b) <= u64::MAX && 2 * GINI_PRECISION * b.len() * sum_of(b) <= u128::MAX
}

pub proof fn lemma_sum_prefix(s: Seq<u64>, i: int)
    requires
        0 <= i < s.len(),
    ensures
        sum_of(s.subrange(0, i + 1)) == sum_of(s.subrange(0, i)) + s[i],
{
    assert(s.subrange(0, i + 1).drop_last() =~= s.subrange(0, i));
}

pub proof fn lemma_sum_monotone(s: Seq<u64>, i: int)
    requires
        0 <= i <= s.len(),
    ensures
        sum_of(s.subrange(0, i)) <= sum_of(s),
    decreases s.len() - i,
{
    if i < s.len() {
        lemma_sum_prefix(s, i);
        lemma_sum_monotone(s, i + 1);
    } else {
        assert(s.subrange(0, i) =~= s);
    }
}

pub proof fn lemma_weighted_bound(s: Seq<u64>)
    ensures
        weighted_sum(s) <= s.len() * sum_of(s),
    decreases s.len(),
{
    if s.len() > 0 {
        let t = s.drop_last();
        lemma_weighted_bound(t);
        let n = s.len();
        assert(weighted_sum(s) <= n * sum_of(s)) by (nonlinear_arith)
            requires
                weighted_sum(s) == weighted_sum(t) + n * s.last(),
                weighted_sum(t) <= t.len() * sum_of(t),
                t.len() == n - 1,
                sum_of(s) == sum_of(t) + s.last(),
                n >= 1,
        ;
    }
}

proof fn lemma_sum_multiset(a: Seq<u64>, b: Seq<u64>)
    requires
        a.to_multiset() == b.to_multiset(),
    ensures
        sum_of(a) == sum_of(b),
    decreases a.len(),
{
    broadcast use vstd::multiset::group_multiset_axioms;

    if a.len() == 0 {
        assert(a.to_multiset().len() == 0);
        assert(b.to_multiset().len() == b.len());
        assert(b.len() == 0);
        assert(b =~= a);
    } else {
        let x = a.last();
        assert(a.to_multiset().count(x) > 0);
        assert(b.contains(x));
        let j = b.index_of(x);
        let b2 = b.remove(j);
        assert(b =~= b2.insert(j, x));
        vstd::seq_lib::to_multiset_insert(b2, j, x);
        assert(a =~= a.drop_last().push(x));
        assert(a.drop_last().to_multiset() =~= b2.to_multiset());
        lemma_sum_multiset(a.drop_last(), b2);
        lemma_sum_remove(b, j);
    }
}

proof fn lemma_sum_remove(s: Seq<u64>, j: int)
    requires
        0 <= j < s.len(),
    ensures
        sum_of(s) == sum_of(s.remove(j)) + s[j],
    decreases s.len(),
{
    if j == s.len() - 1 {
        assert(s.remove(j) =~= s.drop_last());
    } else {
        lemma_sum_remove(s.drop_last(), j);
        assert(s.remove(j).drop_last() =~= s.drop_last().remove(j));
        assert(s.remove(j).last() == s.last());
    }
}

/// Sorting keeps the number of balances and their sum.
pub proof fn lemma_ascending_facts(b: Seq<u64>)
    ensures
        ascending(b).len() == b.len(),
        sum_of(ascending(b)) == sum_of(b),
{
    lemma_u64_le_total();
    b.lemma_sort_by_ensures(u64_le());
    assert(ascending(b).to_multiset().len() == b.to_multiset().len());
    lemma_sum_multiset(ascending(b), b);
}

/// The Gini coefficient depends only on which balances there are, not on
/// their order.
pub proof fn lemma_gini_order_independent(a: Seq<u64>, b: Seq<u64>)
    requires
        a.to_multiset() == b.to_multiset(),
    ensures
        gini_of(a) == gini_of(b),
{
    lemma_u64_le_total();
    a.lemma_sort_by_ensures(u64_le());
    b.lemma_sort_by_ensures(u64_le());
    vstd::seq_lib::lemma_sorted_unique(ascending(a), ascending(b), u64_le());
    lemma_ascending_facts(a);
    lemma_ascending_facts(b);
}

/// When one account holds everything, the Gini coefficient is (n − 1)/n,
/// in parts per million rounded down.
pub proof fn lemma_gini_single_holder(b: Seq<u64>, k: int)
    requires
        0 <= k < b.len(),
        b[k] > 0,
        forall|i: int| 0 <= i < b.len() && i != k ==> b[i] == 0,
    ensures
        gini_of(b) == GINI_PRECISION * (b.len() - 1) / b.len() as int,
{
    broadcast use vstd::multiset::group_multiset_axioms;
    broadcast use vstd::multiset::group_multiset_properties;
    broadcast use vstd::seq_lib::to_multiset_update;

    let n = b.len() as int;
    let v = b[k];
    let last = n - 1;
    let c = Seq::new(n as nat, |i: int| if i == last { v } else { 0u64 });
    if k == last {
        assert(b =~= c);
    } else {
        let s1 = b.update(k, 0u64);
        let s2 = s1.update(last, v);
        assert(b[last] == 0);
        assert(s2 =~= c);
        assert(s1.to_multiset() == b.to_multiset().insert(0u64).remove(v));
        assert(s2.to_multiset() == s1.to_multiset().insert(v).remove(0u64));
        assert(b.to_multiset().contains(v)) by {
            assert(b.contains(v)) by {
                assert(b[k] == v);
            }
        }
        assert(s2.to_multiset() =~= b.to_multiset());
    }
    assert(c.to_multiset() == b.to_multiset());
    lemma_gini_order_independent(b, c);
    lemma_u64_le_total();
    c.lemma_sort_by_ensures(u64_le());
    assert(sorted_by(c, u64_le())) by {
        assert forall|i: int, j: int| 0 <= i < j < c.len() implies #[trigger] u64_le()(c[i], c[j]) by {
            assert(c[i] == 0);
        }
    }
    vstd::seq_lib::lemma_sorted_unique(c, ascending(c), u64_le());
    let t = c.drop_last();
    lemma_constant_sums(t, 0);
    assert(0 * t.len() * (t.len() + 1) == 0) by (nonlinear_arith);
    assert(0 * t.len() == 0) by (nonlinear_arith);
    assert(sum_of(t) == 0);
    assert(c.drop_last() == t && c.last() == v);
    assert(sum_of(c) == v);
    assert(weighted_sum(t) == 0);
    assert(weighted_sum(c) == n * v);
    assert(ascending(c) == c);
    let num = 2 * weighted_sum(ascending(c));
    let corr = sum_of(c) * (n + 1);
    assert(num - corr == (n - 1) * v) by (nonlinear_arith)
        requires
            num == 2 * (n * v),
            corr == v * (n + 1),
    ;
    assert(num >= corr) by (nonlinear_arith)
        requires
            num - corr == (n - 1) * v,
            n >= 1,
            v > 0,
    ;
    let q = GINI_PRECISION * (n - 1) / n;
    let r = GINI_PRECISION * (n - 1) % n;
    vstd::arithmetic::div_mod::lemma_fundamental_div_mod(GINI_PRECISION * (n - 1), n);
    assert(GINI_PRECISION * (num - corr) == q * (n * v) + r * v && 0 <= r * v < n * v) by (nonlinear_arith)
        requires
            num - corr == (n - 1) * v,
            GINI_PRECISION * (n - 1) == n * q + r,
            0 <= r < n,
            v > 0,
    ;
    vstd::arithmetic::div_mod::lemma_fundamental_div_mod_converse(
        GINI_PRECISION * (num - corr),
        n * v,
        q,
        r * v,
    );
    assert(q <= GINI_PRECISION) by {
        vstd::arithmetic::div_mod::lemma_div_is_ordered(GINI_PRECISION * (n - 1), GINI_PRECISION * n, n);
        vstd::arithmetic::div_mod::lemma_div_multiples_vanish(GINI_PRECISION as int, n);
    }
    assert((n * sum_of(c)) as int == n * v);
}

/// Multiplying by `k`.
pub open spec fn scale_by(k: u64) -> spec_fn(u64) -> u64 {
    |x: u64| (x * k) as u64
}

/// Every balance multiplied by `k`.
pub open spec fn scaled_balances(b: Seq<u64>, k: u64) -> Seq<u64> {
    b.map_values(scale_by(k))
}

proof fn lemma_elem_le_sum(b: Seq<u64>, i: int)
    requires
        0 <= i < b.len(),
    ensures
        b[i] <= sum_of(b),
    decreases b.len(),
{
    if i < b.len() - 1 {
        lemma_elem_le_sum(b.drop_last(), i);
        assert(b.drop_last()[i] == b[i]);
    }
}

proof fn lemma_scaled_sums(b: Seq<u64>, k: u64)
    requires
        k * sum_of(b) <= u64::MAX,
    ensures
        sum_of(scaled_balances(b, k)) == k * sum_of(b),
        weighted_sum(scaled_balances(b, k)) == k * weighted_sum(b),
    decreases b.len(),
{
    let sb = scaled_balances(b, k);
    if b.len() == 0 {
        assert(k * sum_of(b) == 0 && k * weighted_sum(b) == 0) by (nonlinear_arith)
            requires
                sum_of(b) == 0,
                weighted_sum(b) == 0,
        ;
    } else {
        let t = b.drop_last();
        let x = b.last();
        let n = b.len() as int;
        assert(sum_of(b) == sum_of(t) + x);
        assert(weighted_sum(b) == weighted_sum(t) + n * x);
        assert(k * sum_of(t) <= u64::MAX && k * x <= u64::MAX && k * sum_of(b) == k * sum_of(t) + k
            * x && k * weighted_sum(b) == k * weighted_sum(t) + n * (k * x)) by (nonlinear_arith)
            requires
                sum_of(b) == sum_of(t) + x,
                weighted_sum(b) == weighted_sum(t) + n * x,
                k * sum_of(b) <= u64::MAX,
                sum_of(t) >= 0,
                x >= 0,
        ;
        lemma_scaled_sums(t, k);
        assert(sb.drop_last() =~= scaled_balances(t, k));
        assert(sb.last() == k * x) by {
            assert(sb.last() == scale_by(k)(x));
            assert(x * k == k * x) by (nonlinear_arith);
        }
        assert(sum_of(sb) == sum_of(sb.drop_last()) + sb.last());
        assert(weighted_sum(sb) == weighted_sum(sb.drop_last()) + n * sb.last());
    }
}

proof fn lemma_scaled_multiset(a: Seq<u64>, b: Seq<u64>, k: u64)
    requires
        a.to_multiset() == b.to_multiset(),
    ensures
        scaled_balances(a, k).to_multiset() == scaled_balances(b, k).to_multiset(),
    decreases a.len(),
{
    broadcast use vstd::multiset::group_multiset_axioms;
    broadcast use vstd::seq_lib::to_multiset_remove;
    broadcast use vstd::seq_lib::to_multiset_insert;
    broadcast use vstd::seq_lib::to_multiset_build;
    broadcast use vstd::seq_lib::to_multiset_len;
    broadcast use vstd::seq_lib::to_multiset_contains;

    if a.len() == 0 {
        assert(a.to_multiset().len() == 0);
        assert(b.len() == 0);
        assert(scaled_balances(a, k) =~= Seq::<u64>::empty());
        assert(scaled_balances(b, k) =~= Seq::<u64>::empty());
    } else {
        let x = a.last();
        let t = a.drop_last();
        assert(a =~= t.push(x));
        assert(a.contains(x)) by {
            assert(a[a.len() - 1] == x);
        }
        assert(b.to_multiset().contains(x));
        let j = choose|j: int| 0 <= j < b.len() && b[j] == x;
        let bt = b.remove(j);
        assert(t.to_multiset() =~= bt.to_multiset());
        lemma_scaled_multiset(t, bt, k);
        assert(scaled_balances(a, k) =~= scaled_balances(t, k).push(scale_by(k)(x)));
        assert(scaled_balances(b, k) =~= scaled_balances(bt, k).insert(j, scale_by(k)(x)));
        assert(scaled_balances(a, k).to_multiset() =~= scaled_balances(b, k).to_multiset());
    }
}

/// Multiplying every balance by the same factor leaves the Gini coefficient
/// unchanged, as long as the scaled total fits in 64 bits.
pub proof fn lemma_gini_scale_invariant(b: Seq<u64>, k: u64)
    requires
        k >= 1,
        k * sum_of(b) <= u64::MAX,
    ensures
        gini_of(scaled_balances(b, k)) == gini_of(b),
{
    let sb = scaled_balances(b, k);
    let n = b.len() as int;
    lemma_scaled_sums(b, k);
    if n > 0 && sum_of(b) > 0 {
        lemma_u64_le_total();
        let a = ascending(b);
        b.lemma_sort_by_ensures(u64_le());
        sb.lemma_sort_by_ensures(u64_le());
        lemma_ascending_facts(b);
        let sa = scaled_balances(a, k);
        lemma_scaled_multiset(a, b, k);
        assert forall|i: int| 0 <= i < a.len() implies #[trigger] a[i] * k <= u64::MAX by {
            lemma_elem_le_sum(a, i);
            assert(a[i] * k <= u64::MAX) by (nonlinear_arith)
                requires
                    a[i] <= sum_of(a),
                    sum_of(a) == sum_of(b),
                    k * sum_of(b) <= u64::MAX,
            ;
        }
        assert(sorted_by(sa, u64_le())) by {
            assert forall|i: int, j: int| 0 <= i < j < sa.len() implies #[trigger] u64_le()(sa[i], sa[j]) by {
                assert(u64_le()(a[i], a[j]));
                assert(a[i] * k <= a[j] * k) by (nonlinear_arith)
                    requires
                        a[i] <= a[j],
                ;
                assert(a[i] * k <= u64::MAX && a[j] * k <= u64::MAX);
            }
        }
        vstd::seq_lib::lemma_sorted_unique(sa, ascending(sb), u64_le());
        assert(sa == ascending(sb));
        lemma_scaled_sums(a, k);
        let total = sum_of(b);
        let w = weighted_sum(a);
        let num = 2 * w;
        let corr = total * (n + 1);
        assert(weighted_sum(ascending(sb)) == k * w);
        assert(sum_of(sb) == k * total);
        assert(sb.len() == n);
        assert(2 * (k * w) == k * num && (k * total) * (n + 1) == k * corr) by (nonlinear_arith)
            requires
                num == 2 * w,
                corr == total * (n + 1),
        ;
        assert((k * num < k * corr) == (num < corr)) by (nonlinear_arith)
            requires
                k >= 1,
        ;
        assert(k * total > 0) by (nonlinear_arith)
            requires
                k >= 1,
                total > 0,
        ;
        if num >= corr {
            let d = n * total;
            assert(d > 0) by (nonlinear_arith)
                requires
                    n >= 1,
                    total > 0,
                    d == n * total,
            ;
            let q = GINI_PRECISION * (num - corr) / d;
            let r = GINI_PRECISION * (num - corr) % d;
            vstd::arithmetic::div_mod::lemma_fundamental_div_mod(GINI_PRECISION * (num - corr), d);
            assert(GINI_PRECISION * (k * num - k * corr) == q * (k * d) + r * k && 0 <= r * k < k * d)
                by (nonlinear_arith)
                requires
                    GINI_PRECISION * (num - corr) == d * q + r,
                    0 <= r < d,
                    k >= 1,
            ;
            vstd::arithmetic::div_mod::lemma_fundamental_div_mod_converse(
                GINI_PRECISION * (k * num - k * corr),
                k * d,
                q,
                r * k,
            );
            assert(n * (k * total) == k * d) by (nonlinear_arith)
                requires
                    d == n * total,
            ;
        }
    } else {
        assert(k * sum_of(b) == 0 || n == 0) by (nonlinear_arith)
            requires
                n == 0 || sum_of(b) == 0,
        ;
    }
}

/// Sorts balances into ascending order.
pub(crate) fn sort_u64(v: &[u64]) -> (out: Vec<u64>)
    ensures
        out@ == ascending(v@),
{
    proof {
        lemma_u64_le_total();
    }
    let mut out: Vec<u64> = Vec::new();
    let mut i: usize = 0;
    while i < v.len()
        invariant
            i <= v@.len(),
            out@.len() == i,
            total_ordering(u64_le()),
            sorted_by(out@, u64_le()),
            out@.to_multiset() == v@.subrange(0, i as int).to_multiset(),
        decreases v@.len() - i,
    {
        let x = v[i];
        let mut pos: usize = 0;
        while pos < out.len() && out[pos] < x
            invariant
                pos <= out@.len(),
                forall|j: int| 0 <= j < pos ==> (#[trigger] out@[j]) < x,
            decreases out@.len() - pos,
        {
            pos = pos + 1;
        }
        let ghost before = out@;
        out.insert(pos, x);
        proof {
            let after = out@;
            assert(after =~= before.insert(pos as int, x));
            assert forall|a: int, b: int| 0 <= a < b < after.len() implies #[trigger] u64_le()(
                after[a],
                after[b],
            ) by {
                if b < pos {
                    assert(after[a] == before[a] && after[b] == before[b]);
                    assert(u64_le()(before[a], before[b]));
                } else if b == pos {
                    assert(after[a] == before[a]);
                } else if a == pos {
                    assert(after[b] == before[b - 1]);
                    if pos < before.len() {
                        assert(u64_le()(before[pos as int], before[b - 1]) || pos == b - 1);
                    }
                } else if a > pos {
                    assert(after[a] == before[a - 1] && after[b] == before[b - 1]);
                    assert(u64_le()(before[a - 1], before[b - 1]));
                } else {
                    assert(after[a] == before[a] && after[b] == before[b - 1]);
                    assert(u64_le()(before[a], before[b - 1]));
                }
            }
            vstd::seq_lib::to_multiset_insert(before, pos as int, x);
            assert(v@.subrange(0, i + 1) =~= v@.subrange(0, i as int).push(x));
        }
        i = i + 1;
    }
    proof {
        assert(v@.subrange(0, i as int) =~= v@);
        v@.lemma_sort_by_ensures(u64_le());
        vstd::seq_lib::lemma_sorted_unique(out@, ascending(v@), u64_le());
    }
    out
}

/// Sum of balances, which must fit in 64 bits.
pub(crate) fn sum_u64(v: &[u64]) -> (total: u64)
    requires
        sum_of(v@) <= u64::MAX,
    ensures
        total == sum_of(v@),
{
    let mut total: u64 = 0;
    let mut i: usize = 0;
    while i < v.len()
        invariant
            i <= v@.len(),
            sum_of(v@) <= u64::MAX,
            total == sum_of(v@.subrange(0, i as int)),
        decreases v@.len() - i,
    {
        proof {
            lemma_sum_prefix(v@, i as int);
            lemma_sum_monotone(v@, i + 1);
        }
        total = total + v[i];
        i = i + 1;
    }
    assert(v@.subrange(0, i as int) =~= v@);
    total
}

/// Σ (i + 1) · s[i] in 128 bits.
pub(crate) fn weighted_u128(s: &[u64], bound: u128) -> (w: u128)
    requires
        s@.len() * sum_of(s@) <= bound,
    ensures
        w == weighted_sum(s@),
{
    let mut w: u128 = 0;
    let mut i: usize = 0;
    while i < s.len()
        invariant
            i <= s@.len(),
            s@.len() * sum_of(s@) <= bound,
            w == weighted_sum(s@.subrange(0, i as int)),
        decreases s@.len() - i,
    {
        let ghost pre = s@.subrange(0, i + 1);
        proof {
            assert(pre.drop_last() =~= s@.subrange(0, i as int));
            lemma_weighted_bound(pre);
            lemma_sum_monotone(s@, i + 1);
            assert(pre.len() * sum_of(pre) <= s@.len() * sum_of(s@)) by (nonlinear_arith)
                requires
                    pre.len() <= s@.len(),
                    sum_of(pre) <= sum_of(s@),
            ;
        }
        w = w + (i as u128 + 1) * (s[i] as u128);
        i = i + 1;
    }
    assert(s@.subrange(0, i as int) =~= s@);
    w
}

/// Computes the Gini coefficient of the balances in parts per million.
pub fn gini_coefficient(balances: &[u64]) -> (g: u64)
    requires
        gini_computable(balances@),
    ensures
        g == gini_of(balances@),
        g <= GINI_PRECISION,
{
    let n = balances.len();
    if n == 0 {
        return 0;
    }
    let total = sum_u64(balances);
    if total == 0 {
        return 0;
    }
    let sorted = sort_u64(balances);
    proof {
        lemma_u64_le_total();
        balances@.lemma_sort_by_ensures(u64_le());
        lemma_sum_multiset(sorted@, balances@);
        lemma_weighted_bound(sorted@);
        assert(sorted@.len() == n) by {
            assert(sorted@.to_multiset().len() == balances@.to_multiset().len());
        }
    }
    let n128 = n as u128;
    let total128 = total as u128;
    proof {
        assert(n128 * total128 <= u128::MAX) by (nonlinear_arith)
            requires
                2 * GINI_PRECISION * n * total <= u128::MAX,
                n128 == n,
                total128 == total,
        ;
    }
    let weighted = weighted_u128(sorted.as_slice(), n128 * total128);
    proof {
        assert(2 * weighted <= u128::MAX && total * (n + 1) <= u128::MAX) by (nonlinear_arith)
            requires
                weighted <= n * total,
                2 * GINI_PRECISION * n * total <= u128::MAX,
                n >= 1,
        ;
    }
    let numerator = 2u128 * weighted;
    let correction = total128 * (n128 + 1);
    if numerator < correction {
        return 0;
    }
    proof {
        assert(GINI_PRECISION * (numerator - correction) <= 2 * GINI_PRECISION * n * total)
            by (nonlinear_arith)
            requires
                numerator == 2 * weighted,
                weighted <= n * total,
                correction >= 0,
                numerator >= correction,
        ;
    }
    proof {
        assert(n128 * total128 > 0) by (nonlinear_arith)
            requires
                n128 >= 1,
                total128 >= 1,
        ;
    }
    let g_scaled = (GINI_PRECISION as u128) * (numerator - correction) / (n128 * total128);
    if g_scaled > GINI_PRECISION as u128 {
        GINI_PRECISION
    } else {
        g_scaled as u64
    }
}

/// A list of equal balances has Gini coefficient zero.
pub proof fn lemma_gini_equal_balances(b: Seq<u64>)
    requires
        forall|i: int, j: int| 0 <= i < b.len() && 0 <= j < b.len() ==> b[i] == b[j],
    ensures
        gini_of(b) == 0,
{
    if b.len() > 0 && sum_of(b) > 0 {
        lemma_u64_le_total();
        b.lemma_sort_by_ensures(u64_le());
        assert(sorted_by(b, u64_le())) by {
            assert forall|i: int, j: int| 0 <= i < j < b.len() implies #[trigger] u64_le()(b[i], b[j]) by {
                assert(b[i] == b[j]);
            }
        }
        vstd::seq_lib::lemma_sorted_unique(b, ascending(b), u64_le());
        lemma_constant_sums(b, b[0]);
        let n = b.len();
        let total = sum_of(b);
        assert(2 * weighted_sum(b) == total * (n + 1)) by (nonlinear_arith)
            requires
                2 * weighted_sum(b) == b[0] * n * (n + 1),
                total == b[0] * n,
        ;
        assert(ascending(b) == b);
        let num = 2 * weighted_sum(ascending(b));
        let corr = total * (n + 1);
        assert(num - corr == 0);
        assert(n * total > 0) by (nonlinear_arith)
            requires
                n >= 1,
                total >= 1,
        ;
        assert(GINI_PRECISION * (num - corr) / ((n * total) as int) == 0) by (nonlinear_arith)
            requires
                num - corr == 0,
                n * total > 0,
        ;
    }
}

proof fn lemma_constant_sums(b: Seq<u64>, c: u64)
    requires
        forall|i: int| 0 <= i < b.len() ==> b[i] == c,
    ensures
        sum_of(b) == c * b.len(),
        2 * weighted_sum(b) == c * b.len() * (b.len() + 1),
    decreases b.len(),
{
    if b.len() > 0 {
        let t = b.drop_last();
        lemma_constant_sums(t, c);
        let n = b.len() as int;
        assert(2 * weighted_sum(b) == c * n * (n + 1)) by (nonlinear_arith)
            requires
                2 * weighted_sum(t) == c * (n - 1) * n,
                weighted_sum(b) == weighted_sum(t) + n * c,
        ;
        assert(sum_of(b) == c * n) by (nonlinear_arith)
            requires
                sum_of(t) == c * (n - 1),
                sum_of(b) == sum_of(t) + c,
        ;
    } else {
        assert(c * b.len() * (b.len() + 1) == 0) by (nonlinear_arith)
            requires
                b.len() == 0,
        ;
    }
}

/// Converts a Gini value in parts per million to percent.
pub fn to_gini_scale(gini_precision: u64) -> (g: u64)
    requires
        gini_precision * GINI_SCALE <= u64::MAX,
    ensures
        g == gini_precision * GINI_SCALE / GINI_PRECISION as int,
{
    gini_precision * GINI_SCALE / GINI_PRECISION
}

// ─── Reward multiplier ───────────────────────────────────────────────────────

/// How far the network Gini exceeds the target, relative to the largest
/// possible excess, in parts per million.
pub open spec fn excess_ratio(network_gini: u64) -> int {
    (network_gini - target_gini()) * GINI_PRECISION / (GINI_PRECISION - target_gini())
}

/// The reward multiplier (1000 = 1×): 1× when the network Gini is at or below
/// target or the mean is zero; otherwise accounts at or below the mean get a
/// boost growing linearly towards `MAX_BOOST`, and larger accounts a penalty
/// growing linearly towards `MIN_MULTIPLIER`, in proportion to the excess.
pub open spec fn multiplier_of(account_balance: u64, mean_balance: u64, network_gini: u64) -> int {
    if network_gini <= target_gini() || mean_balance == 0 {
        REWARD_MULTIPLIER_SCALE as int
    } else if account_balance <= mean_balance {
        REWARD_MULTIPLIER_SCALE + (MAX_BOOST - REWARD_MULTIPLIER_SCALE) * excess_ratio(network_gini)
            / GINI_PRECISION as int
    } else {
        REWARD_MULTIPLIER_SCALE - (REWARD_MULTIPLIER_SCALE - MIN_MULTIPLIER) * excess_ratio(
            network_gini,
        ) / GINI_PRECISION as int
    }
}

/// The multiplier rewards small holders and penalises large ones: with the
/// network Gini above target and a non-zero mean, accounts at or below the
/// mean get at least 1×, accounts above it at most 1×; otherwise everyone gets
/// exactly 1×. For a Gini of at most 1 (one million) the multiplier stays
/// within `[MIN_MULTIPLIER, MAX_BOOST]`, and it grows with the network Gini
/// for small holders and shrinks with it for large ones.
pub proof fn lemma_multiplier_direction(
    account_balance: u64,
    mean_balance: u64,
    network_gini: u64,
    higher_gini: u64,
)
    ensures
        network_gini > target_gini() && mean_balance > 0 && account_balance <= mean_balance
            ==> multiplier_of(account_balance, mean_balance, network_gini) >= REWARD_MULTIPLIER_SCALE,
        network_gini > target_gini() && mean_balance > 0 && account_balance > mean_balance
            ==> multiplier_of(account_balance, mean_balance, network_gini) <= REWARD_MULTIPLIER_SCALE,
        network_gini <= target_gini() || mean_balance == 0 ==> multiplier_of(
            account_balance,
            mean_balance,
            network_gini,
        ) == REWARD_MULTIPLIER_SCALE,
        network_gini <= GINI_PRECISION ==> MIN_MULTIPLIER <= multiplier_of(
            account_balance,
            mean_balance,
            network_gini,
        ) <= MAX_BOOST,
        network_gini <= higher_gini && account_balance <= mean_balance ==> multiplier_of(
            account_balance,
            mean_balance,
            network_gini,
        ) <= multiplier_of(account_balance, mean_balance, higher_gini),
        network_gini <= higher_gini && account_balance > mean_balance ==> multiplier_of(
            account_balance,
            mean_balance,
            network_gini,
        ) >= multiplier_of(account_balance, mean_balance, higher_gini),
{
    let t = target_gini();
    assert(t == 350_000);
    let d = GINI_PRECISION - t;
    if network_gini > t {
        let x = network_gini - t;
        assert(excess_ratio(network_gini) >= 0) by (nonlinear_arith)
            requires x > 0, d == 650_000, excess_ratio(network_gini) == x * 1_000_000 / d;
        assert(500 * excess_ratio(network_gini) / 1_000_000 >= 0) by (nonlinear_arith)
            requires excess_ratio(network_gini) >= 0;
        assert(250 * excess_ratio(network_gini) / 1_000_000 >= 0) by (nonlinear_arith)
            requires excess_ratio(network_gini) >= 0;
        if network_gini <= GINI_PRECISION {
            assert(excess_ratio(network_gini) <= 1_000_000) by (nonlinear_arith)
                requires x <= 650_000, d == 650_000, excess_ratio(network_gini) == x * 1_000_000 / d;
            assert(500 * excess_ratio(network_gini) / 1_000_000 <= 500) by (nonlinear_arith)
                requires excess_ratio(network_gini) <= 1_000_000;
            assert(250 * excess_ratio(network_gini) / 1_000_000 <= 250) by (nonlinear_arith)
                requires excess_ratio(network_gini) <= 1_000_000;
        }
    }
    if higher_gini > t && network_gini <= higher_gini {
        let y = higher_gini - t;
        assert(excess_ratio(higher_gini) >= 0) by (nonlinear_arith)
            requires y > 0, d == 650_000, excess_ratio(higher_gini) == y * 1_000_000 / d;
        assert(250 * excess_ratio(higher_gini) / 1_000_000 >= 0) by (nonlinear_arith)
            requires excess_ratio(higher_gini) >= 0;
        assert(500 * excess_ratio(higher_gini) / 1_000_000 >= 0) by (nonlinear_arith)
            requires excess_ratio(higher_gini) >= 0;
        if network_gini > t {
            let x = network_gini - t;
            lemma_div_is_ordered(x * 1_000_000, y * 1_000_000, d);
            let a = excess_ratio(network_gini);
            let b = excess_ratio(higher_gini);
            assert(500 * a <= 500 * b);
            assert(250 * a <= 250 * b);
            lemma_div_is_ordered(500 * a, 500 * b, 1_000_000);
            lemma_div_is_ordered(250 * a, 250 * b, 1_000_000);
        }
    }
}

/// The multiplier arithmetic fits and the penalty does not exceed 1×.
pub open spec fn multiplier_computable(
    account_balance: u64,
    mean_balance: u64,
    network_gini: u64,
) -> bool {
    network_gini > target_gini() && mean_balance != 0 ==> {
        &&& (network_gini - target_gini()) * GINI_PRECISION <= u64::MAX
        &&& account_balance > mean_balance ==> (REWARD_MULTIPLIER_SCALE - MIN_MULTIPLIER)
            * excess_ratio(network_gini) / GINI_PRECISION as int <= REWARD_MULTIPLIER_SCALE
    }
}

/// Computes the Gini-scaled reward multiplier for an account.
pub fn reward_multiplier(account_balance: u64, mean_balance: u64, network_gini: u64) -> (m: u64)
    requires
        multiplier_computable(account_balance, mean_balance, network_gini),
    ensures
        m == multiplier_of(account_balance, mean_balance, network_gini),
{
    let target: u64 = TARGET_GINI_SCALED * GINI_PRECISION / GINI_SCALE;
    if network_gini <= target || mean_balance == 0 {
        return REWARD_MULTIPLIER_SCALE;
    }
    let excess = network_gini - target;
    let max_excess = GINI_PRECISION - target;
    let ratio = excess * GINI_PRECISION / max_excess;
    proof {
        assert(max_excess == 650_000);
        assert(excess * GINI_PRECISION <= u64::MAX);
        vstd::arithmetic::div_mod::lemma_div_is_ordered(
            (excess * GINI_PRECISION) as int,
            u64::MAX as int,
            650_000,
        );
        assert(ratio <= u64::MAX / 650_000);
    }
    if account_balance <= mean_balance {
        let boost_range = MAX_BOOST - REWARD_MULTIPLIER_SCALE;
        REWARD_MULTIPLIER_SCALE + boost_range * ratio / GINI_PRECISION
    } else {
        let penalty_range = REWARD_MULTIPLIER_SCALE - MIN_MULTIPLIER;
        REWARD_MULTIPLIER_SCALE - penalty_range * ratio / GINI_PRECISION
    }
}

/// The reward scaled by a multiplier (1000 = 1×), the product saturating.
pub open spec fn scaled_reward(base_reward: u64, multiplier: u64) -> int {
    let p = base_reward * multiplier;
    (if p > u64::MAX {
        u64::MAX as int
    } else {
        p
    }) / REWARD_MULTIPLIER_SCALE as int
}

/// Scaling a reward: a multiplier of 1× (1000) keeps it, a larger
/// multiplier never gives less, and when the product fits the result is the
/// product divided by 1000, rounded down.
pub proof fn lemma_scale_reward_law(base_reward: u64, m1: u64, m2: u64)
    ensures
        scaled_reward(base_reward, REWARD_MULTIPLIER_SCALE) == base_reward || base_reward
            * REWARD_MULTIPLIER_SCALE > u64::MAX,
        m1 <= m2 ==> scaled_reward(base_reward, m1) <= scaled_reward(base_reward, m2),
        base_reward * m1 <= u64::MAX ==> scaled_reward(base_reward, m1) * 1000 <= base_reward * m1
            < (scaled_reward(base_reward, m1) + 1) * 1000,
{
    assert(base_reward * m1 >= 0) by (nonlinear_arith);
    if m1 <= m2 {
        assert(base_reward * m1 <= base_reward * m2) by (nonlinear_arith) requires m1 <= m2;
        let p1 = if base_reward * m1 > u64::MAX { u64::MAX as int } else { base_reward * m1 };
        let p2 = if base_reward * m2 > u64::MAX { u64::MAX as int } else { base_reward * m2 };
        lemma_div_is_ordered(p1, p2, 1000);
    }
    if base_reward * m1 <= u64::MAX {
        let x = base_reward * m1;
        vstd::arithmetic::div_mod::lemma_fundamental_div_mod(x, 1000);
        vstd::arithmetic::div_mod::lemma_mod_bound(x, 1000);
    }
}

/// Applies a reward multiplier to a base reward.
pub fn scale_reward(base_reward: u64, multiplier: u64) -> (r: u64)
    ensures
        r == scaled_reward(base_reward, multiplier),
{
    let product: u64 = match base_reward.checked_mul(multiplier) {
        Some(p) => p,
        None => u64::MAX,
    };
    product / REWARD_MULTIPLIER_SCALE
}

/// The Gini coefficient of a sample of balances chosen by the caller.
pub fn sampled_gini(sample: &[u64]) -> (g: u64)
    requires
        gini_computable(sample@),
    ensures
        g == gini_of(sample@),
{
    gini_coefficient(sample)
}

} // verus!
