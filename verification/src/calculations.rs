//! Order statistics: sorting, linear-interpolation percentiles, and the
//! five-point percentile summary used throughout the engine.

use vstd::prelude::*;

verus! {

use crate::SCALE;
use vstd::arithmetic::div_mod::{
    lemma_div_is_ordered, lemma_div_multiples_vanish, lemma_fundamental_div_mod,
    lemma_fundamental_div_mod_converse,
};
use vstd::relations::{sorted_by, total_ordering};
use vstd::seq_lib::{lemma_sorted_unique, to_multiset_insert};

/// Non-decreasing order.
pub open spec fn is_sorted(s: Seq<i64>) -> bool {
    forall|i: int, j: int| 0 <= i < j < s.len() ==> s[i] <= s[j]
}

pub open spec fn i64_le() -> spec_fn(i64, i64) -> bool {
    |a: i64, b: i64| a <= b
}

/// The canonical sorted arrangement of a sequence.
pub open spec fn sorted_of(s: Seq<i64>) -> Seq<i64> {
    s.sort_by(i64_le())
}

proof fn lemma_i64_le_total()
    ensures
        total_ordering(i64_le()),
{
}

/// Everything `sorted_of` promises: a sorted permutation of the input.
pub proof fn lemma_sorted_of_ensures(s: Seq<i64>)
    ensures
        is_sorted(sorted_of(s)),
        sorted_of(s).to_multiset() == s.to_multiset(),
        sorted_of(s).len() == s.len(),
{
    lemma_i64_le_total();
    s.lemma_sort_by_ensures(i64_le());
    assert(sorted_of(s).to_multiset() =~= s.to_multiset());
    vstd::seq_lib::to_multiset_len(s);
    vstd::seq_lib::to_multiset_len(sorted_of(s));
    assert forall|i: int, j: int| 0 <= i < j < sorted_of(s).len() implies sorted_of(s)[i]
        <= sorted_of(s)[j] by {
        assert(i64_le()(sorted_of(s)[i], sorted_of(s)[j]));
    }
}

/// Sort into non-decreasing order by insertion into a fresh vector.
pub fn sort_values(values: &Vec<i64>) -> (r: Vec<i64>)
    ensures
        r@ == sorted_of(values@),
        is_sorted(r@),
        r@.len() == values@.len(),
{
    let mut out: Vec<i64> = Vec::new();
    let mut i: usize = 0;
    proof {
        assert(out@ =~= values@.subrange(0, 0));
    }
    while i < values.len()
        invariant
            i <= values@.len(),
            is_sorted(out@),
            out@.to_multiset() == values@.subrange(0, i as int).to_multiset(),
            out@.len() == i,
        decreases values@.len() - i,
    {
        let x = values[i];
        let mut p: usize = 0;
        while p < out.len() && out[p] <= x
            invariant
                p <= out@.len(),
                forall|k: int| 0 <= k < p ==> out@[k] <= x,
            decreases out@.len() - p,
        {
            p += 1;
        }
        let ghost pre = out@;
        out.insert(p, x);
        proof {
            assert forall|a: int, b: int| 0 <= a < b < out@.len() implies out@[a] <= out@[b] by {
                if b < p {
                    assert(pre[a] <= pre[b]);
                } else if a > p {
                    assert(pre[a - 1] <= pre[b - 1]);
                } else if a == p && b > p {
                    assert(pre[b - 1] >= pre[p as int]);
                } else if b == p {
                    assert(out@[a] == pre[a] && out@[b] == x);
                } else {
                    assert(a < p && b > p);
                    assert(pre[a] <= x);
                    assert(pre[b - 1] >= pre[p as int] || b - 1 == p);
                }
            }
            to_multiset_insert(pre, p as int, x);
            assert(values@.subrange(0, i as int + 1)
                =~= values@.subrange(0, i as int).push(values@[i as int]));
            vstd::seq_lib::to_multiset_build(values@.subrange(0, i as int), values@[i as int]);
        }
        i += 1;
    }
    proof {
        assert(values@.subrange(0, values@.len() as int) =~= values@);
        lemma_i64_le_total();
        values@.lemma_sort_by_ensures(i64_le());
        assert(sorted_by(out@, i64_le()));
        assert(sorted_by(sorted_of(values@), i64_le()));
        lemma_sorted_unique(out@, sorted_of(values@), i64_le());
        assert(out@ =~= sorted_of(values@));
    }
    out
}

/// Linear interpolation between the neighbouring order statistics at the
/// fractional index `p * (len - 1) / SCALE`, for `0 < p < SCALE`.
pub open spec fn interp_at(s: Seq<i64>, p: int) -> int
    recommends
        s.len() >= 1,
        0 < p < SCALE,
{
    let idx = p * (s.len() - 1);
    let lower = idx / (SCALE as int);
    let w = idx % (SCALE as int);
    if w == 0 {
        s[lower] as int
    } else {
        s[lower] + ((s[lower + 1] - s[lower]) * w) / (SCALE as int)
    }
}

/// Percentile of a sorted sequence at the ppm fraction `p`:
/// interpolated interior, clamped endpoints, zero on the empty sequence.
pub open spec fn percentile_spec(s: Seq<i64>, p: int) -> int {
    if s.len() == 0 {
        0
    } else if p <= 0 {
        s[0] as int
    } else if p >= SCALE {
        s[s.len() - 1] as int
    } else {
        interp_at(s, p)
    }
}

/// Where the interpolated value sits relative to its two neighbours.
proof fn lemma_interp_bounds(s: Seq<i64>, p: int)
    requires
        is_sorted(s),
        s.len() >= 1,
        0 < p < SCALE,
    ensures
        0 <= (p * (s.len() - 1)) / (SCALE as int) < s.len(),
        s[(p * (s.len() - 1)) / (SCALE as int)] <= interp_at(s, p),
        (p * (s.len() - 1)) % (SCALE as int) != 0 ==> (p * (s.len() - 1)) / (SCALE as int) + 1
            < s.len() && interp_at(s, p) <= s[(p * (s.len() - 1)) / (SCALE as int) + 1],
        (p * (s.len() - 1)) % (SCALE as int) == 0 ==> interp_at(s, p) == s[(p * (s.len() - 1))
            / (SCALE as int)],
{
    let n = s.len() as int;
    let sc = SCALE as int;
    let idx = p * (n - 1);
    let l = idx / sc;
    let w = idx % sc;
    assert(0 <= idx && idx <= sc * (n - 1) - (n - 1)) by (nonlinear_arith)
        requires
            0 < p < sc,
            n >= 1,
            idx == p * (n - 1);
    lemma_div_is_ordered(0, idx, sc);
    lemma_fundamental_div_mod(idx, sc);
    if n == 1 {
        assert(idx == 0);
        assert(l == 0 && w == 0) by {
            lemma_fundamental_div_mod_converse(0, sc, 0, 0);
        }
    } else {
        // idx <= sc * (n - 1) - 1, whose quotient by sc is n - 2.
        assert(sc * (n - 1) - 1 == (n - 2) * sc + (sc - 1)) by (nonlinear_arith);
        lemma_fundamental_div_mod_converse(sc * (n - 1) - 1, sc, n - 2, sc - 1);
        lemma_div_is_ordered(idx, sc * (n - 1) - 1, sc);
        assert(l <= n - 2);
        if w != 0 {
            let d = s[l + 1] - s[l];
            assert(d >= 0);
            assert(0 <= d * w && d * w <= d * sc) by (nonlinear_arith)
                requires
                    d >= 0,
                    0 <= w < sc;
            lemma_div_is_ordered(0, d * w, sc);
            lemma_div_is_ordered(d * w, d * sc, sc);
            lemma_div_multiples_vanish(d, sc);
            assert((d * w) / sc <= d);
        }
    }
}

/// Percentile grows with the requested fraction on a sorted sequence.
pub proof fn lemma_percentile_monotone(s: Seq<i64>, p1: int, p2: int)
    requires
        is_sorted(s),
        p1 <= p2,
    ensures
        percentile_spec(s, p1) <= percentile_spec(s, p2),
{
    if s.len() == 0 {
        return ;
    }
    let n = s.len() as int;
    let sc = SCALE as int;
    if 0 < p1 < sc {
        lemma_interp_bounds(s, p1);
    }
    if 0 < p2 < sc {
        lemma_interp_bounds(s, p2);
    }
    if p1 <= 0 {
        if p2 <= 0 {
        } else if p2 >= sc {
            assert(s[0] <= s[n - 1]);
        } else {
            let l2 = (p2 * (n - 1)) / sc;
            assert(s[0] <= s[l2]);
        }
    } else if p1 >= sc {
        // then p2 >= sc as well
    } else if p2 >= sc {
        let idx1 = p1 * (n - 1);
        let l1 = idx1 / sc;
        if idx1 % sc != 0 {
            assert(s[l1 + 1] <= s[n - 1] || l1 + 1 == n - 1);
        } else {
            assert(s[l1] <= s[n - 1] || l1 == n - 1);
        }
    } else {
        let idx1 = p1 * (n - 1);
        let idx2 = p2 * (n - 1);
        let l1 = idx1 / sc;
        let l2 = idx2 / sc;
        let w1 = idx1 % sc;
        let w2 = idx2 % sc;
        assert(idx1 <= idx2) by (nonlinear_arith)
            requires
                p1 <= p2,
                n >= 1,
                idx1 == p1 * (n - 1),
                idx2 == p2 * (n - 1);
        lemma_div_is_ordered(idx1, idx2, sc);
        if l1 == l2 {
            lemma_fundamental_div_mod(idx1, sc);
            lemma_fundamental_div_mod(idx2, sc);
            assert(w1 <= w2);
            if w1 == 0 {
                // interp_at(s, p1) == s[l1] <= interp_at(s, p2)
            } else {
                let d = s[l1 + 1] - s[l1];
                assert(d * w1 <= d * w2) by (nonlinear_arith)
                    requires
                        d >= 0,
                        w1 <= w2;
                lemma_div_is_ordered(d * w1, d * w2, sc);
            }
        } else {
            // value at p1 is at most s[l1 + 1] <= s[l2], which bounds p2's value below
            if w1 != 0 {
                assert(s[l1 + 1] <= s[l2]);
            } else {
                assert(s[l1] <= s[l2]);
            }
        }
    }
}

/// Endpoint behaviour of the percentile: the first and last order
/// statistics, and zero on an empty sequence.
pub proof fn lemma_percentile_endpoints(s: Seq<i64>, p: int)
    ensures
        s.len() == 0 ==> percentile_spec(s, p) == 0,
        s.len() > 0 && p <= 0 ==> percentile_spec(s, p) == s[0],
        s.len() > 0 && p >= SCALE ==> percentile_spec(s, p) == s[s.len() - 1],
{
}

/// Percentile of a sorted vector at the ppm fraction `p_ppm`.
pub fn percentile(sorted_values: &Vec<i64>, p_ppm: i64) -> (r: i64)
    requires
        is_sorted(sorted_values@),
    ensures
        r == percentile_spec(sorted_values@, p_ppm as int),
{
    let len = sorted_values.len();
    if len == 0 {
        return 0;
    }
    if p_ppm <= 0 {
        return sorted_values[0];
    }
    if p_ppm >= SCALE {
        return sorted_values[len - 1];
    }
    proof {
        lemma_interp_bounds(sorted_values@, p_ppm as int);
        assert(p_ppm as int * (len - 1) <= i128::MAX) by (nonlinear_arith)
            requires
                0 < p_ppm < SCALE,
                SCALE == 1_000_000,
                1 <= len <= u64::MAX;
    }
    let idx: i128 = (p_ppm as i128) * ((len - 1) as i128);
    let lower_wide: i128 = crate::fixed::floor_div_i128(idx, SCALE as i128);
    proof {
        lemma_div_is_ordered(0, idx as int, SCALE as int);
        assert(0 <= lower_wide < len);
    }
    let lower: usize = lower_wide as usize;
    let ghost sc = SCALE as int;
    let w: i128 = idx - lower_wide * (SCALE as i128);
    proof {
        lemma_fundamental_div_mod(idx as int, sc);
        assert(w == idx as int % sc);
    }
    if w == 0 {
        sorted_values[lower]
    } else {
        let low_val = sorted_values[lower];
        let high_val = sorted_values[lower + 1];
        let d: i128 = (high_val as i128) - (low_val as i128);
        proof {
            assert(d * w <= i128::MAX && d * w >= 0) by (nonlinear_arith)
                requires
                    0 <= d <= u64::MAX,
                    0 <= w < 1_000_000;
        }
        let frac: i128 = crate::fixed::floor_div_i128(d * w, SCALE as i128);
        let r_wide: i128 = (low_val as i128) + frac;
        proof {
            assert(r_wide == interp_at(sorted_values@, p_ppm as int));
            assert(low_val <= r_wide <= high_val);
        }
        r_wide as i64
    }
}

/// The sum of a series.
pub open spec fn seq_sum(s: Seq<i64>) -> int
    decreases s.len(),
{
    if s.len() == 0 {
        0
    } else {
        seq_sum(s.drop_last()) + s.last()
    }
}

/// The sum of squared deviations from `mean`.
pub open spec fn sq_dev_sum(s: Seq<i64>, mean: int) -> int
    decreases s.len(),
{
    if s.len() == 0 {
        0
    } else {
        sq_dev_sum(s.drop_last(), mean) + (s.last() - mean) * (s.last() - mean)
    }
}

/// The mean, zero on an empty series.
pub open spec fn mean_of(s: Seq<i64>) -> int {
    if s.len() == 0 {
        0
    } else {
        seq_sum(s) / (s.len() as int)
    }
}

/// The population variance, zero on an empty series.
pub open spec fn variance_of(s: Seq<i64>) -> int {
    if s.len() == 0 {
        0
    } else {
        sq_dev_sum(s, mean_of(s)) / (s.len() as int)
    }
}

/// The population standard deviation on the ppm grid.
pub open spec fn std_of(s: Seq<i64>) -> int {
    crate::fixed::sqrt_floor(variance_of(s))
}

proof fn lemma_seq_sum_bound(s: Seq<i64>, cap: int)
    requires
        cap >= 0,
        forall|i: int| 0 <= i < s.len() ==> -cap <= #[trigger] s[i] <= cap,
    ensures
        -(s.len() * cap) <= seq_sum(s) <= s.len() * cap,
    decreases s.len(),
{
    if s.len() > 0 {
        lemma_seq_sum_bound(s.drop_last(), cap);
        assert((s.len() - 1) * cap + cap == s.len() * cap) by (nonlinear_arith);
    }
}

proof fn lemma_sq_dev_sum_bound(s: Seq<i64>, mean: int, dcap: int)
    requires
        dcap >= 0,
        forall|i: int| 0 <= i < s.len() ==> -dcap <= #[trigger] s[i] - mean <= dcap,
    ensures
        0 <= sq_dev_sum(s, mean) <= s.len() * (dcap * dcap),
    decreases s.len(),
{
    if s.len() > 0 {
        lemma_sq_dev_sum_bound(s.drop_last(), mean, dcap);
        assert((s.last() - mean) * (s.last() - mean) <= dcap * dcap && 0 <= (s.last() - mean) * (
        s.last() - mean)) by (nonlinear_arith)
            requires
                -dcap <= s.last() - mean <= dcap;
        assert((s.len() - 1) * (dcap * dcap) + dcap * dcap == s.len() * (dcap * dcap))
            by (nonlinear_arith);
    }
}

/// The mean and standard deviation of `values[from..to]`, with range
/// bounds suited to ppm return series.
pub fn stats_of_range(values: &Vec<i64>, from: usize, to: usize) -> (r: (i64, i64))
    requires
        from < to <= values@.len(),
        to - from <= 10_000,
        forall|i: int| 0 <= i < values@.len() ==> -400_000_000 <= #[trigger] values@[i]
            <= 400_000_000,
    ensures
        r.0 == mean_of(values@.subrange(from as int, to as int)),
        r.1 == std_of(values@.subrange(from as int, to as int)),
        -400_000_000 <= r.0 <= 400_000_000,
        0 <= r.1 <= 100_000_000_000,
{
    let ghost sub = values@.subrange(from as int, to as int);
    let n: usize = to - from;
    let mut acc: i128 = 0;
    let mut i: usize = from;
    proof {
        assert(values@.subrange(from as int, from as int) =~= Seq::<i64>::empty());
    }
    while i < to
        invariant
            from <= i <= to <= values@.len(),
            to - from <= 10_000,
            forall|k: int| 0 <= k < values@.len() ==> -400_000_000 <= #[trigger] values@[k]
                <= 400_000_000,
            acc == seq_sum(values@.subrange(from as int, i as int)),
            -(i - from) * 400_000_000 <= acc <= (i - from) * 400_000_000,
        decreases to - i,
    {
        proof {
            assert(values@.subrange(from as int, i as int + 1).drop_last() =~= values@.subrange(
                from as int,
                i as int,
            ));
            assert(values@.subrange(from as int, i as int + 1).last() == values@[i as int]);
            assert((i - from) * 400_000_000 + 400_000_000 == (i + 1 - from) * 400_000_000)
                by (nonlinear_arith);
            assert((i + 1 - from) * 400_000_000 <= 10_000int * 400_000_000) by (nonlinear_arith)
                requires
                    i + 1 - from <= 10_000;
        }
        acc = acc + (values[i] as i128);
        i += 1;
    }
    proof {
        lemma_seq_sum_bound(sub, 400_000_000);
        assert(sub.len() * 400_000_000int <= 10_000int * 400_000_000) by (nonlinear_arith)
            requires
                sub.len() <= 10_000;
        crate::fixed::lemma_div_within(seq_sum(sub), sub.len() as int, 400_000_000);
        assert(-(400_000_000int * (sub.len() as int)) <= seq_sum(sub) <= 400_000_000int * (
        sub.len() as int)) by (nonlinear_arith)
            requires
                -(sub.len() * 400_000_000int) <= seq_sum(sub) <= sub.len() * 400_000_000int;
    }
    let mean: i64 = crate::fixed::floor_div_i128(acc, n as i128) as i64;
    let mut dev_acc: i128 = 0;
    let mut j: usize = from;
    proof {
        assert(values@.subrange(from as int, from as int) =~= Seq::<i64>::empty());
    }
    while j < to
        invariant
            from <= j <= to <= values@.len(),
            to - from <= 10_000,
            -400_000_000 <= mean <= 400_000_000,
            forall|k: int| 0 <= k < values@.len() ==> -400_000_000 <= #[trigger] values@[k]
                <= 400_000_000,
            dev_acc == sq_dev_sum(values@.subrange(from as int, j as int), mean as int),
            0 <= dev_acc <= (j - from) * 640_000_000_000_000_000,
        decreases to - j,
    {
        proof {
            assert(values@.subrange(from as int, j as int + 1).drop_last() =~= values@.subrange(
                from as int,
                j as int,
            ));
            assert(values@.subrange(from as int, j as int + 1).last() == values@[j as int]);
        }
        let d: i128 = (values[j] as i128) - (mean as i128);
        proof {
            assert(0 <= d * d <= 640_000_000_000_000_000int) by (nonlinear_arith)
                requires
                    -800_000_000 <= d <= 800_000_000;
            assert((j - from) * 640_000_000_000_000_000int + 640_000_000_000_000_000int == (j + 1
                - from) * 640_000_000_000_000_000int) by (nonlinear_arith);
            assert((j + 1 - from) * 640_000_000_000_000_000int <= 10_000int
                * 640_000_000_000_000_000int) by (nonlinear_arith)
                requires
                    j + 1 - from <= 10_000;
        }
        dev_acc = dev_acc + d * d;
        j += 1;
    }
    proof {
        assert((to - from) * 640_000_000_000_000_000int <= 10_000int * 640_000_000_000_000_000int)
            by (nonlinear_arith)
            requires
                to - from <= 10_000;
        lemma_div_is_ordered(0, dev_acc as int, sub.len() as int);
        vstd::arithmetic::div_mod::lemma_div_is_ordered_by_denominator(
            dev_acc as int,
            1,
            sub.len() as int,
        );
        lemma_div_multiples_vanish(dev_acc as int, 1);
        assert(1 * (dev_acc as int) == dev_acc as int);
    }
    let variance: i128 = crate::fixed::floor_div_i128(dev_acc, n as i128);
    let std: u64 = crate::fixed::isqrt_u128(variance as u128);
    proof {
        crate::fixed::lemma_sqrt_floor_is(variance as int, std as int);
        assert(std as int <= 100_000_000_000int) by (nonlinear_arith)
            requires
                std as int * std as int <= variance as int,
                variance as int <= 6_400_000_000_000_000_000_000int,
                std >= 0;
    }
    (mean, std as i64)
}

/// The five percentile bands reported by the engine.
#[derive(Clone, Debug)]
pub struct PercentileSeries<T> {
    pub p10: T,
    pub p25: T,
    pub p50: T,
    pub p75: T,
    pub p90: T,
}

/// What each band of a five-point summary must equal.
pub open spec fn summary_spec(values: Seq<i64>, r: PercentileSeries<i64>) -> bool {
    &&& r.p10 == percentile_spec(sorted_of(values), 100_000)
    &&& r.p25 == percentile_spec(sorted_of(values), 250_000)
    &&& r.p50 == percentile_spec(sorted_of(values), 500_000)
    &&& r.p75 == percentile_spec(sorted_of(values), 750_000)
    &&& r.p90 == percentile_spec(sorted_of(values), 900_000)
}

/// Sort a copy of `values` and report the p10/p25/p50/p75/p90 bands.
pub fn summarize(values: &Vec<i64>) -> (r: PercentileSeries<i64>)
    ensures
        summary_spec(values@, r),
        r.p10 <= r.p25 <= r.p50 <= r.p75 <= r.p90,
{
    let sorted = sort_values(values);
    let r = PercentileSeries {
        p10: percentile(&sorted, 100_000),
        p25: percentile(&sorted, 250_000),
        p50: percentile(&sorted, 500_000),
        p75: percentile(&sorted, 750_000),
        p90: percentile(&sorted, 900_000),
    };
    proof {
        lemma_percentile_monotone(sorted@, 100_000, 250_000);
        lemma_percentile_monotone(sorted@, 250_000, 500_000);
        lemma_percentile_monotone(sorted@, 500_000, 750_000);
        lemma_percentile_monotone(sorted@, 750_000, 900_000);
    }
    r
}


/// A percentile of a series of non-negative values is non-negative.
pub proof fn lemma_percentile_band_nonneg(values: Seq<i64>, p: int)
    requires
        forall|i: int| 0 <= i < values.len() ==> #[trigger] values[i] >= 0,
    ensures
        percentile_spec(sorted_of(values), p) >= 0,
{
    lemma_sorted_of_ensures(values);
    let s = sorted_of(values);
    assert forall|i: int| 0 <= i < s.len() implies #[trigger] s[i] >= 0 by {
        vstd::seq_lib::to_multiset_contains(s, s[i]);
        vstd::seq_lib::to_multiset_contains(values, s[i]);
        assert(s.contains(s[i]));
        assert(values.contains(s[i]));
        let j = choose|j: int| 0 <= j < values.len() && values[j] == s[i];
    }
    if s.len() == 0 {
    } else if p <= 0 {
    } else if p >= SCALE {
    } else {
        lemma_interp_bounds(s, p);
    }
}

} // verus!
