//! Bootstrap pools: a return series partitioned by regime label, with
//! safe fallbacks when a regime has no samples, and Markov stay
//! probabilities estimated from a label sequence.

use vstd::prelude::*;

verus! {

use crate::calculations::{sort_values, sorted_of};
use crate::engine::{clamp_transition_probability, MAX_TRANSITION_PPM, MIN_TRANSITION_PPM};
use crate::fixed::clamp_spec;
use crate::SCALE;

/// The two per-regime sample pools.
pub struct RegimePools<T> {
    pub growth: Vec<T>,
    pub crisis: Vec<T>,
}

/// The values whose label marks a crisis (exactly one).
pub open spec fn crisis_values_spec(values: Seq<i64>, labels: Seq<u8>) -> Seq<i64>
    decreases labels.len(),
{
    if labels.len() == 0 {
        Seq::empty()
    } else {
        crisis_values_spec(values.drop_last(), labels.drop_last()) + if labels.last() == 1 {
            seq![values.last()]
        } else {
            Seq::empty()
        }
    }
}

/// The values whose label is anything but a crisis.
pub open spec fn growth_values_spec(values: Seq<i64>, labels: Seq<u8>) -> Seq<i64>
    decreases labels.len(),
{
    if labels.len() == 0 {
        Seq::empty()
    } else {
        growth_values_spec(values.drop_last(), labels.drop_last()) + if labels.last() != 1 {
            seq![values.last()]
        } else {
            Seq::empty()
        }
    }
}

/// The crisis fallback keeps the smallest `max(4, floor(0.35 n))`
/// values, but never more than there are.
pub open spec fn crisis_fallback_count(n: int) -> int {
    let c = (n * 35) / 100;
    let c4 = if c < 4 {
        4
    } else {
        c
    };
    if c4 < n {
        c4
    } else {
        n
    }
}

fn copy_values(src: &Vec<i64>) -> (r: Vec<i64>)
    ensures
        r@ == src@,
{
    let mut out: Vec<i64> = Vec::new();
    let mut i: usize = 0;
    while i < src.len()
        invariant
            i <= src@.len(),
            out@ == src@.subrange(0, i as int),
        decreases src@.len() - i,
    {
        out.push(src[i]);
        proof {
            assert(out@ =~= src@.subrange(0, i as int + 1));
        }
        i += 1;
    }
    proof {
        assert(src@.subrange(0, src@.len() as int) =~= src@);
    }
    out
}

/// Partition an annual series by label; growth falls back to the whole
/// history, crisis to the smallest ~35% of it (at least four values).
pub fn bootstrap_pool_by_regime(annual_returns: &Vec<i64>, labels: &Vec<u8>) -> (r: RegimePools<
    i64,
>)
    requires
        annual_returns@.len() == labels@.len(),
        annual_returns@.len() <= crate::structs::HISTORY_LEN_CAP,
    ensures
        r.growth@ == (if growth_values_spec(annual_returns@, labels@).len() > 0 {
            growth_values_spec(annual_returns@, labels@)
        } else {
            annual_returns@
        }),
        r.crisis@ == (if crisis_values_spec(annual_returns@, labels@).len() > 0 {
            crisis_values_spec(annual_returns@, labels@)
        } else {
            sorted_of(annual_returns@).subrange(
                0,
                crisis_fallback_count(annual_returns@.len() as int),
            )
        }),
{
    let mut growth: Vec<i64> = Vec::new();
    let mut crisis: Vec<i64> = Vec::new();
    let mut i: usize = 0;
    proof {
        assert(annual_returns@.subrange(0, 0) =~= Seq::<i64>::empty());
        assert(labels@.subrange(0, 0) =~= Seq::<u8>::empty());
    }
    while i < labels.len()
        invariant
            i <= labels@.len(),
            annual_returns@.len() == labels@.len(),
            growth@ == growth_values_spec(
                annual_returns@.subrange(0, i as int),
                labels@.subrange(0, i as int),
            ),
            crisis@ == crisis_values_spec(
                annual_returns@.subrange(0, i as int),
                labels@.subrange(0, i as int),
            ),
        decreases labels@.len() - i,
    {
        let label = labels[i];
        if label == 1 {
            crisis.push(annual_returns[i]);
        } else {
            growth.push(annual_returns[i]);
        }
        proof {
            assert(annual_returns@.subrange(0, i as int + 1).drop_last() =~= annual_returns@
                .subrange(0, i as int));
            assert(labels@.subrange(0, i as int + 1).drop_last() =~= labels@.subrange(
                0,
                i as int,
            ));
            assert(annual_returns@.subrange(0, i as int + 1).last()
                == annual_returns@[i as int]);
            assert(labels@.subrange(0, i as int + 1).last() == labels@[i as int]);
            if label == 1 {
                assert(crisis@ =~= crisis_values_spec(
                    annual_returns@.subrange(0, i as int + 1),
                    labels@.subrange(0, i as int + 1),
                ));
                assert(growth@ =~= growth_values_spec(
                    annual_returns@.subrange(0, i as int + 1),
                    labels@.subrange(0, i as int + 1),
                ));
            } else {
                assert(crisis@ =~= crisis_values_spec(
                    annual_returns@.subrange(0, i as int + 1),
                    labels@.subrange(0, i as int + 1),
                ));
                assert(growth@ =~= growth_values_spec(
                    annual_returns@.subrange(0, i as int + 1),
                    labels@.subrange(0, i as int + 1),
                ));
            }
        }
        i += 1;
    }
    proof {
        assert(annual_returns@.subrange(0, annual_returns@.len() as int) =~= annual_returns@);
        assert(labels@.subrange(0, labels@.len() as int) =~= labels@);
    }
    let fallback_growth: Vec<i64> = if growth.len() > 0 {
        growth
    } else {
        copy_values(annual_returns)
    };
    let fallback_crisis: Vec<i64> = if crisis.len() > 0 {
        crisis
    } else {
        let sorted = sort_values(annual_returns);
        let n = annual_returns.len();
        let c = (n * 35) / 100;
        let c4 = if c < 4 {
            4
        } else {
            c
        };
        let take_count = if c4 < n {
            c4
        } else {
            n
        };
        let mut picked: Vec<i64> = Vec::new();
        let mut j: usize = 0;
        while j < take_count
            invariant
                j <= take_count,
                take_count <= sorted@.len(),
                picked@ == sorted@.subrange(0, j as int),
            decreases take_count - j,
        {
            picked.push(sorted[j]);
            proof {
                assert(picked@ =~= sorted@.subrange(0, j as int + 1));
            }
            j += 1;
        }
        picked
    };
    RegimePools { growth: fallback_growth, crisis: fallback_crisis }
}

/// The indices whose label marks a crisis.
pub open spec fn crisis_indices_spec(labels: Seq<u8>) -> Seq<usize>
    decreases labels.len(),
{
    if labels.len() == 0 {
        Seq::empty()
    } else {
        crisis_indices_spec(labels.drop_last()) + if labels.last() == 1 {
            seq![(labels.len() - 1) as usize]
        } else {
            Seq::empty()
        }
    }
}

/// The indices whose label is anything but a crisis.
pub open spec fn growth_indices_spec(labels: Seq<u8>) -> Seq<usize>
    decreases labels.len(),
{
    if labels.len() == 0 {
        Seq::empty()
    } else {
        growth_indices_spec(labels.drop_last()) + if labels.last() != 1 {
            seq![(labels.len() - 1) as usize]
        } else {
            Seq::empty()
        }
    }
}

/// The monthly crisis fallback keeps the indices of the smallest
/// `max(12, floor(0.30 n))` values, but never more than there are.
pub open spec fn crisis_index_fallback_count(n: int) -> int {
    let c = (n * 30) / 100;
    let c12 = if c < 12 {
        12
    } else {
        c
    };
    if c12 < n {
        c12
    } else {
        n
    }
}

/// Lexicographic order on (value, index) pairs: a stable sort by value.
pub open spec fn pair_le() -> spec_fn((i64, usize), (i64, usize)) -> bool {
    |a: (i64, usize), b: (i64, usize)| a.0 < b.0 || (a.0 == b.0 && a.1 <= b.1)
}

/// The index sequence ordered ascending by value (ties by index).
pub open spec fn indices_by_value_spec(values: Seq<i64>) -> Seq<usize> {
    let pairs = Seq::new(values.len(), |i: int| (values[i], i as usize));
    pairs.sort_by(pair_le()).map(|i: int, p: (i64, usize)| p.1)
}

pub(crate) fn sort_pairs(pairs: &Vec<(i64, usize)>) -> (r: Vec<(i64, usize)>)
    ensures
        r@ == pairs@.sort_by(pair_le()),
{
    let mut out: Vec<(i64, usize)> = Vec::new();
    let mut i: usize = 0;
    proof {
        assert(vstd::relations::total_ordering(pair_le()));
        assert(out@ =~= pairs@.subrange(0, 0));
    }
    while i < pairs.len()
        invariant
            i <= pairs@.len(),
            vstd::relations::sorted_by(out@, pair_le()),
            out@.to_multiset() == pairs@.subrange(0, i as int).to_multiset(),
            out@.len() == i,
        decreases pairs@.len() - i,
    {
        let x = pairs[i];
        let mut p: usize = 0;
        while p < out.len() && (out[p].0 < x.0 || (out[p].0 == x.0 && out[p].1 <= x.1))
            invariant
                p <= out@.len(),
                forall|k: int| 0 <= k < p ==> pair_le()(#[trigger] out@[k], x),
            decreases out@.len() - p,
        {
            p += 1;
        }
        let ghost pre = out@;
        out.insert(p, x);
        proof {
            if p < pre.len() {
                assert(!pair_le()(pre[p as int], x));
                assert(pair_le()(x, pre[p as int]));
            }
            assert forall|a: int, b: int| 0 <= a < b < out@.len() implies pair_le()(
                #[trigger] out@[a],
                #[trigger] out@[b],
            ) by {
                if b < p {
                    assert(pair_le()(pre[a], pre[b]));
                } else if a > p {
                    assert(pair_le()(pre[a - 1], pre[b - 1]));
                } else if a == p && b > p {
                    if b - 1 > p {
                        assert(pair_le()(pre[p as int], pre[b - 1]));
                    }
                } else if b == p {
                    assert(pair_le()(out@[a], x));
                } else {
                    assert(a < p && b > p);
                    assert(pair_le()(pre[a], x));
                    if b - 1 > p {
                        assert(pair_le()(pre[p as int], pre[b - 1]));
                    }
                }
            }
            vstd::seq_lib::to_multiset_insert(pre, p as int, x);
            assert(pairs@.subrange(0, i as int + 1) =~= pairs@.subrange(0, i as int).push(
                pairs@[i as int],
            ));
            vstd::seq_lib::to_multiset_build(pairs@.subrange(0, i as int), pairs@[i as int]);
        }
        i += 1;
    }
    proof {
        assert(pairs@.subrange(0, pairs@.len() as int) =~= pairs@);
        pairs@.lemma_sort_by_ensures(pair_le());
        vstd::seq_lib::lemma_sorted_unique(out@, pairs@.sort_by(pair_le()), pair_le());
        assert(out@ =~= pairs@.sort_by(pair_le()));
    }
    out
}

/// Partition month indices by label; growth falls back to every index,
/// crisis to the indices of the smallest ~30% of values (at least
/// twelve).
pub fn bootstrap_indices_by_regime_monthly(monthly_returns: &Vec<i64>, labels: &Vec<u8>) -> (r:
    RegimePools<usize>)
    requires
        monthly_returns@.len() == labels@.len(),
        monthly_returns@.len() <= crate::structs::HISTORY_LEN_CAP,
    ensures
        r.growth@ == (if growth_indices_spec(labels@).len() > 0 {
            growth_indices_spec(labels@)
        } else {
            Seq::new(labels@.len(), |i: int| i as usize)
        }),
        r.crisis@ == (if crisis_indices_spec(labels@).len() > 0 {
            crisis_indices_spec(labels@)
        } else {
            indices_by_value_spec(monthly_returns@).subrange(
                0,
                crisis_index_fallback_count(labels@.len() as int),
            )
        }),
        forall|k: int| 0 <= k < r.growth@.len() ==> (#[trigger] r.growth@[k]) < labels@.len(),
        forall|k: int| 0 <= k < r.crisis@.len() ==> (#[trigger] r.crisis@[k]) < labels@.len(),
{
    let mut growth: Vec<usize> = Vec::new();
    let mut crisis: Vec<usize> = Vec::new();
    let mut i: usize = 0;
    proof {
        assert(labels@.subrange(0, 0) =~= Seq::<u8>::empty());
    }
    while i < labels.len()
        invariant
            i <= labels@.len(),
            growth@ == growth_indices_spec(labels@.subrange(0, i as int)),
            crisis@ == crisis_indices_spec(labels@.subrange(0, i as int)),
        decreases labels@.len() - i,
    {
        let label = labels[i];
        if label == 1 {
            crisis.push(i);
        } else {
            growth.push(i);
        }
        proof {
            assert(labels@.subrange(0, i as int + 1).drop_last() =~= labels@.subrange(
                0,
                i as int,
            ));
            assert(labels@.subrange(0, i as int + 1).last() == labels@[i as int]);
            assert(labels@.subrange(0, i as int + 1).len() - 1 == i as int);
            if label == 1 {
                assert(crisis@ =~= crisis_indices_spec(labels@.subrange(0, i as int + 1)));
                assert(growth@ =~= growth_indices_spec(labels@.subrange(0, i as int + 1)));
            } else {
                assert(crisis@ =~= crisis_indices_spec(labels@.subrange(0, i as int + 1)));
                assert(growth@ =~= growth_indices_spec(labels@.subrange(0, i as int + 1)));
            }
        }
        i += 1;
    }
    proof {
        assert(labels@.subrange(0, labels@.len() as int) =~= labels@);
        lemma_indices_in_range(labels@);
    }
    let fallback_growth: Vec<usize> = if growth.len() > 0 {
        growth
    } else {
        let mut all: Vec<usize> = Vec::new();
        let mut j: usize = 0;
        while j < labels.len()
            invariant
                j <= labels@.len(),
                all@.len() == j,
                forall|k: int| 0 <= k < j ==> #[trigger] all@[k] == k as usize,
            decreases labels@.len() - j,
        {
            all.push(j);
            j += 1;
        }
        proof {
            assert(all@ =~= Seq::new(labels@.len(), |i: int| i as usize));
        }
        all
    };
    let fallback_crisis: Vec<usize> = if crisis.len() > 0 {
        crisis
    } else {
        let n = labels.len();
        let mut pairs: Vec<(i64, usize)> = Vec::new();
        let mut j: usize = 0;
        while j < n
            invariant
                j <= n,
                n == monthly_returns@.len(),
                pairs@.len() == j,
                forall|k: int|
                    0 <= k < j ==> #[trigger] pairs@[k] == (monthly_returns@[k], k as usize),
            decreases n - j,
        {
            pairs.push((monthly_returns[j], j));
            j += 1;
        }
        proof {
            assert(pairs@ =~= Seq::new(
                monthly_returns@.len(),
                |i: int| (monthly_returns@[i], i as usize),
            ));
        }
        let sorted_pairs = sort_pairs(&pairs);
        let c = (n * 30) / 100;
        let c12 = if c < 12 {
            12
        } else {
            c
        };
        let take_count = if c12 < n {
            c12
        } else {
            n
        };
        proof {
            pairs@.lemma_sort_by_ensures(pair_le());
            vstd::seq_lib::to_multiset_len(pairs@);
            vstd::seq_lib::to_multiset_len(sorted_pairs@);
        }
        let mut picked: Vec<usize> = Vec::new();
        let mut j2: usize = 0;
        while j2 < take_count
            invariant
                j2 <= take_count,
                take_count <= sorted_pairs@.len(),
                picked@.len() == j2,
                forall|k: int| 0 <= k < j2 ==> #[trigger] picked@[k] == sorted_pairs@[k].1,
            decreases take_count - j2,
        {
            let pr = sorted_pairs[j2];
            picked.push(pr.1);
            j2 += 1;
        }
        proof {
            assert(picked@ =~= indices_by_value_spec(monthly_returns@).subrange(
                0,
                crisis_index_fallback_count(labels@.len() as int),
            ));
            lemma_sorted_pairs_indices_in_range(monthly_returns@, sorted_pairs@);
        }
        picked
    };
    RegimePools { growth: fallback_growth, crisis: fallback_crisis }
}

/// Every index a partition emits points back into the label sequence.
proof fn lemma_indices_in_range(labels: Seq<u8>)
    ensures
        forall|k: int|
            0 <= k < crisis_indices_spec(labels).len() ==> (#[trigger] crisis_indices_spec(
                labels,
            )[k]) < labels.len(),
        forall|k: int|
            0 <= k < growth_indices_spec(labels).len() ==> (#[trigger] growth_indices_spec(
                labels,
            )[k]) < labels.len(),
    decreases labels.len(),
{
    if labels.len() > 0 {
        lemma_indices_in_range(labels.drop_last());
        let c = crisis_indices_spec(labels);
        let cp = crisis_indices_spec(labels.drop_last());
        assert forall|k: int| 0 <= k < c.len() implies (#[trigger] c[k]) < labels.len() by {
            if k < cp.len() {
                assert(c[k] == cp[k]);
            } else {
                assert(c[k] == (labels.len() - 1) as usize);
            }
        }
        let g = growth_indices_spec(labels);
        let gp = growth_indices_spec(labels.drop_last());
        assert forall|k: int| 0 <= k < g.len() implies (#[trigger] g[k]) < labels.len() by {
            if k < gp.len() {
                assert(g[k] == gp[k]);
            } else {
                assert(g[k] == (labels.len() - 1) as usize);
            }
        }
    }
}

/// The sorted pairs carry exactly the indices they were built from,
/// so each stays within range.
proof fn lemma_sorted_pairs_indices_in_range(values: Seq<i64>, sorted: Seq<(i64, usize)>)
    requires
        sorted.to_multiset() == Seq::new(values.len(), |i: int| (values[i], i as usize))
            .to_multiset(),
    ensures
        forall|k: int| 0 <= k < sorted.len() ==> (#[trigger] sorted[k]).1 < values.len(),
{
    let pairs = Seq::new(values.len(), |i: int| (values[i], i as usize));
    assert forall|k: int| 0 <= k < sorted.len() implies (#[trigger] sorted[k]).1
        < values.len() by {
        vstd::seq_lib::to_multiset_contains(sorted, sorted[k]);
        vstd::seq_lib::to_multiset_contains(pairs, sorted[k]);
        assert(sorted.contains(sorted[k]));
        assert(pairs.contains(sorted[k]));
        let j = choose|j: int| 0 <= j < pairs.len() && pairs[j] == sorted[k];
    }
}

/// Partitioned values keep the source's element bounds.
pub proof fn lemma_partition_values_bounds(values: Seq<i64>, labels: Seq<u8>, lo: int, hi: int)
    requires
        values.len() == labels.len(),
        forall|i: int| 0 <= i < values.len() ==> lo <= #[trigger] values[i] <= hi,
    ensures
        forall|i: int|
            0 <= i < crisis_values_spec(values, labels).len() ==> lo <= #[trigger] crisis_values_spec(
                values,
                labels,
            )[i] <= hi,
        forall|i: int|
            0 <= i < growth_values_spec(values, labels).len() ==> lo <= #[trigger] growth_values_spec(
                values,
                labels,
            )[i] <= hi,
    decreases labels.len(),
{
    if labels.len() > 0 {
        assert forall|i: int| 0 <= i < values.drop_last().len() implies lo
            <= #[trigger] values.drop_last()[i] <= hi by {
            assert(values[i] == values.drop_last()[i]);
        }
        lemma_partition_values_bounds(values.drop_last(), labels.drop_last(), lo, hi);
        assert(values[values.len() - 1] == values.last());
        let c = crisis_values_spec(values, labels);
        let cp = crisis_values_spec(values.drop_last(), labels.drop_last());
        assert forall|i: int| 0 <= i < c.len() implies lo <= #[trigger] c[i] <= hi by {
            if i < cp.len() {
                assert(c[i] == cp[i]);
            } else {
                assert(c[i] == values.last());
            }
        }
        let g = growth_values_spec(values, labels);
        let gp = growth_values_spec(values.drop_last(), labels.drop_last());
        assert forall|i: int| 0 <= i < g.len() implies lo <= #[trigger] g[i] <= hi by {
            if i < gp.len() {
                assert(g[i] == gp[i]);
            } else {
                assert(g[i] == values.last());
            }
        }
    }
}

/// Markov transition counts over a label sequence: pairs leaving growth,
/// stays in growth, pairs leaving crisis, stays in crisis.
pub open spec fn growth_total_spec(labels: Seq<u8>) -> int
    decreases labels.len(),
{
    if labels.len() <= 1 {
        0
    } else {
        growth_total_spec(labels.drop_last()) + if labels[labels.len() - 2] == 0 {
            1int
        } else {
            0int
        }
    }
}

pub open spec fn growth_stay_spec(labels: Seq<u8>) -> int
    decreases labels.len(),
{
    if labels.len() <= 1 {
        0
    } else {
        growth_stay_spec(labels.drop_last()) + if labels[labels.len() - 2] == 0 && labels[labels.len()
            - 1] == 0 {
            1int
        } else {
            0int
        }
    }
}

pub open spec fn crisis_total_spec(labels: Seq<u8>) -> int
    decreases labels.len(),
{
    if labels.len() <= 1 {
        0
    } else {
        crisis_total_spec(labels.drop_last()) + if labels[labels.len() - 2] != 0 {
            1int
        } else {
            0int
        }
    }
}

pub open spec fn crisis_stay_spec(labels: Seq<u8>) -> int
    decreases labels.len(),
{
    if labels.len() <= 1 {
        0
    } else {
        crisis_stay_spec(labels.drop_last()) + if labels[labels.len() - 2] != 0 && labels[labels.len()
            - 1] == 1 {
            1int
        } else {
            0int
        }
    }
}

/// The estimated growth stay probability, clamped into the transition
/// band; 0.88 when no growth transition was seen.
pub open spec fn stay_growth_spec(labels: Seq<u8>) -> int {
    let total = growth_total_spec(labels);
    let raw = if total > 0 {
        (growth_stay_spec(labels) * SCALE) / total
    } else {
        880_000
    };
    clamp_spec(raw, MIN_TRANSITION_PPM as int, MAX_TRANSITION_PPM as int)
}

/// The estimated crisis stay probability; 0.72 when no crisis
/// transition was seen.
pub open spec fn stay_crisis_spec(labels: Seq<u8>) -> int {
    let total = crisis_total_spec(labels);
    let raw = if total > 0 {
        (crisis_stay_spec(labels) * SCALE) / total
    } else {
        720_000
    };
    clamp_spec(raw, MIN_TRANSITION_PPM as int, MAX_TRANSITION_PPM as int)
}

proof fn lemma_counts_bounds(labels: Seq<u8>)
    ensures
        0 <= growth_stay_spec(labels) <= growth_total_spec(labels) <= labels.len(),
        0 <= crisis_stay_spec(labels) <= crisis_total_spec(labels) <= labels.len(),
    decreases labels.len(),
{
    if labels.len() > 1 {
        lemma_counts_bounds(labels.drop_last());
    }
}

/// Estimate the two Markov stay probabilities from a label sequence.
pub fn estimate_markov_stay_probabilities(labels: &Vec<u8>) -> (r: (i64, i64))
    ensures
        r.0 == stay_growth_spec(labels@),
        r.1 == stay_crisis_spec(labels@),
        MIN_TRANSITION_PPM <= r.0 <= MAX_TRANSITION_PPM,
        MIN_TRANSITION_PPM <= r.1 <= MAX_TRANSITION_PPM,
{
    let mut growth_stay: u64 = 0;
    let mut growth_total: u64 = 0;
    let mut crisis_stay: u64 = 0;
    let mut crisis_total: u64 = 0;
    if labels.len() > 1 {
        let mut i: usize = 1;
        proof {
            assert(labels@.subrange(0, 1).len() == 1);
        }
        while i < labels.len()
            invariant
                1 <= i <= labels@.len(),
                growth_stay == growth_stay_spec(labels@.subrange(0, i as int)),
                growth_total == growth_total_spec(labels@.subrange(0, i as int)),
                crisis_stay == crisis_stay_spec(labels@.subrange(0, i as int)),
                crisis_total == crisis_total_spec(labels@.subrange(0, i as int)),
                growth_stay <= growth_total <= i,
                crisis_stay <= crisis_total <= i,
            decreases labels@.len() - i,
        {
            let prev = labels[i - 1];
            let curr = labels[i];
            if prev == 0 {
                growth_total += 1;
                if curr == 0 {
                    growth_stay += 1;
                }
            } else {
                crisis_total += 1;
                if curr == 1 {
                    crisis_stay += 1;
                }
            }
            proof {
                let sub = labels@.subrange(0, i as int + 1);
                assert(sub.drop_last() =~= labels@.subrange(0, i as int));
                assert(sub[sub.len() - 2] == labels@[i as int - 1]);
                assert(sub[sub.len() - 1] == labels@[i as int]);
            }
            i += 1;
        }
        proof {
            assert(labels@.subrange(0, labels@.len() as int) =~= labels@);
        }
    }
    let sg_raw: i64 = if growth_total > 0 {
        (((growth_stay as u128) * (SCALE as u128)) / (growth_total as u128)) as i64
    } else {
        880_000
    };
    let sc_raw: i64 = if crisis_total > 0 {
        (((crisis_stay as u128) * (SCALE as u128)) / (crisis_total as u128)) as i64
    } else {
        720_000
    };
    proof {
        lemma_markov_ratio_bounds(growth_stay as int, growth_total as int);
        lemma_markov_ratio_bounds(crisis_stay as int, crisis_total as int);
    }
    let sg = clamp_transition_probability(sg_raw);
    let sc = clamp_transition_probability(sc_raw);
    (sg, sc)
}

proof fn lemma_markov_ratio_bounds(stay: int, total: int)
    requires
        0 <= stay <= total,
    ensures
        total > 0 ==> 0 <= (stay * SCALE) / total <= SCALE,
{
    if total > 0 {
        vstd::arithmetic::div_mod::lemma_div_is_ordered(0, stay * SCALE, total);
        assert(stay * SCALE <= total * SCALE) by (nonlinear_arith)
            requires
                0 <= stay <= total,
                SCALE == 1_000_000;
        vstd::arithmetic::div_mod::lemma_div_is_ordered(stay * SCALE, total * SCALE, total);
        vstd::arithmetic::div_mod::lemma_div_multiples_vanish(SCALE as int, total);
    }
}

} // verus!
