//! Moment targeting (a linear remap of a series onto target moments) and
//! the conversion of a monthly return series into compounded annual
//! returns.

use vstd::prelude::*;

verus! {

use crate::fixed::{clamp_spec, floor_div_i128, sat_to_i64};
use crate::SCALE;
use vstd::arithmetic::div_mod::{lemma_div_is_ordered, lemma_div_multiples_vanish};
use vstd::arithmetic::power2::{lemma2_to64, lemma_pow2_strictly_increases, pow2};

/// Values fed into the moment remap stay within this many ppm.
pub const TARGETING_VALUE_CAP_PPM: i64 = 1_000_000_000_000;

/// The remap `targetMean + (value - sourceMean) / sourceStd * targetStd`,
/// or the bare target mean when the source deviation degenerates.
pub open spec fn moment_target_spec(
    value: int,
    source_mean: int,
    source_std: int,
    target_mean: int,
    target_std: int,
) -> int {
    let safe_target_std = if target_std > 0 {
        target_std
    } else {
        0
    };
    if source_std <= 0 {
        target_mean
    } else {
        target_mean + ((value - source_mean) * safe_target_std) / source_std
    }
}

/// Remapping a value onto its own moments returns the value unchanged.
pub proof fn lemma_moment_targeting_idempotent(value: int, mean: int, std: int)
    requires
        std > 0,
    ensures
        moment_target_spec(value, mean, std, mean, std) == value,
{
    lemma_div_multiples_vanish(value - mean, std);
    assert((value - mean) * std == std * (value - mean)) by (nonlinear_arith);
}

pub fn apply_moment_targeting(
    value: i64,
    source_mean: i64,
    source_std: i64,
    target_mean: i64,
    target_std: i64,
) -> (r: i64)
    requires
        -TARGETING_VALUE_CAP_PPM <= value <= TARGETING_VALUE_CAP_PPM,
        -TARGETING_VALUE_CAP_PPM <= source_mean <= TARGETING_VALUE_CAP_PPM,
        source_std <= TARGETING_VALUE_CAP_PPM,
        -TARGETING_VALUE_CAP_PPM <= target_mean <= TARGETING_VALUE_CAP_PPM,
        target_std <= TARGETING_VALUE_CAP_PPM,
    ensures
        r == clamp_spec(
            moment_target_spec(
                value as int,
                source_mean as int,
                source_std as int,
                target_mean as int,
                target_std as int,
            ),
            i64::MIN as int,
            i64::MAX as int,
        ),
{
    let safe_target_std: i64 = if target_std > 0 {
        target_std
    } else {
        0
    };
    if source_std <= 0 {
        proof {
            assert(clamp_spec(target_mean as int, i64::MIN as int, i64::MAX as int)
                == target_mean as int);
        }
        target_mean
    } else {
        proof {
            assert(-4_000_000_000_000_000_000_000_000int <= (value as int - source_mean)
                * safe_target_std <= 4_000_000_000_000_000_000_000_000int) by (nonlinear_arith)
                requires
                    -2_000_000_000_000 <= value as int - source_mean <= 2_000_000_000_000,
                    0 <= safe_target_std <= 1_000_000_000_000;
            assert(-(4_000_000_000_000_000_000_000_000int * source_std) <= (value as int
                - source_mean) * safe_target_std <= 4_000_000_000_000_000_000_000_000int
                * source_std) by (nonlinear_arith)
                requires
                    -4_000_000_000_000_000_000_000_000int <= (value as int - source_mean)
                        * safe_target_std <= 4_000_000_000_000_000_000_000_000int,
                    source_std >= 1;
            crate::fixed::lemma_div_within(
                (value as int - source_mean) * safe_target_std,
                source_std as int,
                4_000_000_000_000_000_000_000_000int,
            );
        }
        let scaled: i128 = floor_div_i128(
            ((value as i128) - (source_mean as i128)) * (safe_target_std as i128),
            source_std as i128,
        );
        sat_to_i64((target_mean as i128) + scaled)
    }
}

/// The compounded growth of a run of monthly returns, starting from one.
pub open spec fn compound_acc_spec(s: Seq<i64>) -> int
    decreases s.len(),
{
    if s.len() == 0 {
        SCALE as int
    } else {
        (compound_acc_spec(s.drop_last()) * (SCALE + s.last())) / (SCALE as int)
    }
}

/// The annual series: each full year of twelve monthly returns
/// compounded, minus one; a trailing partial year is dropped.
pub open spec fn annual_series_spec(s: Seq<i64>) -> Seq<i64> {
    Seq::new((s.len() / 12) as nat, |y: int| (compound_acc_spec(s.subrange(12 * y, 12 * y + 12)) - SCALE) as i64)
}

/// One compounding step, bounded so that a year of steps stays in range.
fn comp_step(x: i64, f: i64) -> (r: i64)
    requires
        0 <= x <= 4_100_000_000,
        0 <= f <= 2_000_000,
    ensures
        r == (x * f) / (SCALE as int),
        0 <= r <= 2 * x,
{
    proof {
        lemma_div_is_ordered(0, x as int * f as int, SCALE as int);
        assert(x as int * f as int <= (2 * x as int) * SCALE as int) by (nonlinear_arith)
            requires
                0 <= x,
                0 <= f <= 2_000_000,
                SCALE == 1_000_000;
        lemma_div_is_ordered(x as int * f as int, (2 * x as int) * SCALE as int, SCALE as int);
        lemma_div_multiples_vanish(2 * x as int, SCALE as int);
        assert((2 * x as int) * SCALE as int == SCALE as int * (2 * x as int));
    }
    floor_div_i128((x as i128) * (f as i128), SCALE as i128) as i64
}

/// Consume the monthly series in groups of twelve; each year's return is
/// the compounded product minus one. A trailing partial year is dropped.
pub fn monthly_returns_to_annual_series(monthly_returns: &Vec<i64>) -> (r: Vec<i64>)
    requires
        forall|i: int|
            0 <= i < monthly_returns@.len() ==> -(SCALE as int) <= #[trigger] monthly_returns@[i]
                <= SCALE,
    ensures
        r@ == annual_series_spec(monthly_returns@),
{
    let s = monthly_returns;
    let mut out: Vec<i64> = Vec::new();
    let mut acc: i64 = SCALE;
    let mut month_count: usize = 0;
    let mut i: usize = 0;
    let ghost whole = s@;
    proof {
        lemma2_to64();
        assert(whole.subrange(0, 0) =~= Seq::<i64>::empty());
    }
    while i < s.len()
        invariant
            i <= whole.len(),
            whole == s@,
            forall|k: int| 0 <= k < whole.len() ==> -(SCALE as int) <= #[trigger] whole[k] <= SCALE,
            month_count == i % 12,
            i - month_count == 12 * (i / 12),
            acc == compound_acc_spec(whole.subrange(i - month_count, i as int)),
            0 <= acc <= SCALE as int * pow2(month_count as nat),
            month_count < 12,
            out@.len() == i / 12,
            forall|y: int|
                0 <= y < out@.len() ==> #[trigger] out@[y] == compound_acc_spec(
                    whole.subrange(12 * y, 12 * y + 12),
                ) - SCALE,
        decreases whole.len() - i,
    {
        let v = s[i];
        let f: i64 = SCALE + v;
        proof {
            lemma2_to64();
            assert(pow2(month_count as nat) <= pow2(11)) by {
                if month_count < 11 {
                    lemma_pow2_strictly_increases(month_count as nat, 11);
                }
            }
            assert(SCALE as int * pow2(month_count as nat) <= SCALE as int * pow2(11))
                by (nonlinear_arith)
                requires
                    pow2(month_count as nat) <= pow2(11),
                    SCALE == 1_000_000;
        }
        let new_acc = comp_step(acc, f);
        proof {
            assert(whole.subrange(i - month_count, i as int + 1).drop_last()
                =~= whole.subrange(i - month_count, i as int));
            assert(whole.subrange(i - month_count, i as int + 1).last() == whole[i as int]);
            assert(pow2((month_count + 1) as nat) == 2 * pow2(month_count as nat));
            assert(2 * (SCALE as int * pow2(month_count as nat)) == SCALE as int * pow2(
                (month_count + 1) as nat,
            )) by (nonlinear_arith)
                requires
                    pow2((month_count + 1) as nat) == 2 * pow2(month_count as nat);
        }
        acc = new_acc;
        month_count += 1;
        i += 1;
        if month_count == 12 {
            out.push(acc - SCALE);
            proof {
                assert(whole.subrange(i as int - 12, i as int) =~= whole.subrange(
                    12 * (out@.len() - 1),
                    12 * (out@.len() - 1) + 12,
                ));
                assert(whole.subrange(i as int, i as int) =~= Seq::<i64>::empty());
            }
            acc = SCALE;
            month_count = 0;
        }
    }
    proof {
        assert(out@ =~= annual_series_spec(whole));
    }
    out
}


/// The worst-case growth of the compounding accumulator: a factor of
/// at most 1.6 per month.
pub open spec fn compound_bound_spec(k: nat) -> int
    decreases k,
{
    if k == 0 {
        SCALE as int
    } else {
        (compound_bound_spec((k - 1) as nat) * 1_600_000) / (SCALE as int)
    }
}

proof fn lemma_compound_in_range(s: Seq<i64>)
    requires
        forall|i: int| 0 <= i < s.len() ==> -600_000 <= #[trigger] s[i] <= 600_000,
        s.len() <= 12,
    ensures
        0 <= compound_acc_spec(s) <= compound_bound_spec(s.len()),
    decreases s.len(),
{
    if s.len() > 0 {
        assert forall|i: int| 0 <= i < s.drop_last().len() implies -600_000
            <= #[trigger] s.drop_last()[i] <= 600_000 by {
            assert(s[i] == s.drop_last()[i]);
        }
        lemma_compound_in_range(s.drop_last());
        let acc = compound_acc_spec(s.drop_last());
        let b = compound_bound_spec((s.len() - 1) as nat);
        assert(s[s.len() - 1] == s.last());
        let f = SCALE + s.last();
        assert(0 <= acc * f && acc * f <= b * 1_600_000) by (nonlinear_arith)
            requires
                0 <= acc <= b,
                0 <= f <= 1_600_000;
        lemma_div_is_ordered(0, acc * f, SCALE as int);
        lemma_div_is_ordered(acc * f, b * 1_600_000, SCALE as int);
    }
}

/// Every compounded annual value stays within modest ppm bounds: no
/// year of clamped monthly returns can gain more than 182x or lose
/// more than everything.
pub proof fn lemma_annual_series_bounds(s: Seq<i64>)
    requires
        forall|i: int| 0 <= i < s.len() ==> -600_000 <= #[trigger] s[i] <= 600_000,
    ensures
        forall|y: int|
            0 <= y < annual_series_spec(s).len() ==> -(SCALE as int)
                <= #[trigger] annual_series_spec(s)[y] <= 300_000_000,
{
    assert forall|y: int| 0 <= y < annual_series_spec(s).len() implies -(SCALE as int)
        <= #[trigger] annual_series_spec(s)[y] <= 300_000_000 by {
        let sub = s.subrange(12 * y, 12 * y + 12);
        assert forall|i: int| 0 <= i < sub.len() implies -600_000 <= #[trigger] sub[i]
            <= 600_000 by {
            assert(sub[i] == s[12 * y + i]);
        }
        lemma_compound_in_range(sub);
        assert(compound_bound_spec(12) <= 290_000_000) by {
            reveal_with_fuel(compound_bound_spec, 13);
        }
    }
}

} // verus!
