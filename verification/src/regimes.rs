//! The regime detector: label a return series growth (0) or crisis (1)
//! from its mean, deviation and a trailing rolling deviation, then close
//! single-month gaps between crisis stretches in one ordered pass.

use vstd::prelude::*;

verus! {

use crate::calculations::{mean_of, stats_of_range, std_of};
use crate::SCALE;

/// The trailing window ending at `i`, at most `w` points long.
pub open spec fn window_of(s: Seq<i64>, i: int, w: int) -> Seq<i64> {
    s.subrange(
        if i + 1 - w >= 0 {
            i + 1 - w
        } else {
            0
        },
        i + 1,
    )
}

/// The raw label at `i`: crisis when the value sits at or below
/// `mean - c * std`, or when the rolling deviation reaches `vol * std`.
pub open spec fn raw_label_spec(s: Seq<i64>, i: int, w: int, c_ppm: int, vol_ppm: int) -> u8 {
    let std = std_of(s);
    let thr = mean_of(s) - (c_ppm * std) / (SCALE as int);
    let rstd = std_of(window_of(s, i, w));
    if s[i] <= thr || rstd * SCALE >= std * vol_ppm {
        1u8
    } else {
        0u8
    }
}

pub open spec fn raw_labels_spec(s: Seq<i64>, w: int, c_ppm: int, vol_ppm: int) -> Seq<u8> {
    Seq::new(s.len(), |i: int| raw_label_spec(s, i, w, c_ppm, vol_ppm))
}

/// One gap-fill step at position `i`: an interior growth label between
/// two crisis labels becomes crisis.
pub open spec fn gap_step(s: Seq<u8>, i: int) -> Seq<u8> {
    if s[i] == 0 && s[i - 1] == 1 && s[i + 1] == 1 {
        s.update(i, 1u8)
    } else {
        s
    }
}

/// The gap-fill steps applied in order at positions `1 .. k`.
pub open spec fn gap_fold(s: Seq<u8>, k: int) -> Seq<u8>
    decreases k,
{
    if k <= 1 {
        s
    } else {
        gap_step(gap_fold(s, k - 1), k - 1)
    }
}

/// What the detector returns: all growth when the series has no
/// deviation at all, else the raw labels with one gap-fill pass.
pub open spec fn regime_labels_spec(s: Seq<i64>, w: int, c_ppm: int, vol_ppm: int) -> Seq<u8> {
    if std_of(s) == 0 {
        Seq::new(s.len(), |i: int| 0u8)
    } else {
        let raw = raw_labels_spec(s, w, c_ppm, vol_ppm);
        if raw.len() > 2 {
            gap_fold(raw, raw.len() - 1)
        } else {
            raw
        }
    }
}

proof fn lemma_gap_fold_len(s: Seq<u8>, k: int)
    requires
        k <= s.len() - 1,
    ensures
        gap_fold(s, k).len() == s.len(),
    decreases k,
{
    if k > 1 {
        lemma_gap_fold_len(s, k - 1);
        let g = gap_fold(s, k - 1);
        assert(gap_step(g, k - 1).len() == g.len()) by {
            if g[k - 1] == 0 && g[k - 2] == 1 && g[k] == 1 {
                assert(g.update(k - 1, 1u8).len() == g.len());
            }
        }
    }
}

fn detect_core(values: &Vec<i64>, window: usize, c_ppm: i64, vol_ppm: i64) -> (r: Vec<u8>)
    requires
        1 <= window <= 100,
        values@.len() <= crate::structs::HISTORY_LEN_CAP,
        forall|i: int| 0 <= i < values@.len() ==> -400_000_000 <= #[trigger] values@[i]
            <= 400_000_000,
        0 <= c_ppm <= 2_000_000,
        0 <= vol_ppm <= 2_000_000,
    ensures
        r@ == regime_labels_spec(values@, window as int, c_ppm as int, vol_ppm as int),
        r@.len() == values@.len(),
{
    let n = values.len();
    if n == 0 {
        let out: Vec<u8> = Vec::new();
        proof {
            assert(regime_labels_spec(values@, window as int, c_ppm as int, vol_ppm as int).len()
                == 0);
            assert(out@ =~= regime_labels_spec(
                values@,
                window as int,
                c_ppm as int,
                vol_ppm as int,
            ));
        }
        return out;
    }
    let stats = stats_of_range(values, 0, n);
    let mean = stats.0;
    let std = stats.1;
    proof {
        assert(values@.subrange(0, n as int) =~= values@);
    }
    if std == 0 {
        let mut zeros: Vec<u8> = Vec::new();
        let mut i: usize = 0;
        while i < n
            invariant
                i <= n,
                zeros@.len() == i,
                forall|k: int| 0 <= k < i ==> #[trigger] zeros@[k] == 0u8,
            decreases n - i,
        {
            zeros.push(0);
            i += 1;
        }
        proof {
            assert(zeros@ =~= Seq::new(values@.len(), |i: int| 0u8));
        }
        return zeros;
    }
    proof {
        assert(c_ppm as int * std as int <= 2_000_000int * 100_000_000_000int)
            by (nonlinear_arith)
            requires
                0 <= c_ppm <= 2_000_000,
                0 <= std <= 100_000_000_000;
        assert(0 <= c_ppm as int * std as int) by (nonlinear_arith)
            requires
                0 <= c_ppm,
                0 <= std;
        crate::fixed::lemma_div_within(
            c_ppm as int * std as int,
            SCALE as int,
            200_000_000_000_000_000,
        );
    }
    let shift: i64 = crate::fixed::floor_div_i128(
        (c_ppm as i128) * (std as i128),
        SCALE as i128,
    ) as i64;
    let threshold: i64 = mean - shift;
    let mut labels: Vec<u8> = Vec::new();
    let mut i: usize = 0;
    while i < n
        invariant
            i <= n,
            n == values@.len(),
            n <= crate::structs::HISTORY_LEN_CAP,
            1 <= window <= 100,
            forall|k: int| 0 <= k < values@.len() ==> -400_000_000 <= #[trigger] values@[k]
                <= 400_000_000,
            mean == mean_of(values@),
            std == std_of(values@),
            0 <= std <= 100_000_000_000,
            0 <= c_ppm <= 2_000_000,
            0 <= vol_ppm <= 2_000_000,
            -400_000_000 <= mean <= 400_000_000,
            threshold == mean_of(values@) - (c_ppm as int * std_of(values@)) / (SCALE as int),
            labels@.len() == i,
            forall|k: int|
                0 <= k < i ==> #[trigger] labels@[k] == raw_label_spec(
                    values@,
                    k,
                    window as int,
                    c_ppm as int,
                    vol_ppm as int,
                ),
        decreases n - i,
    {
        let wstart: usize = if i + 1 >= window {
            i + 1 - window
        } else {
            0
        };
        let wstats = stats_of_range(values, wstart, i + 1);
        let rolling_std = wstats.1;
        proof {
            assert(values@.subrange(wstart as int, i as int + 1) =~= window_of(
                values@,
                i as int,
                window as int,
            ));
            assert(rolling_std as int * SCALE as int <= 100_000_000_000int * 1_000_000int
                && rolling_std as int * SCALE as int >= 0) by (nonlinear_arith)
                requires
                    0 <= rolling_std <= 100_000_000_000,
                    SCALE == 1_000_000;
            assert(std as int * vol_ppm as int <= 100_000_000_000int * 2_000_000int && std as int
                * vol_ppm as int >= 0) by (nonlinear_arith)
                requires
                    0 <= std <= 100_000_000_000,
                    0 <= vol_ppm <= 2_000_000;
        }
        let crisis_by_return = values[i] <= threshold;
        let crisis_by_volatility = (rolling_std as i128) * (SCALE as i128) >= (std as i128) * (
        vol_ppm as i128);
        let label: u8 = if crisis_by_return || crisis_by_volatility {
            1
        } else {
            0
        };
        labels.push(label);
        i += 1;
    }
    proof {
        assert(labels@ =~= raw_labels_spec(
            values@,
            window as int,
            c_ppm as int,
            vol_ppm as int,
        ));
    }
    let ghost raw = labels@;
    if n > 2 {
        let mut idx: usize = 1;
        while idx < n - 1
            invariant
                1 <= idx <= n - 1,
                n == labels@.len(),
                n == raw.len(),
                n > 2,
                labels@ == gap_fold(raw, idx as int),
            decreases n - idx,
        {
            proof {
                lemma_gap_fold_len(raw, idx as int);
            }
            if labels[idx] == 0 && labels[idx - 1] == 1 && labels[idx + 1] == 1 {
                labels.set(idx, 1);
                proof {
                    assert(labels@ =~= gap_fold(raw, idx as int + 1));
                }
            } else {
                proof {
                    assert(labels@ =~= gap_fold(raw, idx as int + 1));
                }
            }
            idx += 1;
        }
        proof {
            lemma_gap_fold_len(raw, n as int - 1);
        }
    }
    labels
}

/// Label an annual return series: a three-point trailing window, a
/// crisis threshold 0.65 deviations below the mean, and a volatility
/// trigger at 1.15 deviations.
pub fn detect_regimes(annual_returns: &Vec<i64>) -> (r: Vec<u8>)
    requires
        annual_returns@.len() <= crate::structs::HISTORY_LEN_CAP,
        forall|i: int| 0 <= i < annual_returns@.len() ==> -400_000_000 <= #[trigger] annual_returns@[i] <= 400_000_000,
    ensures
        r@ == regime_labels_spec(annual_returns@, 3, 650_000, 1_150_000),
        r@.len() == annual_returns@.len(),
{
    detect_core(annual_returns, 3, 650_000, 1_150_000)
}

/// Label a monthly return series: a six-point trailing window, a crisis
/// threshold 0.75 deviations below the mean, and a volatility trigger
/// at 1.20 deviations.
pub fn detect_regimes_monthly(monthly_returns: &Vec<i64>) -> (r: Vec<u8>)
    requires
        monthly_returns@.len() <= crate::structs::HISTORY_LEN_CAP,
        forall|i: int| 0 <= i < monthly_returns@.len() ==> -400_000_000 <= #[trigger] monthly_returns@[i] <= 400_000_000,
    ensures
        r@ == regime_labels_spec(monthly_returns@, 6, 750_000, 1_200_000),
        r@.len() == monthly_returns@.len(),
{
    detect_core(monthly_returns, 6, 750_000, 1_200_000)
}

proof fn lemma_const_sum(s: Seq<i64>, v: i64)
    requires
        forall|i: int| 0 <= i < s.len() ==> #[trigger] s[i] == v,
    ensures
        crate::calculations::seq_sum(s) == s.len() * v,
    decreases s.len(),
{
    if s.len() == 0 {
        assert(s.len() * v == 0) by (nonlinear_arith)
            requires
                s.len() == 0;
    } else {
        lemma_const_sum(s.drop_last(), v);
        assert((s.len() - 1) * v + v == s.len() * v) by (nonlinear_arith);
    }
}

proof fn lemma_const_sq_dev(s: Seq<i64>, m: int)
    requires
        forall|i: int| 0 <= i < s.len() ==> #[trigger] s[i] == m,
    ensures
        crate::calculations::sq_dev_sum(s, m) == 0,
    decreases s.len(),
{
    if s.len() > 0 {
        assert forall|i: int| 0 <= i < s.drop_last().len() implies #[trigger] s.drop_last()[i]
            == m by {
            assert(s[i] == m);
        }
        lemma_const_sq_dev(s.drop_last(), m);
        assert(s[s.len() - 1] == m);
        assert(s.last() - m == 0);
        assert((s.last() - m) * (s.last() - m) == 0) by (nonlinear_arith)
            requires
                s.last() - m == 0;
    }
}

/// On a constant series the deviation vanishes, so the detector labels
/// every point growth.
pub proof fn lemma_constant_series_all_growth(s: Seq<i64>, w: int, c_ppm: int, vol_ppm: int)
    requires
        forall|i: int, j: int| 0 <= i < s.len() && 0 <= j < s.len() ==> #[trigger] s[i]
            == #[trigger] s[j],
    ensures
        regime_labels_spec(s, w, c_ppm, vol_ppm) == Seq::new(s.len(), |i: int| 0u8),
{
    if s.len() == 0 {
        assert(std_of(s) == 0) by {
            crate::fixed::lemma_sqrt_floor_is(0, 0);
        }
    } else {
        let v = s[0];
        assert(forall|i: int| 0 <= i < s.len() ==> #[trigger] s[i] == v);
        lemma_const_sum(s, v);
        vstd::arithmetic::div_mod::lemma_div_multiples_vanish(v as int, s.len() as int);
        assert(s.len() * v == (s.len() as int) * (v as int));
        assert(mean_of(s) == v);
        lemma_const_sq_dev(s, v as int);
        vstd::arithmetic::div_mod::lemma_div_multiples_vanish(0, s.len() as int);
        assert((s.len() as int) * 0 == 0);
        assert(crate::calculations::variance_of(s) == 0);
        assert(std_of(s) == 0) by {
            crate::fixed::lemma_sqrt_floor_is(0, 0);
        }
    }
}

} // verus!
