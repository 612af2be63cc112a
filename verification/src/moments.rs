//! Return-moment summary: arithmetic and geometric means, deviation,
//! skewness and kurtosis of a return series on the ppm grid.

use vstd::prelude::*;

verus! {

use crate::calculations::{mean_of, sq_dev_sum, seq_sum, stats_of_range, std_of, variance_of};
use crate::fixed::{clamp_spec, floor_div_i128, lemma_div_within, sat_to_i64};
use crate::SCALE;
use vstd::arithmetic::div_mod::{lemma_div_is_ordered, lemma_div_multiples_vanish};

/// The compounded-product accumulator saturates at this many ppm.
pub const GEO_CAP_PPM: i64 = 1_000_000_000_000_000_000;

/// Geometric-mean factors are searched for below this grid point.
pub const GEO_FACTOR_HI_PPM: i64 = 400_000_000;

#[derive(Clone, Copy, Debug)]
pub struct ReturnMoments {
    pub arithmetic_mean: i64,
    pub geometric_mean: i64,
    pub std_dev: i64,
    pub skewness: i64,
    pub kurtosis: i64,
}

/// One saturated compounding step of the product accumulator.
pub open spec fn geo_step_spec(x: int, f: int) -> int {
    clamp_spec((x * f) / (SCALE as int), 0, GEO_CAP_PPM as int)
}

/// A return's growth factor, floored at one ten-thousandth.
pub open spec fn geo_factor_spec(v: int) -> int {
    if SCALE + v < 100 {
        100
    } else {
        SCALE + v
    }
}

/// The saturated product of all the series' growth factors.
pub open spec fn geo_acc_spec(s: Seq<i64>) -> int
    decreases s.len(),
{
    if s.len() == 0 {
        SCALE as int
    } else {
        geo_step_spec(geo_acc_spec(s.drop_last()), geo_factor_spec(s.last() as int))
    }
}

/// A constant factor compounded `k` times, saturated the same way.
pub open spec fn pow_cap_spec(g: int, k: nat) -> int
    decreases k,
{
    if k == 0 {
        SCALE as int
    } else {
        geo_step_spec(pow_cap_spec(g, (k - 1) as nat), g)
    }
}

/// `g` is the geometric-mean factor of a series of length `n` with
/// saturated product `acc`: the greatest searched grid point whose
/// compounding does not overshoot the product.
pub open spec fn brackets_geo(acc: int, n: nat, g: int) -> bool {
    &&& 0 <= g <= GEO_FACTOR_HI_PPM
    &&& pow_cap_spec(g, n) <= acc
    &&& (g == GEO_FACTOR_HI_PPM || pow_cap_spec(g + 1, n) > acc)
}

pub open spec fn geo_mean_factor_spec(acc: int, n: nat) -> int {
    choose|g: int| brackets_geo(acc, n, g)
}

proof fn lemma_pow_cap_monotone(g1: int, g2: int, k: nat)
    requires
        0 <= g1 <= g2,
    ensures
        0 <= pow_cap_spec(g1, k) <= pow_cap_spec(g2, k),
    decreases k,
{
    if k > 0 {
        lemma_pow_cap_monotone(g1, g2, (k - 1) as nat);
        let a1 = pow_cap_spec(g1, (k - 1) as nat);
        let a2 = pow_cap_spec(g2, (k - 1) as nat);
        assert(a1 * g1 <= a2 * g2 && 0 <= a1 * g1) by (nonlinear_arith)
            requires
                0 <= a1 <= a2,
                0 <= g1 <= g2;
        lemma_div_is_ordered(a1 * g1, a2 * g2, SCALE as int);
        lemma_div_is_ordered(0, a1 * g1, SCALE as int);
    }
}

/// The bracketing property pins the geometric-mean factor down.
pub proof fn lemma_geo_factor_unique(acc: int, n: nat, g: int)
    requires
        brackets_geo(acc, n, g),
    ensures
        geo_mean_factor_spec(acc, n) == g,
{
    let w = choose|g2: int| brackets_geo(acc, n, g2);
    assert(brackets_geo(acc, n, w));
    if w < g {
        lemma_pow_cap_monotone(w + 1, g, n);
    }
    if g < w {
        lemma_pow_cap_monotone(g + 1, w, n);
    }
}

/// The squared deviation scaled back to the ppm grid.
pub open spec fn e_dev_spec(d: int) -> int {
    (d * d) / (SCALE as int)
}

/// The sum of third-power deviations, on the ppm^2 grid.
pub open spec fn cube_sum_spec(s: Seq<i64>, mean: int) -> int
    decreases s.len(),
{
    if s.len() == 0 {
        0
    } else {
        cube_sum_spec(s.drop_last(), mean) + e_dev_spec(s.last() - mean) * (s.last() - mean)
    }
}

/// The sum of fourth-power deviations, on the ppm^2 grid squared.
pub open spec fn quad_sum_spec(s: Seq<i64>, mean: int) -> int
    decreases s.len(),
{
    if s.len() == 0 {
        0
    } else {
        quad_sum_spec(s.drop_last(), mean) + e_dev_spec(s.last() - mean) * e_dev_spec(
            s.last() - mean,
        )
    }
}

/// Skewness `m3 / std^3` on the ppm grid; zero when the deviation
/// degenerates on the grid.
pub open spec fn skewness_spec(s: Seq<i64>) -> int {
    let sc = SCALE as int;
    let std = std_of(s);
    if s.len() == 0 || std == 0 {
        0
    } else {
        let m3 = cube_sum_spec(s, mean_of(s)) / (s.len() as int);
        let s2 = (std * std) / sc;
        let s3 = (s2 * std) / sc;
        if s3 > 0 {
            (m3 * sc) / s3
        } else {
            0
        }
    }
}

/// Kurtosis `m4 / std^4` on the ppm grid; three when the deviation
/// degenerates on the grid.
pub open spec fn kurtosis_spec(s: Seq<i64>) -> int {
    let sc = SCALE as int;
    let std = std_of(s);
    if s.len() == 0 || std == 0 {
        3 * sc
    } else {
        let m4 = quad_sum_spec(s, mean_of(s)) / (s.len() as int);
        let s2 = (std * std) / sc;
        if s2 > 0 {
            (m4 * sc) / (s2 * s2)
        } else {
            3 * sc
        }
    }
}

proof fn lemma_cube_quad_bounds(s: Seq<i64>, mean: int)
    requires
        -400_000_000 <= mean <= 400_000_000,
        forall|i: int| 0 <= i < s.len() ==> -400_000_000 <= #[trigger] s[i] <= 400_000_000,
    ensures
        -(s.len() * 600_000_000_000_000_000_000int) <= cube_sum_spec(s, mean) <= s.len()
            * 600_000_000_000_000_000_000int,
        0 <= quad_sum_spec(s, mean) <= s.len() * 500_000_000_000_000_000_000_000int,
    decreases s.len(),
{
    if s.len() > 0 {
        lemma_cube_quad_bounds(s.drop_last(), mean);
        let d = s.last() - mean;
        assert(0 <= d * d <= 640_000_000_000_000_000int) by (nonlinear_arith)
            requires
                -800_000_000 <= d <= 800_000_000;
        lemma_div_is_ordered(0, d * d, SCALE as int);
        lemma_div_within(d * d, SCALE as int, 640_000_000_000);
        let e = e_dev_spec(d);
        assert(-600_000_000_000_000_000_000int <= e * d <= 600_000_000_000_000_000_000int)
            by (nonlinear_arith)
            requires
                0 <= e <= 640_000_000_000,
                -800_000_000 <= d <= 800_000_000;
        assert(0 <= e * e <= 500_000_000_000_000_000_000_000int) by (nonlinear_arith)
            requires
                0 <= e <= 640_000_000_000;
        assert((s.len() - 1) * 600_000_000_000_000_000_000int + 600_000_000_000_000_000_000int
            == s.len() * 600_000_000_000_000_000_000int) by (nonlinear_arith);
        assert((s.len() - 1) * 500_000_000_000_000_000_000_000int
            + 500_000_000_000_000_000_000_000int == s.len()
            * 500_000_000_000_000_000_000_000int) by (nonlinear_arith);
    }
}

/// Evaluate `pow_cap_spec` at a candidate factor.
fn pow_cap(g: i64, n: usize) -> (r: i64)
    requires
        0 <= g <= GEO_FACTOR_HI_PPM,
        n <= 10_000,
    ensures
        r == pow_cap_spec(g as int, n as nat),
        0 <= r <= GEO_CAP_PPM,
{
    let mut x: i64 = SCALE;
    let mut k: usize = 0;
    while k < n
        invariant
            k <= n,
            0 <= g <= GEO_FACTOR_HI_PPM,
            x == pow_cap_spec(g as int, k as nat),
            0 <= x <= GEO_CAP_PPM,
        decreases n - k,
    {
        proof {
            assert(0 <= x as int * g as int <= 400_000_000_000_000_000_000_000_000int)
                by (nonlinear_arith)
                requires
                    0 <= x <= 1_000_000_000_000_000_000,
                    0 <= g <= 400_000_000;
        }
        let wide: i128 = (x as i128) * (g as i128);
        let q: i128 = floor_div_i128(wide, SCALE as i128);
        x = if q < 0 {
            0
        } else if q > GEO_CAP_PPM as i128 {
            GEO_CAP_PPM
        } else {
            q as i64
        };
        k += 1;
    }
    x
}

/// Summarize a return series into its five moments. Skewness and
/// kurtosis saturate at the i64 range ends.
pub fn summarize_return_moments(values: &Vec<i64>) -> (r: ReturnMoments)
    requires
        values@.len() <= crate::structs::HISTORY_LEN_CAP,
        forall|i: int| 0 <= i < values@.len() ==> -400_000_000 <= #[trigger] values@[i]
            <= 400_000_000,
    ensures
        r.arithmetic_mean == mean_of(values@),
        r.std_dev == std_of(values@),
        values@.len() == 0 ==> r.geometric_mean == 0,
        values@.len() > 0 ==> r.geometric_mean + SCALE == geo_mean_factor_spec(
            geo_acc_spec(values@),
            values@.len(),
        ),
        values@.len() > 0 ==> brackets_geo(
            geo_acc_spec(values@),
            values@.len(),
            r.geometric_mean + SCALE,
        ),
        r.skewness == clamp_spec(skewness_spec(values@), i64::MIN as int, i64::MAX as int),
        r.kurtosis == clamp_spec(kurtosis_spec(values@), i64::MIN as int, i64::MAX as int),
{
    let n = values.len();
    if n == 0 {
        proof {
            crate::fixed::lemma_sqrt_floor_is(0, 0);
        }
        return ReturnMoments {
            arithmetic_mean: 0,
            geometric_mean: 0,
            std_dev: 0,
            skewness: 0,
            kurtosis: 3 * SCALE,
        };
    }
    let stats = stats_of_range(values, 0, n);
    let mean = stats.0;
    let std = stats.1;
    proof {
        assert(values@.subrange(0, n as int) =~= values@);
    }

    // saturated product of growth factors
    let mut acc: i64 = SCALE;
    let mut i: usize = 0;
    proof {
        assert(values@.subrange(0, 0) =~= Seq::<i64>::empty());
    }
    while i < n
        invariant
            i <= n,
            n == values@.len(),
            forall|k: int| 0 <= k < values@.len() ==> -400_000_000 <= #[trigger] values@[k]
                <= 400_000_000,
            acc == geo_acc_spec(values@.subrange(0, i as int)),
            0 <= acc <= GEO_CAP_PPM,
        decreases n - i,
    {
        let v = values[i];
        let f: i64 = if SCALE + v < 100 {
            100
        } else {
            SCALE + v
        };
        proof {
            assert(0 <= acc as int * f as int <= 401_000_000_000_000_000_000_000_000int)
                by (nonlinear_arith)
                requires
                    0 <= acc <= 1_000_000_000_000_000_000,
                    0 <= f <= 401_000_000;
        }
        let wide: i128 = (acc as i128) * (f as i128);
        let q: i128 = floor_div_i128(wide, SCALE as i128);
        let next: i64 = if q < 0 {
            0
        } else if q > GEO_CAP_PPM as i128 {
            GEO_CAP_PPM
        } else {
            q as i64
        };
        proof {
            assert(values@.subrange(0, i as int + 1).drop_last() =~= values@.subrange(
                0,
                i as int,
            ));
            assert(values@.subrange(0, i as int + 1).last() == values@[i as int]);
        }
        acc = next;
        i += 1;
    }
    proof {
        assert(values@.subrange(0, n as int) =~= values@);
    }

    // greatest factor whose compounding does not overshoot the product
    let mut lo: i64 = 0;
    let mut hi: i64 = GEO_FACTOR_HI_PPM;
    proof {
        lemma_pow_cap_zero(n as nat);
    }
    while lo < hi
        invariant
            0 <= lo <= hi <= GEO_FACTOR_HI_PPM,
            n == values@.len(),
            1 <= n <= 10_000,
            0 <= acc <= GEO_CAP_PPM,
            acc == geo_acc_spec(values@),
            pow_cap_spec(lo as int, n as nat) <= acc as int,
            hi == GEO_FACTOR_HI_PPM || pow_cap_spec(hi as int + 1, n as nat) > acc as int,
        decreases hi - lo,
    {
        let mid = lo + (hi - lo + 1) / 2;
        let p = pow_cap(mid, n);
        if p <= acc {
            lo = mid;
        } else {
            hi = mid - 1;
        }
    }
    let geometric_mean = lo - SCALE;
    proof {
        lemma_geo_factor_unique(acc as int, n as nat, lo as int);
    }

    if std == 0 {
        return ReturnMoments {
            arithmetic_mean: mean,
            geometric_mean,
            std_dev: 0,
            skewness: 0,
            kurtosis: 3 * SCALE,
        };
    }

    // third- and fourth-power deviation sums
    let mut cube: i128 = 0;
    let mut quad: i128 = 0;
    let mut j: usize = 0;
    proof {
        assert(values@.subrange(0, 0) =~= Seq::<i64>::empty());
    }
    while j < n
        invariant
            j <= n,
            n == values@.len(),
            n <= 10_000,
            -400_000_000 <= mean <= 400_000_000,
            forall|k: int| 0 <= k < values@.len() ==> -400_000_000 <= #[trigger] values@[k]
                <= 400_000_000,
            cube == cube_sum_spec(values@.subrange(0, j as int), mean as int),
            quad == quad_sum_spec(values@.subrange(0, j as int), mean as int),
            -(j as int) * 600_000_000_000_000_000_000int <= cube <= (j as int)
                * 600_000_000_000_000_000_000int,
            0 <= quad <= (j as int) * 500_000_000_000_000_000_000_000int,
        decreases n - j,
    {
        let d: i64 = values[j] - mean;
        proof {
            assert(0 <= d as int * d as int <= 640_000_000_000_000_000int) by (nonlinear_arith)
                requires
                    -800_000_000 <= d <= 800_000_000;
            lemma_div_is_ordered(0, d as int * d as int, SCALE as int);
            lemma_div_within(d as int * d as int, SCALE as int, 640_000_000_000);
        }
        let e: i64 = floor_div_i128((d as i128) * (d as i128), SCALE as i128) as i64;
        proof {
            assert(-600_000_000_000_000_000_000int <= e as int * d as int
                <= 600_000_000_000_000_000_000int && 0 <= e as int * e as int
                <= 500_000_000_000_000_000_000_000int) by (nonlinear_arith)
                requires
                    0 <= e <= 640_000_000_000,
                    -800_000_000 <= d <= 800_000_000;
            assert((j as int) * 600_000_000_000_000_000_000int + 600_000_000_000_000_000_000int
                == (j as int + 1) * 600_000_000_000_000_000_000int) by (nonlinear_arith);
            assert((j as int + 1) * 600_000_000_000_000_000_000int <= 10_000int
                * 600_000_000_000_000_000_000int) by (nonlinear_arith)
                requires
                    j as int + 1 <= 10_000;
            assert((j as int) * 500_000_000_000_000_000_000_000int
                + 500_000_000_000_000_000_000_000int == (j as int + 1)
                * 500_000_000_000_000_000_000_000int) by (nonlinear_arith);
            assert((j as int + 1) * 500_000_000_000_000_000_000_000int <= 10_000int
                * 500_000_000_000_000_000_000_000int) by (nonlinear_arith)
                requires
                    j as int + 1 <= 10_000;
            assert(values@.subrange(0, j as int + 1).drop_last() =~= values@.subrange(
                0,
                j as int,
            ));
            assert(values@.subrange(0, j as int + 1).last() == values@[j as int]);
        }
        cube = cube + (e as i128) * (d as i128);
        quad = quad + (e as i128) * (e as i128);
        j += 1;
    }
    proof {
        assert(values@.subrange(0, n as int) =~= values@);
        assert(-(600_000_000_000_000_000_000int * (n as int)) <= cube <= 600_000_000_000_000_000_000int
            * (n as int)) by (nonlinear_arith)
            requires
                -(n as int) * 600_000_000_000_000_000_000int <= cube as int <= (n as int)
                    * 600_000_000_000_000_000_000int;
        lemma_div_within(cube as int, n as int, 600_000_000_000_000_000_000int);
        lemma_div_is_ordered(0, quad as int, n as int);
        assert(quad as int <= 500_000_000_000_000_000_000_000int * (n as int))
            by (nonlinear_arith)
            requires
                quad as int <= (n as int) * 500_000_000_000_000_000_000_000int;
        lemma_div_within(quad as int, n as int, 500_000_000_000_000_000_000_000int);
    }
    let m3: i128 = floor_div_i128(cube, n as i128);
    let m4: i128 = floor_div_i128(quad, n as i128);
    proof {
        assert(0 <= std as int * std as int <= 10_000_000_000_000_000_000_000int)
            by (nonlinear_arith)
            requires
                0 <= std <= 100_000_000_000;
        lemma_div_is_ordered(0, std as int * std as int, SCALE as int);
        lemma_div_within(std as int * std as int, SCALE as int, 10_000_000_000_000_000);
    }
    let s2: i64 = floor_div_i128((std as i128) * (std as i128), SCALE as i128) as i64;
    proof {
        assert(0 <= s2 as int * std as int <= 1_000_000_000_000_000_000_000_000_000int)
            by (nonlinear_arith)
            requires
                0 <= s2 <= 10_000_000_000_000_000,
                0 <= std <= 100_000_000_000;
        lemma_div_is_ordered(0, s2 as int * std as int, SCALE as int);
        lemma_div_within(s2 as int * std as int, SCALE as int, 1_000_000_000_000_000_000_000int);
    }
    let s3: i128 = floor_div_i128((s2 as i128) * (std as i128), SCALE as i128);
    let skewness: i64 = if s3 > 0 {
        proof {
            assert(-600_000_000_000_000_000_000_000_000int <= m3 as int * SCALE as int
                <= 600_000_000_000_000_000_000_000_000int) by (nonlinear_arith)
                requires
                    -600_000_000_000_000_000_000 <= m3 <= 600_000_000_000_000_000_000,
                    SCALE == 1_000_000;
            assert(-(600_000_000_000_000_000_000_000_000int * s3) <= m3 as int * SCALE as int
                <= 600_000_000_000_000_000_000_000_000int * s3) by (nonlinear_arith)
                requires
                    -600_000_000_000_000_000_000_000_000int <= m3 as int * SCALE as int
                        <= 600_000_000_000_000_000_000_000_000int,
                    s3 >= 1;
            lemma_div_within(
                m3 as int * SCALE as int,
                s3 as int,
                600_000_000_000_000_000_000_000_000int,
            );
        }
        sat_to_i64(floor_div_i128(m3 * (SCALE as i128), s3))
    } else {
        0
    };
    let kurtosis: i64 = if s2 > 0 {
        proof {
            assert(0 <= m4 as int * SCALE as int <= 500_000_000_000_000_000_000_000_000_000int)
                by (nonlinear_arith)
                requires
                    0 <= m4 <= 500_000_000_000_000_000_000_000,
                    SCALE == 1_000_000;
            assert(1 <= s2 as int * s2 as int) by (nonlinear_arith)
                requires
                    1 <= s2;
            assert(s2 as int * s2 as int <= 100_000_000_000_000_000_000_000_000_000_000int)
                by (nonlinear_arith)
                requires
                    1 <= s2 <= 10_000_000_000_000_000;
            assert(m4 as int * SCALE as int <= 500_000_000_000_000_000_000_000_000_000int * (
            s2 as int * s2 as int)) by (nonlinear_arith)
                requires
                    0 <= m4 as int * SCALE as int
                        <= 500_000_000_000_000_000_000_000_000_000int,
                    1 <= s2 as int * s2 as int;
            lemma_div_within(
                m4 as int * SCALE as int,
                s2 as int * s2 as int,
                500_000_000_000_000_000_000_000_000_000int,
            );
        }
        sat_to_i64(floor_div_i128(m4 * (SCALE as i128), (s2 as i128) * (s2 as i128)))
    } else {
        proof {
            assert(clamp_spec(3 * SCALE as int, i64::MIN as int, i64::MAX as int)
                == 3 * SCALE as int);
        }
        3 * SCALE
    };
    ReturnMoments { arithmetic_mean: mean, geometric_mean, std_dev: std, skewness, kurtosis }
}

proof fn lemma_pow_cap_zero(k: nat)
    ensures
        k >= 1 ==> pow_cap_spec(0, k) == 0,
        0 <= pow_cap_spec(0, k) <= SCALE as int,
    decreases k,
{
    if k > 0 {
        lemma_pow_cap_zero((k - 1) as nat);
        let prev = pow_cap_spec(0, (k - 1) as nat);
        assert(prev * 0 == 0);
        lemma_div_multiples_vanish(0, SCALE as int);
        assert((SCALE as int) * 0 == 0);
    }
}

} // verus!
