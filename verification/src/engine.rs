//! Regime-switching primitives and shaped distribution draws on the ppm
//! grid: transition clamping, the stationary growth probability, regime
//! state transitions driven by raw generator words, the Cornish–Fisher
//! polynomial, Student-t scaling, and annual/monthly return conversion.
//!
//! Transcendental inputs (standard-normal scores, chi-square sums) are
//! taken as arguments on the ppm grid; the host produces them.

use vstd::prelude::*;

verus! {

use crate::SCALE;
use crate::fixed::{
    clamp, clamp_spec, floor_div_i128, is_sqrt_floor, isqrt_u128, lemma_div_within,
    lemma_sqrt_floor_is, sqrt_floor,
};
use crate::rng::{is_word_below_ppm, m32_next, m32_output, word_below_ppm, RandomSource};
use vstd::arithmetic::div_mod::{lemma_div_is_ordered, lemma_div_multiples_vanish};

pub const MIN_TRANSITION_PPM: i64 = 1_000;

pub const MAX_TRANSITION_PPM: i64 = 999_000;

pub const ANNUAL_RETURN_MIN_PPM: i64 = -950_000;

pub const ANNUAL_RETURN_MAX_PPM: i64 = 1_200_000;

pub const MONTHLY_RETURN_MIN_PPM: i64 = -600_000;

pub const MONTHLY_RETURN_MAX_PPM: i64 = 600_000;

/// Shaped scores handed in by the host are capped at one hundred sigma.
pub const Z_SCORE_CAP_PPM: i64 = 100_000_000;

/// Moment inputs (means, deviations, rates) are capped at a factor of ten.
pub const RATE_CAP_PPM: i64 = 10_000_000;

/// `sqrt(12)` on the ppm grid.
pub const SQRT12_PPM: i64 = 3_464_101;

/// Shaped-draw means and deviations may reach twice the input rate cap.
pub const SHAPED_MEAN_CAP_PPM: i64 = 20_000_000;

/// Every shaped monthly draw stays within this many ppm.
pub const SHAPED_DRAW_BOUND_PPM: i64 = 6_000_000_000_000;

/// The two-state Markov model of market regimes, on the ppm grid.
#[derive(Clone, Copy, Debug)]
pub struct RegimeModel {
    pub stay_growth: i64,
    pub stay_crisis: i64,
    pub growth_mean: i64,
    pub growth_std: i64,
    pub crisis_mean: i64,
    pub crisis_std: i64,
}

/// Transition probabilities are always kept inside [0.001, 0.999].
pub fn clamp_transition_probability(value: i64) -> (r: i64)
    ensures
        r == clamp_spec(value as int, MIN_TRANSITION_PPM as int, MAX_TRANSITION_PPM as int),
        MIN_TRANSITION_PPM <= r <= MAX_TRANSITION_PPM,
{
    clamp(value, MIN_TRANSITION_PPM, MAX_TRANSITION_PPM)
}

/// The long-run share of time spent in the growth regime:
/// `(1 - stayCrisis) / (2 - stayGrowth - stayCrisis)`, with one half
/// returned when the denominator vanishes.
pub open spec fn stationary_growth_spec(sg: int, sc: int) -> int {
    let denom = 2 * SCALE - sg - sc;
    if denom <= 0 {
        500_000
    } else {
        ((SCALE - sc) * SCALE) / denom
    }
}

/// Stationary-probability identity: whenever the two stay probabilities
/// do not sum to two, the growth share lies in the unit interval
/// (here `[0, SCALE]` on the ppm grid).
pub proof fn lemma_stationary_probability_in_unit_range(sg: int, sc: int)
    requires
        0 <= sg <= SCALE,
        0 <= sc <= SCALE,
        sg + sc < 2 * SCALE,
    ensures
        0 <= stationary_growth_spec(sg, sc) <= SCALE,
{
    let denom = 2 * SCALE - sg - sc;
    let num = (SCALE - sc) * SCALE;
    assert(0 <= num && num <= denom * SCALE) by (nonlinear_arith)
        requires
            num == (SCALE as int - sc) * (SCALE as int),
            0 <= sc <= SCALE as int,
            0 < denom,
            SCALE as int - sc <= denom,
            SCALE == 1_000_000;
    lemma_div_is_ordered(0, num, denom);
    lemma_div_is_ordered(num, denom * SCALE, denom);
    lemma_div_multiples_vanish(SCALE as int, denom);
}

pub fn get_growth_stationary_probability(stay_growth: i64, stay_crisis: i64) -> (r: i64)
    requires
        0 <= stay_growth <= SCALE,
        0 <= stay_crisis <= SCALE,
    ensures
        r == stationary_growth_spec(stay_growth as int, stay_crisis as int),
        0 <= r <= SCALE,
{
    let denom: i64 = 2 * SCALE - stay_growth - stay_crisis;
    if denom <= 0 {
        500_000
    } else {
        proof {
            lemma_stationary_probability_in_unit_range(stay_growth as int, stay_crisis as int);
        }
        let q = floor_div_i128(
            ((SCALE - stay_crisis) as i128) * (SCALE as i128),
            denom as i128,
        );
        q as i64
    }
}

/// The initial regime drawn from the clamped stationary probability.
pub open spec fn initial_regime_spec(sg: int, sc: int, word: u32) -> u8 {
    let p = clamp_spec(
        stationary_growth_spec(sg, sc),
        MIN_TRANSITION_PPM as int,
        MAX_TRANSITION_PPM as int,
    );
    if word_below_ppm(word, p) {
        0u8
    } else {
        1u8
    }
}

pub fn initial_regime_state(stay_growth: i64, stay_crisis: i64, rng: &mut RandomSource) -> (r: u8)
    requires
        0 <= stay_growth <= SCALE,
        0 <= stay_crisis <= SCALE,
    ensures
        final(rng).state == m32_next(old(rng).state),
        r == initial_regime_spec(
            stay_growth as int,
            stay_crisis as int,
            m32_output(final(rng).state),
        ),
        r == 0 || r == 1,
{
    let p = clamp_transition_probability(
        get_growth_stationary_probability(stay_growth, stay_crisis),
    );
    let w = rng.random();
    if is_word_below_ppm(w, p) {
        0
    } else {
        1
    }
}

/// One Markov step: stay with the current regime's stay probability.
pub open spec fn transition_regime_spec(current: u8, sg: int, sc: int, word: u32) -> u8 {
    if current == 0 {
        if word_below_ppm(word, sg) {
            0u8
        } else {
            1u8
        }
    } else {
        if word_below_ppm(word, sc) {
            1u8
        } else {
            0u8
        }
    }
}

pub fn transition_regime_state(
    current_state: u8,
    stay_growth: i64,
    stay_crisis: i64,
    rng: &mut RandomSource,
) -> (r: u8)
    requires
        0 <= stay_growth,
        0 <= stay_crisis,
    ensures
        final(rng).state == m32_next(old(rng).state),
        r == transition_regime_spec(
            current_state,
            stay_growth as int,
            stay_crisis as int,
            m32_output(final(rng).state),
        ),
        r == 0 || r == 1,
{
    let w = rng.random();
    if current_state == 0 {
        if is_word_below_ppm(w, stay_growth) {
            0
        } else {
            1
        }
    } else {
        if is_word_below_ppm(w, stay_crisis) {
            1
        } else {
            0
        }
    }
}

/// The Cornish–Fisher expansion applied to a standard score `z`:
/// `z + (s/6)(z^2-1) + (k/24)(z^3-3z) - (s^2/36)(2z^3-5z)`
/// with the skew bounded to `[-1.5, 1.5]` and the excess kurtosis
/// clamped to `[0, 8]`, all on the ppm grid with floor division.
pub open spec fn cornish_fisher_spec(z: int, skewness: int, kurtosis: int) -> int {
    let sc = SCALE as int;
    let excess = clamp_spec(kurtosis - 3 * sc, 0, 8 * sc);
    let bs = clamp_spec(skewness, -1_500_000, 1_500_000);
    let z2 = (z * z) / sc;
    let z3 = (z2 * z) / sc;
    let skew_term = (bs * (z2 - sc)) / (6 * sc);
    let kurt_term = (excess * (z3 - 3 * z)) / (24 * sc);
    let bs2 = (bs * bs) / sc;
    let skew_sq_term = (bs2 * (2 * z3 - 5 * z)) / (36 * sc);
    z + skew_term + kurt_term - skew_sq_term
}

/// With no skew and no excess kurtosis the expansion is the identity.
pub proof fn lemma_cornish_fisher_reduces_to_z(z: int, skewness: int, kurtosis: int)
    requires
        skewness == 0,
        kurtosis <= 3 * SCALE,
    ensures
        cornish_fisher_spec(z, skewness, kurtosis) == z,
{
    let sc = SCALE as int;
    let z2 = (z * z) / sc;
    let z3 = (z2 * z) / sc;
    lemma_div_multiples_vanish(0, 6 * sc);
    lemma_div_multiples_vanish(0, 24 * sc);
    lemma_div_multiples_vanish(0, 36 * sc);
    lemma_div_multiples_vanish(0, sc);
    assert(0 * (z2 - sc) == (6 * sc) * 0);
    assert(clamp_spec(kurtosis - 3 * sc, 0, 8 * sc) == 0);
    assert(0 * (z3 - 3 * z) == (24 * sc) * 0);
    assert(0 * 0 == sc * 0);
    assert((0int * 0) / sc == 0);
    assert(0 * (2 * z3 - 5 * z) == (36 * sc) * 0);
}

pub fn draw_cornish_fisher_score(z: i64, skewness: i64, kurtosis: i64) -> (r: i64)
    requires
        -Z_SCORE_CAP_PPM <= z <= Z_SCORE_CAP_PPM,
    ensures
        r == cornish_fisher_spec(z as int, skewness as int, kurtosis as int),
        -1_000_000_000_000 <= r <= 1_000_000_000_000,
        skewness == 0 && kurtosis <= 3 * SCALE ==> r == z,
{
    let sc_w: i128 = SCALE as i128;
    let excess_w: i128 = (kurtosis as i128) - 3 * sc_w;
    let excess: i64 = if excess_w < 0 {
        0
    } else if excess_w > 8 * sc_w {
        8 * SCALE
    } else {
        excess_w as i64
    };
    let bs: i64 = clamp(skewness, -1_500_000, 1_500_000);

    proof {
        assert(0 <= z as int * z as int <= 10_000_000_000_000_000int) by (nonlinear_arith)
            requires
                -100_000_000 <= z <= 100_000_000;
        lemma_div_within(z as int * z as int, SCALE as int, 10_000_000_000);
        lemma_div_is_ordered(0, z as int * z as int, SCALE as int);
    }
    let z2: i64 = floor_div_i128((z as i128) * (z as i128), sc_w) as i64;
    proof {
        assert(-1_000_000_000_000_000_000int <= z2 as int * z as int
            <= 1_000_000_000_000_000_000int) by (nonlinear_arith)
            requires
                0 <= z2 <= 10_000_000_000,
                -100_000_000 <= z <= 100_000_000;
        lemma_div_within(z2 as int * z as int, SCALE as int, 1_000_000_000_000);
    }
    let z3: i64 = floor_div_i128((z2 as i128) * (z as i128), sc_w) as i64;

    proof {
        assert(-18_000_000_000_000_000int <= bs as int * (z2 - SCALE)
            <= 18_000_000_000_000_000int) by (nonlinear_arith)
            requires
                -1_500_000 <= bs <= 1_500_000,
                0 <= z2 <= 10_000_000_000,
                SCALE == 1_000_000;
        lemma_div_within(bs as int * (z2 - SCALE), 6 * SCALE as int, 3_000_000_000);
    }
    let skew_term: i64 = floor_div_i128(
        (bs as i128) * ((z2 as i128) - sc_w),
        6 * sc_w,
    ) as i64;

    proof {
        assert(-9_600_000_000_000_000_000int <= excess as int * (z3 - 3 * z)
            <= 9_600_000_000_000_000_000int) by (nonlinear_arith)
            requires
                0 <= excess <= 8_000_000,
                -1_000_000_000_000 <= z3 <= 1_000_000_000_000,
                -100_000_000 <= z <= 100_000_000;
        lemma_div_within(excess as int * (z3 - 3 * z), 24 * SCALE as int, 400_000_000_000);
    }
    let kurt_term: i64 = floor_div_i128(
        (excess as i128) * ((z3 as i128) - 3 * (z as i128)),
        24 * sc_w,
    ) as i64;

    proof {
        assert(0 <= bs as int * bs as int <= 3_000_000_000_000int) by (nonlinear_arith)
            requires
                -1_500_000 <= bs <= 1_500_000;
        lemma_div_within(bs as int * bs as int, SCALE as int, 3_000_000);
        lemma_div_is_ordered(0, bs as int * bs as int, SCALE as int);
    }
    let bs2: i64 = floor_div_i128((bs as i128) * (bs as i128), sc_w) as i64;
    proof {
        assert(-7_200_000_000_000_000_000int <= bs2 as int * (2 * z3 - 5 * z)
            <= 7_200_000_000_000_000_000int) by (nonlinear_arith)
            requires
                0 <= bs2 <= 3_000_000,
                -1_000_000_000_000 <= z3 <= 1_000_000_000_000,
                -100_000_000 <= z <= 100_000_000;
        lemma_div_within(bs2 as int * (2 * z3 - 5 * z), 36 * SCALE as int, 200_000_000_000);
    }
    let skew_sq_term: i64 = floor_div_i128(
        (bs2 as i128) * (2 * (z3 as i128) - 5 * (z as i128)),
        36 * sc_w,
    ) as i64;

    let r = z + skew_term + kurt_term - skew_sq_term;
    proof {
        if skewness == 0 && kurtosis <= 3 * SCALE {
            lemma_cornish_fisher_reduces_to_z(z as int, skewness as int, kurtosis as int);
        }
    }
    r
}

/// A shaped monthly draw: annual moments scaled to monthly units, the
/// Cornish–Fisher score applied to the monthly deviation.
pub open spec fn monthly_shaped_spec(
    annual_mean: int,
    annual_std: int,
    skewness: int,
    kurtosis: int,
    z: int,
) -> int {
    let sc = SCALE as int;
    let monthly_mean = annual_mean / 12;
    let monthly_std = (annual_std * sc) / (SQRT12_PPM as int);
    monthly_mean + (monthly_std * cornish_fisher_spec(z, skewness, kurtosis)) / sc
}

pub fn draw_monthly_return_shaped(
    annual_mean: i64,
    annual_std: i64,
    skewness: i64,
    kurtosis: i64,
    z: i64,
) -> (r: i64)
    requires
        -SHAPED_MEAN_CAP_PPM <= annual_mean <= SHAPED_MEAN_CAP_PPM,
        0 <= annual_std <= SHAPED_MEAN_CAP_PPM,
        -Z_SCORE_CAP_PPM <= z <= Z_SCORE_CAP_PPM,
    ensures
        r == monthly_shaped_spec(
            annual_mean as int,
            annual_std as int,
            skewness as int,
            kurtosis as int,
            z as int,
        ),
        -SHAPED_DRAW_BOUND_PPM <= r <= SHAPED_DRAW_BOUND_PPM,
{
    proof {
        lemma_div_within(annual_mean as int, 12, 1_666_667);
    }
    let monthly_mean: i64 = floor_div_i128(annual_mean as i128, 12) as i64;
    proof {
        assert(5_780_000int * 3_464_101int >= 20_000_000_000_000int) by (nonlinear_arith);
        lemma_div_within(annual_std as int * SCALE as int, SQRT12_PPM as int, 5_780_000);
        lemma_div_is_ordered(0, annual_std as int * SCALE as int, SQRT12_PPM as int);
    }
    let monthly_std: i64 = floor_div_i128(
        (annual_std as i128) * (SCALE as i128),
        SQRT12_PPM as i128,
    ) as i64;
    let score = draw_cornish_fisher_score(z, skewness, kurtosis);
    proof {
        assert(-5_780_000_000_000_000_000int <= monthly_std as int * score as int
            <= 5_780_000_000_000_000_000int) by (nonlinear_arith)
            requires
                0 <= monthly_std <= 5_780_000,
                -1_000_000_000_000 <= score <= 1_000_000_000_000;
        lemma_div_within(monthly_std as int * score as int, SCALE as int, 5_780_000_000_000);
    }
    let shaped: i64 = floor_div_i128((monthly_std as i128) * (score as i128), SCALE as i128) as i64;
    monthly_mean + shaped
}

/// A Student-t score built from a standard score and a chi-square sum:
/// `z / sqrt(chiSquare / df)`, zero when the chi-square sum rounds to
/// nothing on the grid.
pub open spec fn student_t_spec(z: int, chi_square: int, df: int) -> int {
    let scaled = (chi_square * SCALE) / df;
    let s = sqrt_floor(scaled);
    if s == 0 {
        0
    } else {
        (z * SCALE) / s
    }
}

pub fn draw_student_t(z: i64, chi_square: i64, df: u32) -> (r: i64)
    requires
        1 <= df,
        0 <= chi_square,
        -Z_SCORE_CAP_PPM <= z <= Z_SCORE_CAP_PPM,
    ensures
        r == student_t_spec(z as int, chi_square as int, df as int),
        -100_000_000_000_000 <= r <= 100_000_000_000_000,
{
    proof {
        lemma_div_is_ordered(0, chi_square as int * SCALE as int, df as int);
        vstd::arithmetic::div_mod::lemma_div_is_ordered_by_denominator(
            chi_square as int * SCALE as int,
            1,
            df as int,
        );
        lemma_div_multiples_vanish(chi_square as int * SCALE as int, 1);
        assert(1 * (chi_square as int * SCALE as int) == chi_square as int * SCALE as int);
    }
    let scaled: i128 = floor_div_i128((chi_square as i128) * (SCALE as i128), df as i128);
    let s: u64 = isqrt_u128(scaled as u128);
    proof {
        lemma_sqrt_floor_is(scaled as int, s as int);
    }
    if s == 0 {
        0
    } else {
        proof {
            assert(-100_000_000_000_000int * s as int <= z as int * SCALE as int
                <= 100_000_000_000_000int * s as int) by (nonlinear_arith)
                requires
                    -100_000_000 <= z <= 100_000_000,
                    1 <= s,
                    SCALE == 1_000_000;
            lemma_div_within(z as int * SCALE as int, s as int, 100_000_000_000_000);
        }
        floor_div_i128((z as i128) * (SCALE as i128), s as i128) as i64
    }
}

/// Student-t degrees of freedom implied by a kurtosis:
/// 40 for nearly-normal tails, else `4 + 6/excess` clamped to `[5, 60]`.
pub open spec fn student_t_df_spec(kurtosis: int) -> int {
    let excess = if kurtosis - 3 * SCALE > 0 {
        kurtosis - 3 * SCALE
    } else {
        0
    };
    if excess < 50_000 {
        40 * SCALE
    } else {
        clamp_spec(4 * SCALE + 6_000_000_000_000int / excess, 5 * SCALE, 60 * SCALE)
    }
}

pub fn student_t_degrees_from_kurtosis(kurtosis: i64) -> (r: i64)
    ensures
        r == student_t_df_spec(kurtosis as int),
        5 * SCALE <= r <= 60 * SCALE,
{
    let excess_w: i128 = (kurtosis as i128) - 3 * (SCALE as i128);
    let excess: i64 = if excess_w > 0 {
        excess_w as i64
    } else {
        0
    };
    if excess < 50_000 {
        40 * SCALE
    } else {
        proof {
            lemma_div_is_ordered(0, 6_000_000_000_000int, excess as int);
            lemma_div_within(6_000_000_000_000int, excess as int, 6_000_000_000_000);
        }
        let implied: i64 = 4 * SCALE + floor_div_i128(6_000_000_000_000i128, excess as i128) as i64;
        clamp(implied, 5 * SCALE, 60 * SCALE)
    }
}

/// Annual returns used anywhere are clamped to [-0.95, +1.20].
pub fn clamp_annual_return(value: i64) -> (r: i64)
    ensures
        r == clamp_spec(value as int, ANNUAL_RETURN_MIN_PPM as int, ANNUAL_RETURN_MAX_PPM as int),
        ANNUAL_RETURN_MIN_PPM <= r <= ANNUAL_RETURN_MAX_PPM,
{
    clamp(value, ANNUAL_RETURN_MIN_PPM, ANNUAL_RETURN_MAX_PPM)
}

/// Monthly returns used anywhere are clamped to [-0.60, +0.60].
pub fn clamp_monthly_return(value: i64) -> (r: i64)
    ensures
        r == clamp_spec(value as int, MONTHLY_RETURN_MIN_PPM as int, MONTHLY_RETURN_MAX_PPM as int),
        MONTHLY_RETURN_MIN_PPM <= r <= MONTHLY_RETURN_MAX_PPM,
{
    clamp(value, MONTHLY_RETURN_MIN_PPM, MONTHLY_RETURN_MAX_PPM)
}

/// Twelve-fold compounding of a monthly growth factor on the ppm grid.
pub open spec fn pow12_spec(f: int, k: nat) -> int
    decreases k,
{
    if k == 0 {
        SCALE as int
    } else {
        (pow12_spec(f, (k - 1) as nat) * f) / (SCALE as int)
    }
}

proof fn lemma_pow12_monotone(f1: int, f2: int, k: nat)
    requires
        0 <= f1 <= f2,
    ensures
        0 <= pow12_spec(f1, k) <= pow12_spec(f2, k),
    decreases k,
{
    if k > 0 {
        lemma_pow12_monotone(f1, f2, (k - 1) as nat);
        let a1 = pow12_spec(f1, (k - 1) as nat);
        let a2 = pow12_spec(f2, (k - 1) as nat);
        assert(0 <= a1 * f1 <= a2 * f2) by (nonlinear_arith)
            requires
                0 <= a1 <= a2,
                0 <= f1 <= f2;
        lemma_div_is_ordered(a1 * f1, a2 * f2, SCALE as int);
        lemma_div_is_ordered(0, a1 * f1, SCALE as int);
    }
}

/// Compounding a factor of at least one for a year keeps it at least
/// as large as itself.
proof fn lemma_pow12_at_least_linear(f: int, k: nat)
    requires
        SCALE <= f,
        1 <= k,
    ensures
        pow12_spec(f, k) >= f,
    decreases k,
{
    let sc = SCALE as int;
    if k == 1 {
        assert((sc * f) / sc == f) by {
            lemma_div_multiples_vanish(f, sc);
        }
        assert(pow12_spec(f, 0) == sc);
    } else {
        lemma_pow12_at_least_linear(f, (k - 1) as nat);
        let x = pow12_spec(f, (k - 1) as nat);
        assert(x * f >= x * sc) by (nonlinear_arith)
            requires
                x >= 0,
                f >= sc,
                sc >= 1;
        lemma_div_is_ordered(x * sc, x * f, sc);
        assert((x * sc) / sc == x) by {
            lemma_div_multiples_vanish(x, sc);
            assert(x * sc == sc * x);
        }
    }
}

/// One compounding step with bounds that let twelve steps chain.
fn pow_step(x: i64, f: i64) -> (r: i64)
    requires
        0 <= x <= 600_000_000_000,
        0 <= f <= 2_400_001,
    ensures
        r == (x * f) / (SCALE as int),
        0 <= r <= 3 * x,
{
    proof {
        lemma_div_is_ordered(0, x as int * f as int, SCALE as int);
        assert(x as int * f as int <= (3 * x as int) * SCALE as int) by (nonlinear_arith)
            requires
                0 <= x,
                0 <= f <= 2_400_001,
                SCALE == 1_000_000;
        lemma_div_is_ordered(x as int * f as int, (3 * x as int) * SCALE as int, SCALE as int);
        lemma_div_multiples_vanish(3 * x as int, SCALE as int);
        assert((3 * x as int) * SCALE as int == SCALE as int * (3 * x as int));
    }
    floor_div_i128((x as i128) * (f as i128), SCALE as i128) as i64
}

/// Exact evaluation of `pow12_spec` at a candidate monthly factor.
pub fn pow12_ppm(f: i64) -> (r: i64)
    requires
        0 <= f <= 2_400_001,
    ensures
        r == pow12_spec(f as int, 12),
        0 <= r,
{
    let x1 = pow_step(SCALE, f);
    let x2 = pow_step(x1, f);
    let x3 = pow_step(x2, f);
    let x4 = pow_step(x3, f);
    let x5 = pow_step(x4, f);
    let x6 = pow_step(x5, f);
    let x7 = pow_step(x6, f);
    let x8 = pow_step(x7, f);
    let x9 = pow_step(x8, f);
    let x10 = pow_step(x9, f);
    let x11 = pow_step(x10, f);
    let x12 = pow_step(x11, f);
    proof {
        reveal_with_fuel(pow12_spec, 13);
    }
    x12
}

/// `r` is the monthly grid point whose twelve-fold compounding brackets
/// the clamped annual return.
pub open spec fn brackets_annual(annual: int, r: int) -> bool {
    let target = SCALE + clamp_spec(
        annual,
        ANNUAL_RETURN_MIN_PPM as int,
        ANNUAL_RETURN_MAX_PPM as int,
    );
    &&& -SCALE <= r <= 1_400_000
    &&& pow12_spec(SCALE + r, 12) <= target
    &&& pow12_spec(SCALE + r + 1, 12) > target
}

/// The monthly return equivalent to an annual return, as a spec value.
pub open spec fn monthly_rate_spec(annual: int) -> int {
    choose|r: int| brackets_annual(annual, r)
}

/// The bracketing property pins the monthly rate down.
pub proof fn lemma_monthly_rate_unique(annual: int, r: int)
    requires
        brackets_annual(annual, r),
    ensures
        monthly_rate_spec(annual) == r,
{
    let w = choose|r2: int| brackets_annual(annual, r2);
    assert(brackets_annual(annual, w));
    if w < r {
        lemma_pow12_monotone(SCALE + w + 1, SCALE + r, 12);
    }
    if r < w {
        lemma_pow12_monotone(SCALE + r + 1, SCALE + w, 12);
    }
}

/// `f` is the greatest grid factor whose twelve-fold compounding does
/// not overshoot the yearly factor `target`.
pub open spec fn brackets_root12(target: int, f: int) -> bool {
    &&& 0 <= f <= 2_400_000
    &&& pow12_spec(f, 12) <= target
    &&& pow12_spec(f + 1, 12) > target
}

/// The twelfth root of a yearly factor, as a spec value on the grid.
pub open spec fn root12_spec(target: int) -> int {
    choose|f: int| brackets_root12(target, f)
}

/// The bracketing property pins the root down.
pub proof fn lemma_root12_unique(target: int, f: int)
    requires
        brackets_root12(target, f),
    ensures
        root12_spec(target) == f,
{
    let w = choose|f2: int| brackets_root12(target, f2);
    assert(brackets_root12(target, w));
    if w < f {
        lemma_pow12_monotone(w + 1, f, 12);
    }
    if f < w {
        lemma_pow12_monotone(f + 1, w, 12);
    }
}

/// The greatest monthly grid factor whose twelve-fold compounding does
/// not overshoot `target` (a yearly factor in ppm).
pub fn root12_factor(target: i64) -> (f: i64)
    requires
        0 <= target <= 2_200_000,
    ensures
        0 <= f <= 2_400_000,
        pow12_spec(f as int, 12) <= target,
        pow12_spec(f as int + 1, 12) > target,
        f == root12_spec(target as int),
{
    let mut lo: i64 = 0;
    let mut hi: i64 = 2_400_000;
    proof {
        reveal_with_fuel(pow12_spec, 13);
        assert(pow12_spec(0, 12) == 0) by {
            lemma_div_multiples_vanish(0, SCALE as int);
            assert(SCALE as int * 0 == 0);
        }
        lemma_pow12_at_least_linear(2_400_001, 12);
    }
    while lo < hi
        invariant
            0 <= lo <= hi <= 2_400_000,
            0 <= target <= 2_200_000,
            pow12_spec(lo as int, 12) <= target as int,
            pow12_spec(hi as int + 1, 12) > target as int,
        decreases hi - lo,
    {
        let mid = lo + (hi - lo + 1) / 2;
        let p = pow12_ppm(mid);
        if p <= target {
            lo = mid;
        } else {
            hi = mid - 1;
        }
    }
    proof {
        lemma_root12_unique(target as int, lo as int);
    }
    lo
}

/// The monthly return whose twelve-fold compounding brackets the
/// clamped annual return: the greatest grid point not overshooting it.
/// Compounding the result back over a year therefore recovers the
/// clamped annual return to within one ppm grid step.
pub fn annual_to_monthly_return(annual_return: i64) -> (r: i64)
    ensures
        brackets_annual(annual_return as int, r as int),
        r == monthly_rate_spec(annual_return as int),
        -SCALE <= r <= 1_400_000,
{
    let capped = clamp_annual_return(annual_return);
    let target: i64 = SCALE + capped;
    let f = root12_factor(target);
    let r = f - SCALE;
    proof {
        lemma_monthly_rate_unique(annual_return as int, r as int);
    }
    r
}

} // verus!
