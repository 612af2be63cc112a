use retirement_engine::calculations::{percentile, sort_values, summarize};
use retirement_engine::engine::{
    annual_to_monthly_return, clamp_annual_return, clamp_monthly_return,
    clamp_transition_probability, draw_cornish_fisher_score, draw_student_t,
    get_growth_stationary_probability, pow12_ppm, student_t_degrees_from_kurtosis,
};
use retirement_engine::fixed::{clamp, isqrt_u128, round_div};
use retirement_engine::rng::RandomSource;
use retirement_engine::SCALE;

#[test]
fn mulberry32_known_words() {
    let mut rng = RandomSource::new(42);
    assert_eq!(rng.random(), 2581720956);
    assert_eq!(rng.random(), 1925393290);
    assert_eq!(rng.random(), 3661312704);
}

#[test]
fn mulberry32_same_seed_same_stream() {
    let mut a = RandomSource::new(123456789);
    let mut b = RandomSource::new(123456789);
    for _ in 0..100 {
        assert_eq!(a.random(), b.random());
    }
}

#[test]
fn mulberry32_different_seeds_differ() {
    let mut a = RandomSource::new(0);
    let mut b = RandomSource::new(1);
    assert_eq!(a.random(), 1144304738);
    assert_eq!(b.random(), 2693262067);
}

#[test]
fn clamp_checks_lower_bound_first() {
    assert_eq!(clamp(5, 0, 10), 5);
    assert_eq!(clamp(-5, 0, 10), 0);
    assert_eq!(clamp(15, 0, 10), 10);
}

#[test]
fn isqrt_exact_squares() {
    assert_eq!(isqrt_u128(0), 0);
    assert_eq!(isqrt_u128(1), 1);
    assert_eq!(isqrt_u128(35), 5);
    assert_eq!(isqrt_u128(36), 6);
    assert_eq!(isqrt_u128(12_000_000_000_000), 3_464_101);
}

#[test]
fn round_div_rounds_half_away_from_zero() {
    assert_eq!(round_div(25, 10), 3);
    assert_eq!(round_div(24, 10), 2);
    assert_eq!(round_div(-25, 10), -3);
    assert_eq!(round_div(-24, 10), -2);
}

#[test]
fn percentile_endpoints() {
    let sorted = vec![10, 20, 30, 40];
    assert_eq!(percentile(&sorted, 0), 10);
    assert_eq!(percentile(&sorted, SCALE), 40);
    let empty: Vec<i64> = Vec::new();
    assert_eq!(percentile(&empty, 500_000), 0);
}

#[test]
fn percentile_interpolates_linearly() {
    let sorted = vec![0, 100];
    // index 0.5 between the two order statistics
    assert_eq!(percentile(&sorted, 500_000), 50);
    let sorted2 = vec![10, 20, 30];
    // p50 lands exactly on the middle element
    assert_eq!(percentile(&sorted2, 500_000), 20);
}

#[test]
fn percentile_monotone_in_fraction() {
    let sorted = vec![-50, 3, 18, 200, 340, 961];
    let mut last = i64::MIN;
    let mut p = 0;
    while p <= SCALE {
        let v = percentile(&sorted, p);
        assert!(v >= last);
        last = v;
        p += 50_000;
    }
}

#[test]
fn sort_values_orders_and_keeps_elements() {
    let values = vec![5, -3, 8, 0, 5];
    let sorted = sort_values(&values);
    assert_eq!(sorted, vec![-3, 0, 5, 5, 8]);
}

#[test]
fn summarize_bands_are_ordered() {
    let values = vec![900, 100, 500, 300, 700];
    let bands = summarize(&values);
    assert!(bands.p10 <= bands.p25);
    assert!(bands.p25 <= bands.p50);
    assert!(bands.p50 <= bands.p75);
    assert!(bands.p75 <= bands.p90);
    assert_eq!(bands.p50, 500);
}

#[test]
fn transition_probability_band() {
    assert_eq!(clamp_transition_probability(0), 1_000);
    assert_eq!(clamp_transition_probability(2_000_000), 999_000);
    assert_eq!(clamp_transition_probability(880_000), 880_000);
}

#[test]
fn stationary_probability_in_unit_range() {
    // degenerate denominator yields one half
    assert_eq!(get_growth_stationary_probability(SCALE, SCALE), 500_000);
    // (1 - 0.72) / (2 - 0.88 - 0.72) = 0.28 / 0.4 = 0.7
    assert_eq!(get_growth_stationary_probability(880_000, 720_000), 700_000);
    let p = get_growth_stationary_probability(999_000, 999_000);
    assert!(0 <= p && p <= SCALE);
}

#[test]
fn cornish_fisher_identity_at_normal_moments() {
    for z in [-2_500_000i64, -1, 0, 1, 777_000, 100_000_000] {
        assert_eq!(draw_cornish_fisher_score(z, 0, 3 * SCALE), z);
        // kurtosis below three clamps the excess to zero as well
        assert_eq!(draw_cornish_fisher_score(z, 0, 0), z);
    }
}

#[test]
fn cornish_fisher_skew_shifts_tails() {
    // positive skew raises the score at z = 0: (s/6)(0 - 1) < 0 for s > 0
    let down = draw_cornish_fisher_score(0, 600_000, 3 * SCALE);
    assert!(down < 0);
    let up = draw_cornish_fisher_score(0, -600_000, 3 * SCALE);
    assert!(up > 0);
}

#[test]
fn annual_return_clamps() {
    assert_eq!(clamp_annual_return(-2_000_000), -950_000);
    assert_eq!(clamp_annual_return(2_000_000), 1_200_000);
    assert_eq!(clamp_monthly_return(-700_000), -600_000);
    assert_eq!(clamp_monthly_return(700_000), 600_000);
}

#[test]
fn annual_to_monthly_brackets_the_annual_return() {
    let r = annual_to_monthly_return(50_000);
    assert_eq!(r, 4_074);
    // compounding the result for a year recovers the annual factor
    // to within one grid step
    assert!(pow12_ppm(SCALE + r) <= SCALE + 50_000);
    assert!(pow12_ppm(SCALE + r + 1) > SCALE + 50_000);
    // a clamped extreme input brackets the clamp bound instead
    let rc = annual_to_monthly_return(5_000_000);
    assert!(pow12_ppm(SCALE + rc) <= SCALE + 1_200_000);
    assert!(pow12_ppm(SCALE + rc + 1) > SCALE + 1_200_000);
}

#[test]
fn student_t_degrees_cases() {
    // near-normal kurtosis implies forty degrees
    assert_eq!(student_t_degrees_from_kurtosis(3 * SCALE), 40 * SCALE);
    assert_eq!(student_t_degrees_from_kurtosis(0), 40 * SCALE);
    // excess of one: 4 + 6/1 = 10
    assert_eq!(student_t_degrees_from_kurtosis(4 * SCALE), 10 * SCALE);
    // huge excess clamps at five
    assert_eq!(student_t_degrees_from_kurtosis(100 * SCALE), 5 * SCALE);
}

#[test]
fn student_t_scales_by_chi_square() {
    // chi-square equal to the degrees leaves the score unchanged:
    // z / sqrt(df/df) = z
    let z = 1_500_000;
    assert_eq!(draw_student_t(z, 10 * SCALE, 10), z);
    // a smaller chi-square inflates the score
    assert!(draw_student_t(z, 5 * SCALE, 10) > z);
    // degenerate chi-square yields zero
    assert_eq!(draw_student_t(z, 0, 10), 0);
}
