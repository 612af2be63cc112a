use retirement_engine::engine::pow12_ppm;
use retirement_engine::moments::summarize_return_moments;
use retirement_engine::pools::{
    bootstrap_indices_by_regime_monthly, bootstrap_pool_by_regime,
    estimate_markov_stay_probabilities,
};
use retirement_engine::regimes::{detect_regimes, detect_regimes_monthly};
use retirement_engine::targeting::{apply_moment_targeting, monthly_returns_to_annual_series};
use retirement_engine::SCALE;

#[test]
fn constant_series_labels_all_growth() {
    let series = vec![50_000i64; 40];
    let labels = detect_regimes(&series);
    assert_eq!(labels.len(), 40);
    assert!(labels.iter().all(|&l| l == 0));
    let monthly = vec![0i64; 480];
    let mlabels = detect_regimes_monthly(&monthly);
    assert_eq!(mlabels.len(), 480);
    assert!(mlabels.iter().all(|&l| l == 0));
}

#[test]
fn crash_year_is_labelled_crisis() {
    // thirty quiet years around one deep loss
    let mut series = vec![60_000i64; 30];
    series[15] = -400_000;
    let labels = detect_regimes(&series);
    assert_eq!(labels[15], 1);
    assert_eq!(labels[0], 0);
}

#[test]
fn empty_series_gives_no_labels() {
    let series: Vec<i64> = Vec::new();
    assert_eq!(detect_regimes(&series).len(), 0);
}

#[test]
fn pool_partition_by_label() {
    let values = vec![10, 20, 30, 40];
    let labels = vec![0u8, 1, 0, 1];
    let pools = bootstrap_pool_by_regime(&values, &labels);
    assert_eq!(pools.growth, vec![10, 30]);
    assert_eq!(pools.crisis, vec![20, 40]);
}

#[test]
fn empty_crisis_pool_falls_back_to_smallest_values() {
    let values = vec![70, 10, 50, 30, 90, 20, 80, 60, 40, 100];
    let labels = vec![0u8; 10];
    let pools = bootstrap_pool_by_regime(&values, &labels);
    assert_eq!(pools.growth, values);
    // max(4, floor(0.35 * 10)) = 4 smallest values, ascending
    assert_eq!(pools.crisis, vec![10, 20, 30, 40]);
}

#[test]
fn empty_growth_pool_falls_back_to_whole_history() {
    let values = vec![-10, -20, -30];
    let labels = vec![1u8; 3];
    let pools = bootstrap_pool_by_regime(&values, &labels);
    assert_eq!(pools.growth, values);
    assert_eq!(pools.crisis, values);
}

#[test]
fn index_pools_fall_back_to_smallest_value_indices() {
    let values: Vec<i64> = (0..20).map(|i| (20 - i) * 1_000).collect();
    let labels = vec![0u8; 20];
    let pools = bootstrap_indices_by_regime_monthly(&values, &labels);
    assert_eq!(pools.growth.len(), 20);
    // max(12, floor(0.30 * 20)) = 12 indices of the smallest values
    assert_eq!(pools.crisis.len(), 12);
    // the smallest value sits at the last index
    assert_eq!(pools.crisis[0], 19);
}

#[test]
fn markov_estimation_counts_transitions() {
    // 0 0 1 1 0: growth pairs 0->0, 0->1, 1->0 (prev 0 twice, prev 1 twice)
    let labels = vec![0u8, 0, 1, 1, 0];
    let (sg, sc) = estimate_markov_stay_probabilities(&labels);
    // growth: prev 0 at positions 0,1 -> stays 1 of 2
    assert_eq!(sg, 500_000);
    // crisis: prev 1 at positions 2,3 -> stays 1 of 2
    assert_eq!(sc, 500_000);
}

#[test]
fn markov_estimation_defaults_on_empty_history() {
    let labels: Vec<u8> = Vec::new();
    let (sg, sc) = estimate_markov_stay_probabilities(&labels);
    assert_eq!(sg, 880_000);
    assert_eq!(sc, 720_000);
}

#[test]
fn moment_targeting_idempotent_on_own_moments() {
    for v in [-120_000i64, 0, 35_000, 999_999] {
        assert_eq!(apply_moment_targeting(v, 40_000, 150_000, 40_000, 150_000), v);
    }
}

#[test]
fn moment_targeting_degenerate_source_returns_target_mean() {
    assert_eq!(apply_moment_targeting(123_456, 40_000, 0, 70_000, 150_000), 70_000);
}

#[test]
fn moment_targeting_remaps_linearly() {
    // one deviation above the source mean maps one target deviation
    // above the target mean
    assert_eq!(apply_moment_targeting(150_000, 100_000, 50_000, 0, 10_000), 10_000);
}

#[test]
fn monthly_series_compounds_by_year() {
    let zeros = vec![0i64; 12];
    assert_eq!(monthly_returns_to_annual_series(&zeros), vec![0]);
    // 1% every month compounds to the twelve-fold product
    let ones = vec![10_000i64; 24];
    let annual = monthly_returns_to_annual_series(&ones);
    assert_eq!(annual.len(), 2);
    assert_eq!(annual[0], pow12_ppm(SCALE + 10_000) - SCALE);
    assert_eq!(annual[1], annual[0]);
    // a trailing partial year is dropped
    let partial = vec![10_000i64; 17];
    assert_eq!(monthly_returns_to_annual_series(&partial).len(), 1);
}

#[test]
fn moments_of_empty_series_are_neutral() {
    let empty: Vec<i64> = Vec::new();
    let m = summarize_return_moments(&empty);
    assert_eq!(m.arithmetic_mean, 0);
    assert_eq!(m.geometric_mean, 0);
    assert_eq!(m.std_dev, 0);
    assert_eq!(m.skewness, 0);
    assert_eq!(m.kurtosis, 3 * SCALE);
}

#[test]
fn moments_of_constant_series_degenerate() {
    let series = vec![50_000i64; 30];
    let m = summarize_return_moments(&series);
    assert_eq!(m.arithmetic_mean, 50_000);
    assert_eq!(m.std_dev, 0);
    assert_eq!(m.skewness, 0);
    assert_eq!(m.kurtosis, 3 * SCALE);
    // the geometric mean of a constant series is the value itself
    assert_eq!(m.geometric_mean, 50_000);
}

#[test]
fn moments_mean_and_deviation() {
    let series = vec![0i64, 100_000];
    let m = summarize_return_moments(&series);
    assert_eq!(m.arithmetic_mean, 50_000);
    assert_eq!(m.std_dev, 50_000);
}
