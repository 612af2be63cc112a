use retirement_engine::stats::{
    build_ruin_surface, build_sequence_risk_summary, find_retirement_balance_target,
    replay_ruin_probability,
};
use retirement_engine::structs::{
    IncomeSource, RegimeModelInput, RetirementInput, SimulationMode, SpendingPeriod,
};
use retirement_engine::SCALE;

fn base_input() -> RetirementInput {
    RetirementInput {
        simulation_mode: SimulationMode::Historical,
        historical_moment_targeting: None,
        current_age: 30 * SCALE,
        retirement_age: 55 * SCALE,
        simulate_until_age: 80 * SCALE,
        current_savings: 1_000_000,
        mean_return: 0,
        return_variability: 0,
        return_skewness: 0,
        return_kurtosis: 3 * SCALE,
        equity_bond_correlation: 0,
        inflation_mean: 0,
        inflation_variability: 0,
        inflation_skewness: 0,
        inflation_kurtosis: 3 * SCALE,
        inflation_crisis_spread: None,
        block_length: None,
        annual_fee_percent: 0,
        tax_on_gains_percent: 0,
        seed: Some(42),
        safe_withdrawal_rate: 40_000,
        simulations: 400,
        regime_model: RegimeModelInput {
            stay_growth: 880_000,
            stay_crisis: 720_000,
            growth_mean: 80_000,
            growth_std: 150_000,
            crisis_mean: -150_000,
            crisis_std: 250_000,
        },
        historical_annual_returns: None,
        historical_monthly_returns: None,
    }
}

#[test]
fn fi_target_finds_the_smallest_qualifying_balance() {
    let retirement = vec![100, 200, 300, 400, 500];
    let ending = vec![0, 1, 1, 1, 1];
    // from 200 upward four of four end positive: 100% >= 95%
    assert_eq!(find_retirement_balance_target(&retirement, &ending, 950_000), 200);
}

#[test]
fn fi_target_defaults_to_the_largest_balance() {
    let retirement = vec![100, 200, 300];
    let ending = vec![0, 0, 0];
    assert_eq!(find_retirement_balance_target(&retirement, &ending, 950_000), 300);
}

#[test]
fn fi_target_is_never_negative() {
    let retirement = vec![-500, -100];
    let ending = vec![1, 1];
    assert_eq!(find_retirement_balance_target(&retirement, &ending, 950_000), 0);
    let empty: Vec<i64> = Vec::new();
    assert_eq!(find_retirement_balance_target(&empty, &empty, 950_000), 0);
}

#[test]
fn replay_flags_depleting_schedules() {
    // two sims, flat growth, a flow that drains the balance
    let growth = vec![vec![SCALE; 12], vec![SCALE; 12]];
    let drain = vec![-200i64; 12];
    let lumps = vec![0i64; 12];
    let ruined = replay_ruin_probability(&growth, &drain, &lumps, 1_000, 2, 12);
    assert_eq!(ruined, SCALE);
    let keep = vec![0i64; 12];
    let safe = replay_ruin_probability(&growth, &keep, &lumps, 1_000, 2, 12);
    assert_eq!(safe, 0);
}

#[test]
fn replay_counts_partial_ruin() {
    // the second sim loses everything to a negative growth month
    let growth = vec![vec![SCALE; 6], vec![SCALE, SCALE, 0, SCALE, SCALE, SCALE]];
    let flows = vec![0i64; 6];
    let lumps = vec![0i64; 6];
    let ruined = replay_ruin_probability(&growth, &flows, &lumps, 1_000, 2, 6);
    assert_eq!(ruined, 500_000);
}

#[test]
fn sequence_risk_buckets_sort_by_early_mean() {
    // ten sims with increasing early returns; the worst five sims
    // are also the ruined ones
    let mut rows: Vec<Vec<i64>> = Vec::new();
    let mut finals: Vec<i64> = Vec::new();
    let mut flags: Vec<bool> = Vec::new();
    for i in 0..10i64 {
        rows.push(vec![i * 10_000; 12]);
        finals.push(if i < 5 { 0 } else { 1_000 * i });
        flags.push(i < 5);
    }
    let buckets = build_sequence_risk_summary(&rows, &finals, &flags);
    assert_eq!(buckets.len(), 5);
    assert_eq!(buckets[0].bucket_label, "Q1 (worst early sequence)");
    assert_eq!(buckets[4].bucket_label, "Q5 (best early sequence)");
    // the first two quintiles hold the five ruined sims (two each,
    // then one in the third)
    assert_eq!(buckets[0].ruin_probability, SCALE);
    assert_eq!(buckets[1].ruin_probability, SCALE);
    assert_eq!(buckets[2].ruin_probability, 500_000);
    assert_eq!(buckets[3].ruin_probability, 0);
    assert_eq!(buckets[4].ruin_probability, 0);
    // early means rise across buckets
    assert!(buckets[0].early_years_mean_return <= buckets[4].early_years_mean_return);
    // the best bucket's ending median reflects its members
    assert!(buckets[4].ending_median > 0);
}

#[test]
fn sequence_risk_empty_input_gives_no_buckets() {
    let rows: Vec<Vec<i64>> = Vec::new();
    let finals: Vec<i64> = Vec::new();
    let flags: Vec<bool> = Vec::new();
    assert_eq!(build_sequence_risk_summary(&rows, &finals, &flags).len(), 0);
}

#[test]
fn ruin_surface_monotone_in_spending_multiplier() {
    // flat growth and a spending level near the edge of affordability:
    // higher multipliers can only ruin more replayed paths
    let input = base_input();
    let months: u32 = 120;
    let sims = 8;
    let growth = vec![vec![SCALE; months as usize]; sims];
    let periods = vec![SpendingPeriod {
        id: String::from("sp-1"),
        label: String::from("living"),
        from_age: 30 * SCALE,
        to_age: 80 * SCALE,
        yearly_amount: 110_000,
        inflation_adjusted: Some(true),
    }];
    let incomes: Vec<IncomeSource> = Vec::new();
    let surface = build_ruin_surface(
        &input,
        &periods,
        &incomes,
        &Vec::new(),
        &growth,
        months,
        sims,
    );
    assert_eq!(surface.spending_multipliers, vec![800_000, 900_000, 1_000_000, 1_100_000, 1_200_000]);
    assert!(surface.ruin_probabilities.len() == 5);
    let ages = surface.retirement_ages.len();
    for j in 0..ages {
        for i in 1..5 {
            assert!(
                surface.ruin_probabilities[i][j] >= surface.ruin_probabilities[i - 1][j],
                "ruin probability fell between multipliers"
            );
        }
    }
    // the cheapest and dearest multipliers straddle the ruin edge
    assert_eq!(surface.ruin_probabilities[0][0], 0);
    assert_eq!(surface.ruin_probabilities[4][0], SCALE);
}

#[test]
fn ruin_surface_ages_are_sorted_and_clamped() {
    let mut input = base_input();
    // retirement close to the final age: offsets clamp and deduplicate
    input.retirement_age = 78 * SCALE;
    let growth = vec![vec![SCALE; 12]; 2];
    let surface = build_ruin_surface(
        &input,
        &Vec::new(),
        &Vec::new(),
        &Vec::new(),
        &growth,
        12,
        2,
    );
    let ages = &surface.retirement_ages;
    assert!(!ages.is_empty());
    for k in 1..ages.len() {
        assert!(ages[k] > ages[k - 1]);
    }
    assert!(*ages.last().unwrap() <= 79);
}
