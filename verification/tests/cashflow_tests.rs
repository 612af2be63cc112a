use retirement_engine::cashflow::{
    build_cashflow_arrays, expected_inflation_index_at_age, income_at_age, spending_at_age,
};
use retirement_engine::structs::{
    check_income_sources, check_lump_sum_events, check_retirement_input, check_spending_periods,
    IncomeSource, LumpSumEvent, RegimeModelInput, RetirementInput, SimulationMode, SpendingPeriod,
};
use retirement_engine::SCALE;

fn base_input() -> RetirementInput {
    RetirementInput {
        simulation_mode: SimulationMode::Historical,
        historical_moment_targeting: None,
        current_age: 30 * SCALE,
        retirement_age: 55 * SCALE,
        simulate_until_age: 80 * SCALE,
        current_savings: 10_000_000,
        mean_return: 50_000,
        return_variability: 0,
        return_skewness: 0,
        return_kurtosis: 3 * SCALE,
        equity_bond_correlation: 0,
        inflation_mean: 0,
        inflation_variability: 0,
        inflation_skewness: 0,
        inflation_kurtosis: 3 * SCALE,
        inflation_crisis_spread: None,
        block_length: None,
        annual_fee_percent: 0,
        tax_on_gains_percent: 0,
        seed: Some(42),
        safe_withdrawal_rate: 40_000,
        simulations: 400,
        regime_model: RegimeModelInput {
            stay_growth: 880_000,
            stay_crisis: 720_000,
            growth_mean: 80_000,
            growth_std: 150_000,
            crisis_mean: -150_000,
            crisis_std: 250_000,
        },
        historical_annual_returns: None,
        historical_monthly_returns: None,
    }
}

fn spending(from_years: i64, to_years: i64, yearly_cents: i64) -> SpendingPeriod {
    SpendingPeriod {
        id: String::from("sp-1"),
        label: String::from("spending"),
        from_age: from_years * SCALE,
        to_age: to_years * SCALE,
        yearly_amount: yearly_cents,
        inflation_adjusted: None,
    }
}

#[test]
fn validity_checks_accept_the_base_case() {
    let input = base_input();
    assert!(check_retirement_input(&input));
    assert!(check_spending_periods(&vec![spending(30, 80, 1_200_000)]));
    assert!(check_income_sources(&Vec::new()));
    assert!(check_lump_sum_events(&Vec::new()));
}

#[test]
fn validity_checks_reject_out_of_range_values() {
    let mut input = base_input();
    input.current_age = -1;
    assert!(!check_retirement_input(&input));
    let mut p = spending(30, 80, 1_200_000);
    p.yearly_amount = i64::MAX;
    assert!(!check_spending_periods(&vec![p]));
}

#[test]
fn zero_inflation_index_is_one() {
    let input = base_input();
    assert_eq!(expected_inflation_index_at_age(&input, 30 * SCALE), SCALE);
    assert_eq!(expected_inflation_index_at_age(&input, 50 * SCALE), SCALE);
}

#[test]
fn inflation_index_compounds_monthly() {
    let mut input = base_input();
    input.inflation_mean = 120_000;  // 12% a year
    let one_year = expected_inflation_index_at_age(&input, 31 * SCALE);
    // after a year of monthly compounding the index sits within one
    // grid step per month of the annual factor
    assert!(one_year > 1_100_000 && one_year <= 1_120_000);
    let now = expected_inflation_index_at_age(&input, 30 * SCALE);
    assert_eq!(now, SCALE);
}

#[test]
fn matching_is_half_open() {
    let periods = vec![spending(40, 50, 1_200_000)];
    assert_eq!(spending_at_age(40 * SCALE, &periods, SCALE), 1_200_000);
    assert_eq!(spending_at_age(50 * SCALE - 1, &periods, SCALE), 1_200_000);
    assert_eq!(spending_at_age(50 * SCALE, &periods, SCALE), 0);
    assert_eq!(spending_at_age(40 * SCALE - 1, &periods, SCALE), 0);
}

#[test]
fn non_adjusted_amounts_deflate_by_the_index() {
    let mut p = spending(40, 50, 1_200_000);
    p.inflation_adjusted = Some(false);
    let periods = vec![p];
    // index of two halves the real amount
    assert_eq!(spending_at_age(45 * SCALE, &periods, 2 * SCALE), 600_000);
    // inflation-adjusted amounts ignore the index
    let q = spending(40, 50, 1_200_000);
    assert_eq!(spending_at_age(45 * SCALE, &vec![q], 2 * SCALE), 1_200_000);
}

#[test]
fn income_sums_matching_sources() {
    let salary = IncomeSource {
        id: String::from("is-default"),
        label: String::from("salary"),
        from_age: 30 * SCALE,
        to_age: 55 * SCALE,
        yearly_amount: 6_000_000,
        inflation_adjusted: Some(true),
    };
    let side = IncomeSource {
        id: String::from("is-2"),
        label: String::from("side"),
        from_age: 35 * SCALE,
        to_age: 40 * SCALE,
        yearly_amount: 1_200_000,
        inflation_adjusted: Some(true),
    };
    let sources = vec![salary, side];
    assert_eq!(income_at_age(36 * SCALE, &sources, SCALE), 7_200_000);
    assert_eq!(income_at_age(45 * SCALE, &sources, SCALE), 6_000_000);
    assert_eq!(income_at_age(60 * SCALE, &sources, SCALE), 0);
}

#[test]
fn yearly_spending_splits_evenly_over_the_year() {
    // one inflation-adjusted $12,000 period, no income: each month
    // nets -$1,000 and a full year nets exactly -$12,000
    let input = base_input();
    let periods = vec![spending(30, 80, 1_200_000)];
    let arrays = build_cashflow_arrays(&input, &periods, &Vec::new(), &Vec::new(), 600);
    assert_eq!(arrays.monthly_net_flow.len(), 600);
    for m in 0..600 {
        assert_eq!(arrays.monthly_net_flow[m], -100_000);
    }
    let year_sum: i64 = arrays.monthly_net_flow[0..12].iter().sum();
    assert_eq!(year_sum, -1_200_000);
}

#[test]
fn lump_sums_land_on_their_rounded_months() {
    let input = base_input();
    let events = vec![
        LumpSumEvent {
            id: String::from("ls-1"),
            label: String::from("inheritance"),
            age: 40 * SCALE,
            amount: 20_000_000,
        },
        LumpSumEvent {
            id: String::from("ls-2"),
            label: String::from("roof"),
            age: 55 * SCALE,
            amount: -5_000_000,
        },
    ];
    let arrays = build_cashflow_arrays(&input, &Vec::new(), &Vec::new(), &events, 600);
    // round((40 - 30) * 12) = 120 and round((55 - 30) * 12) = 300
    assert_eq!(arrays.lump_sum_by_month[120], 20_000_000);
    assert_eq!(arrays.lump_sum_by_month[300], -5_000_000);
    let nonzero: usize = arrays.lump_sum_by_month.iter().filter(|&&v| v != 0).count();
    assert_eq!(nonzero, 2);
}

#[test]
fn out_of_horizon_lump_sums_are_dropped() {
    let input = base_input();
    let events = vec![LumpSumEvent {
        id: String::from("ls-3"),
        label: String::from("late"),
        age: 90 * SCALE,
        amount: 1_000_000,
    }];
    let arrays = build_cashflow_arrays(&input, &Vec::new(), &Vec::new(), &events, 600);
    assert!(arrays.lump_sum_by_month.iter().all(|&v| v == 0));
}
