use retirement_engine::simulation::run_monte_carlo_simulation;
use retirement_engine::structs::{
    RegimeModelInput, RetirementInput, SimulationMode, SpendingPeriod,
};
use retirement_engine::SCALE;

fn base_input() -> RetirementInput {
    RetirementInput {
        simulation_mode: SimulationMode::Historical,
        historical_moment_targeting: None,
        current_age: 30 * SCALE,
        retirement_age: 40 * SCALE,
        simulate_until_age: 80 * SCALE,
        current_savings: 10_000_000,
        mean_return: 50_000,
        return_variability: 0,
        return_skewness: 0,
        return_kurtosis: 3 * SCALE,
        equity_bond_correlation: 0,
        inflation_mean: 0,
        inflation_variability: 0,
        inflation_skewness: 0,
        inflation_kurtosis: 3 * SCALE,
        inflation_crisis_spread: None,
        block_length: None,
        annual_fee_percent: 0,
        tax_on_gains_percent: 0,
        seed: Some(42),
        safe_withdrawal_rate: 40_000,
        simulations: 400,
        regime_model: RegimeModelInput {
            stay_growth: 880_000,
            stay_crisis: 720_000,
            growth_mean: 80_000,
            growth_std: 150_000,
            crisis_mean: -150_000,
            crisis_std: 250_000,
        },
        historical_annual_returns: None,
        historical_monthly_returns: None,
    }
}

fn zero_scores(months: u32, sims: u32) -> Vec<i64> {
    vec![0i64; (2 * months * sims) as usize]
}

#[test]
fn deterministic_growth_compounds_exactly() {
    // constant 5% annual history, no volatility, no inflation, no
    // cashflows: every simulation compounds identically
    let mut input = base_input();
    input.historical_annual_returns = Some(vec![50_000i64; 30]);
    let months: u32 = 240;
    let scores = zero_scores(months, 400);
    let t_scores = vec![0i64; 120];
    let r = run_monte_carlo_simulation(
        &input,
        &Vec::new(),
        &Vec::new(),
        &Vec::new(),
        months,
        120,
        &scores,
        &t_scores,
    );
    assert_eq!(r.sim_count, 400);
    // 5% a year on the monthly grid: factor 1.004074 for 240 months
    let expected: i64 = 26_531_992;
    assert_eq!(r.simulation.final_percentiles.p10, expected);
    assert_eq!(r.simulation.final_percentiles.p50, expected);
    assert_eq!(r.simulation.final_percentiles.p90, expected);
    let last = (months - 1) as usize;
    assert_eq!(r.simulation.percentiles.p50[last], expected);
    assert_eq!(r.stats.success_probability, SCALE);
    assert_eq!(r.stats.success_count, 400);
    assert_eq!(r.stats.fi_target, r.stats.fi_target_p95);
    // all balances stayed positive, so no shortfall and no depletion
    assert_eq!(r.stats.shortfall_high, 0);
    assert_eq!(r.stats.depleted_years_high, 0);
}

#[test]
fn unaffordable_spending_depletes_every_simulation() {
    // $10,000 saved, $50,000 a year spent from retirement, nothing
    // earned: depletion follows retirement within months
    let mut input = base_input();
    input.current_savings = 1_000_000;
    input.mean_return = 0;
    input.historical_annual_returns = Some(vec![0i64; 30]);
    let spending = SpendingPeriod {
        id: String::from("sp-1"),
        label: String::from("retirement spending"),
        from_age: 40 * SCALE,
        to_age: 80 * SCALE,
        yearly_amount: 5_000_000,
        inflation_adjusted: Some(true),
    };
    let months: u32 = 240;
    let scores = zero_scores(months, 400);
    let t_scores = vec![0i64; 120];
    let r = run_monte_carlo_simulation(
        &input,
        &vec![spending],
        &Vec::new(),
        &Vec::new(),
        months,
        120,
        &scores,
        &t_scores,
    );
    assert_eq!(r.stats.success_probability, 0);
    assert_eq!(r.stats.success_count, 0);
    // the safe-withdrawal target: $50,000 / 4% = $1,250,000
    assert_eq!(r.stats.fi_target_swr, 125_000_000);
    assert!(r.stats.depleted_years_median > 0);
    // balances at the final month are all zero
    assert_eq!(r.simulation.final_percentiles.p90, 0);
}

#[test]
fn flat_monthly_history_keeps_trajectories_flat() {
    // 480 months of zero returns under monthly calibration: every
    // balance stays at the starting savings
    let mut input = base_input();
    input.historical_monthly_returns = Some(vec![0i64; 480]);
    input.historical_annual_returns = Some(vec![0i64; 30]);
    input.mean_return = 0;
    let months: u32 = 240;
    let scores = zero_scores(months, 400);
    let t_scores = vec![0i64; 120];
    let r = run_monte_carlo_simulation(
        &input,
        &Vec::new(),
        &Vec::new(),
        &Vec::new(),
        months,
        120,
        &scores,
        &t_scores,
    );
    assert_eq!(r.simulation.final_percentiles.p10, 10_000_000);
    assert_eq!(r.simulation.final_percentiles.p90, 10_000_000);
    assert_eq!(r.stats.success_probability, SCALE);
    for m in 0..months as usize {
        assert_eq!(r.simulation.percentiles.p50[m], 10_000_000);
    }
}

#[test]
fn same_seed_reproduces_the_run_bit_for_bit() {
    let mut input = base_input();
    input.simulation_mode = SimulationMode::Parametric;
    let months: u32 = 120;
    let scores = zero_scores(months, 400);
    let t_scores = vec![500_000i64; 120];
    let a = run_monte_carlo_simulation(
        &input,
        &Vec::new(),
        &Vec::new(),
        &Vec::new(),
        months,
        60,
        &scores,
        &t_scores,
    );
    let b = run_monte_carlo_simulation(
        &input,
        &Vec::new(),
        &Vec::new(),
        &Vec::new(),
        months,
        60,
        &scores,
        &t_scores,
    );
    assert_eq!(a.simulation.percentiles.p50, b.simulation.percentiles.p50);
    assert_eq!(a.simulation.final_percentiles.p10, b.simulation.final_percentiles.p10);
    assert_eq!(a.simulation.final_percentiles.p90, b.simulation.final_percentiles.p90);
    assert_eq!(a.stats.success_count, b.stats.success_count);
    assert_eq!(a.stats.fi_target, b.stats.fi_target);
    assert_eq!(
        a.stats.return_moments.arithmetic_mean,
        b.stats.return_moments.arithmetic_mean
    );
}

#[test]
fn different_seeds_diverge() {
    // under the parametric generator the regime walk depends on the
    // seed, so the synthesized histories differ
    let mut input = base_input();
    input.simulation_mode = SimulationMode::Parametric;
    let months: u32 = 120;
    let scores = zero_scores(months, 400);
    let t_scores = vec![500_000i64; 120];
    input.seed = Some(42);
    let a = run_monte_carlo_simulation(
        &input,
        &Vec::new(),
        &Vec::new(),
        &Vec::new(),
        months,
        60,
        &scores,
        &t_scores,
    );
    input.seed = Some(20_240_101);
    let b = run_monte_carlo_simulation(
        &input,
        &Vec::new(),
        &Vec::new(),
        &Vec::new(),
        months,
        60,
        &scores,
        &t_scores,
    );
    assert_ne!(
        a.stats.return_moments.arithmetic_mean,
        b.stats.return_moments.arithmetic_mean
    );
}

#[test]
fn ages_step_by_months_in_hundredths() {
    let mut input = base_input();
    input.historical_annual_returns = Some(vec![0i64; 30]);
    input.mean_return = 0;
    let months: u32 = 25;
    let scores = zero_scores(months, 400);
    let t_scores = vec![0i64; 120];
    let r = run_monte_carlo_simulation(
        &input,
        &Vec::new(),
        &Vec::new(),
        &Vec::new(),
        months,
        12,
        &scores,
        &t_scores,
    );
    assert_eq!(r.simulation.ages.len(), 25);
    assert_eq!(r.simulation.ages[0], 3_000);
    assert_eq!(r.simulation.ages[12], 3_100);
    // one month is 1/12 year, about 0.08 of a year in hundredths
    assert_eq!(r.simulation.ages[1], 3_008);
}
