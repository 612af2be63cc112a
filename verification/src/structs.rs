//! Input payload types on the fixed-point grids: ages in ppm years,
//! money in cents, rates and probabilities in ppm. The host converts
//! its floating-point payloads to these grids before calling in.

use vstd::prelude::*;

verus! {

use crate::engine::RATE_CAP_PPM;
use crate::SCALE;

/// Ages are capped at two hundred years on the ppm grid.
pub const AGE_CAP_PPM: i64 = 200_000_000;

/// Money amounts are capped at 10^17 cents.
pub const MONEY_CAP_CENTS: i64 = 100_000_000_000_000_000;

/// Supplied return histories are capped in length and magnitude.
pub const HISTORY_LEN_CAP: usize = 10_000;

pub const HISTORY_VALUE_CAP_PPM: i64 = 100_000_000;

/// Spending-period, income-source and lump-sum lists are capped in length.
pub const SCHEDULE_LEN_CAP: usize = 10_000;

#[derive(Clone, Copy, Debug, PartialEq, Eq, Structural)]
pub enum SimulationMode {
    Historical,
    Parametric,
}

#[derive(Clone, Debug)]
pub struct SpendingPeriod {
    pub id: String,
    pub label: String,
    /// Inclusive lower age bound, ppm years.
    pub from_age: i64,
    /// Exclusive upper age bound, ppm years.
    pub to_age: i64,
    /// Today's dollars per year, in cents.
    pub yearly_amount: i64,
    /// Defaults to true when absent.
    pub inflation_adjusted: Option<bool>,
}

#[derive(Clone, Debug)]
pub struct IncomeSource {
    pub id: String,
    pub label: String,
    pub from_age: i64,
    pub to_age: i64,
    pub yearly_amount: i64,
    pub inflation_adjusted: Option<bool>,
}

#[derive(Clone, Debug)]
pub struct LumpSumEvent {
    pub id: String,
    pub label: String,
    pub age: i64,
    pub amount: i64,
}

#[derive(Clone, Copy, Debug)]
pub struct RegimeModelInput {
    pub stay_growth: i64,
    pub stay_crisis: i64,
    pub growth_mean: i64,
    pub growth_std: i64,
    pub crisis_mean: i64,
    pub crisis_std: i64,
}

#[derive(Clone, Debug)]
pub struct RetirementInput {
    pub simulation_mode: SimulationMode,
    pub historical_moment_targeting: Option<bool>,
    pub current_age: i64,
    pub retirement_age: i64,
    pub simulate_until_age: i64,
    pub current_savings: i64,
    pub mean_return: i64,
    pub return_variability: i64,
    pub return_skewness: i64,
    pub return_kurtosis: i64,
    pub equity_bond_correlation: i64,
    pub inflation_mean: i64,
    pub inflation_variability: i64,
    pub inflation_skewness: i64,
    pub inflation_kurtosis: i64,
    pub inflation_crisis_spread: Option<i64>,
    pub block_length: Option<usize>,
    pub annual_fee_percent: i64,
    pub tax_on_gains_percent: i64,
    pub seed: Option<u32>,
    pub safe_withdrawal_rate: i64,
    pub simulations: u32,
    pub regime_model: RegimeModelInput,
    pub historical_annual_returns: Option<Vec<i64>>,
    pub historical_monthly_returns: Option<Vec<i64>>,
}

impl SpendingPeriod {
    pub open spec fn valid(&self) -> bool {
        &&& -AGE_CAP_PPM <= self.from_age <= AGE_CAP_PPM
        &&& -AGE_CAP_PPM <= self.to_age <= AGE_CAP_PPM
        &&& -MONEY_CAP_CENTS <= self.yearly_amount <= MONEY_CAP_CENTS
    }
}

impl IncomeSource {
    pub open spec fn valid(&self) -> bool {
        &&& -AGE_CAP_PPM <= self.from_age <= AGE_CAP_PPM
        &&& -AGE_CAP_PPM <= self.to_age <= AGE_CAP_PPM
        &&& -MONEY_CAP_CENTS <= self.yearly_amount <= MONEY_CAP_CENTS
    }
}

impl LumpSumEvent {
    pub open spec fn valid(&self) -> bool {
        &&& -AGE_CAP_PPM <= self.age <= AGE_CAP_PPM
        &&& -MONEY_CAP_CENTS <= self.amount <= MONEY_CAP_CENTS
    }
}

impl RegimeModelInput {
    pub open spec fn valid(&self) -> bool {
        &&& -SCALE <= self.stay_growth <= 2 * SCALE
        &&& -SCALE <= self.stay_crisis <= 2 * SCALE
        &&& -RATE_CAP_PPM <= self.growth_mean <= RATE_CAP_PPM
        &&& -RATE_CAP_PPM <= self.growth_std <= RATE_CAP_PPM
        &&& -RATE_CAP_PPM <= self.crisis_mean <= RATE_CAP_PPM
        &&& -RATE_CAP_PPM <= self.crisis_std <= RATE_CAP_PPM
    }
}

pub open spec fn history_valid(h: Option<Vec<i64>>) -> bool {
    match h {
        Option::None => true,
        Option::Some(v) => v@.len() <= HISTORY_LEN_CAP && forall|i: int|
            0 <= i < v@.len() ==> -HISTORY_VALUE_CAP_PPM <= #[trigger] v@[i]
                <= HISTORY_VALUE_CAP_PPM,
    }
}

impl RetirementInput {
    /// The machine-limit bounds under which the engine's fixed-point
    /// arithmetic is exact; the host rejects anything outside them.
    pub open spec fn valid(&self) -> bool {
        &&& 0 <= self.current_age <= AGE_CAP_PPM
        &&& 0 <= self.retirement_age <= AGE_CAP_PPM
        &&& 0 <= self.simulate_until_age <= AGE_CAP_PPM
        &&& 0 <= self.current_savings <= MONEY_CAP_CENTS
        &&& -RATE_CAP_PPM <= self.mean_return <= RATE_CAP_PPM
        &&& -RATE_CAP_PPM <= self.return_variability <= RATE_CAP_PPM
        &&& -RATE_CAP_PPM <= self.inflation_mean <= RATE_CAP_PPM
        &&& -RATE_CAP_PPM <= self.inflation_variability <= RATE_CAP_PPM
        &&& (match self.inflation_crisis_spread {
            Option::None => true,
            Option::Some(s) => 0 <= s <= SCALE,
        })
        &&& (match self.block_length {
            Option::None => true,
            Option::Some(b) => b <= 1_000_000,
        })
        &&& 0 <= self.safe_withdrawal_rate <= RATE_CAP_PPM
        &&& self.regime_model.valid()
        &&& history_valid(self.historical_annual_returns)
        &&& history_valid(self.historical_monthly_returns)
    }
}

fn check_history(h: &Option<Vec<i64>>) -> (r: bool)
    ensures
        r == history_valid(*h),
{
    match h {
        Option::None => true,
        Option::Some(v) => {
            if v.len() > HISTORY_LEN_CAP {
                return false;
            }
            let mut ok = true;
            let mut i: usize = 0;
            while i < v.len()
                invariant
                    i <= v@.len(),
                    ok == (forall|k: int|
                        0 <= k < i ==> -HISTORY_VALUE_CAP_PPM <= #[trigger] v@[k]
                            <= HISTORY_VALUE_CAP_PPM),
                decreases v@.len() - i,
            {
                if v[i] < -HISTORY_VALUE_CAP_PPM || v[i] > HISTORY_VALUE_CAP_PPM {
                    proof {
                        assert(!(-HISTORY_VALUE_CAP_PPM <= v@[i as int]
                            <= HISTORY_VALUE_CAP_PPM));
                    }
                    ok = false;
                }
                i += 1;
            }
            ok
        },
    }
}

/// Exec mirror of `RetirementInput::valid`, for hosts to test before a run.
pub fn check_retirement_input(input: &RetirementInput) -> (r: bool)
    ensures
        r == input.valid(),
{
    let mode_ok = 0 <= input.current_age && input.current_age <= AGE_CAP_PPM
        && 0 <= input.retirement_age && input.retirement_age <= AGE_CAP_PPM
        && 0 <= input.simulate_until_age && input.simulate_until_age <= AGE_CAP_PPM
        && 0 <= input.current_savings && input.current_savings <= MONEY_CAP_CENTS
        && -RATE_CAP_PPM <= input.mean_return && input.mean_return <= RATE_CAP_PPM
        && -RATE_CAP_PPM <= input.return_variability && input.return_variability <= RATE_CAP_PPM
        && -RATE_CAP_PPM <= input.inflation_mean && input.inflation_mean <= RATE_CAP_PPM
        && -RATE_CAP_PPM <= input.inflation_variability && input.inflation_variability
            <= RATE_CAP_PPM
        && 0 <= input.safe_withdrawal_rate && input.safe_withdrawal_rate <= RATE_CAP_PPM;
    if !mode_ok {
        return false;
    }
    let spread_ok = match &input.inflation_crisis_spread {
        Option::None => true,
        Option::Some(s) => 0 <= *s && *s <= SCALE,
    };
    if !spread_ok {
        return false;
    }
    let block_ok = match &input.block_length {
        Option::None => true,
        Option::Some(b) => *b <= 1_000_000,
    };
    if !block_ok {
        return false;
    }
    let rm = &input.regime_model;
    let rm_ok = -SCALE <= rm.stay_growth && rm.stay_growth <= 2 * SCALE && -SCALE <= rm.stay_crisis
        && rm.stay_crisis <= 2 * SCALE && -RATE_CAP_PPM <= rm.growth_mean && rm.growth_mean
        <= RATE_CAP_PPM && -RATE_CAP_PPM <= rm.growth_std && rm.growth_std <= RATE_CAP_PPM
        && -RATE_CAP_PPM <= rm.crisis_mean && rm.crisis_mean <= RATE_CAP_PPM && -RATE_CAP_PPM
        <= rm.crisis_std && rm.crisis_std <= RATE_CAP_PPM;
    if !rm_ok {
        return false;
    }
    if !check_history(&input.historical_annual_returns) {
        return false;
    }
    if !check_history(&input.historical_monthly_returns) {
        return false;
    }
    true
}

/// Exec check of a spending-period list against its validity bounds.
pub fn check_spending_periods(periods: &Vec<SpendingPeriod>) -> (r: bool)
    ensures
        r == (periods@.len() <= SCHEDULE_LEN_CAP && forall|i: int|
            0 <= i < periods@.len() ==> (#[trigger] periods@[i]).valid()),
{
    if periods.len() > SCHEDULE_LEN_CAP {
        return false;
    }
    let mut i: usize = 0;
    while i < periods.len()
        invariant
            i <= periods@.len(),
            forall|k: int| 0 <= k < i ==> (#[trigger] periods@[k]).valid(),
        decreases periods@.len() - i,
    {
        let p = &periods[i];
        if p.from_age < -AGE_CAP_PPM || p.from_age > AGE_CAP_PPM || p.to_age < -AGE_CAP_PPM
            || p.to_age > AGE_CAP_PPM || p.yearly_amount < -MONEY_CAP_CENTS || p.yearly_amount
            > MONEY_CAP_CENTS {
            return false;
        }
        i += 1;
    }
    true
}

/// Exec check of an income-source list against its validity bounds.
pub fn check_income_sources(sources: &Vec<IncomeSource>) -> (r: bool)
    ensures
        r == (sources@.len() <= SCHEDULE_LEN_CAP && forall|i: int|
            0 <= i < sources@.len() ==> (#[trigger] sources@[i]).valid()),
{
    if sources.len() > SCHEDULE_LEN_CAP {
        return false;
    }
    let mut i: usize = 0;
    while i < sources.len()
        invariant
            i <= sources@.len(),
            forall|k: int| 0 <= k < i ==> (#[trigger] sources@[k]).valid(),
        decreases sources@.len() - i,
    {
        let s = &sources[i];
        if s.from_age < -AGE_CAP_PPM || s.from_age > AGE_CAP_PPM || s.to_age < -AGE_CAP_PPM
            || s.to_age > AGE_CAP_PPM || s.yearly_amount < -MONEY_CAP_CENTS || s.yearly_amount
            > MONEY_CAP_CENTS {
            return false;
        }
        i += 1;
    }
    true
}

/// Exec check of a lump-sum list against its validity bounds.
pub fn check_lump_sum_events(events: &Vec<LumpSumEvent>) -> (r: bool)
    ensures
        r == (events@.len() <= SCHEDULE_LEN_CAP && forall|i: int|
            0 <= i < events@.len() ==> (#[trigger] events@[i]).valid()),
{
    if events.len() > SCHEDULE_LEN_CAP {
        return false;
    }
    let mut i: usize = 0;
    while i < events.len()
        invariant
            i <= events@.len(),
            forall|k: int| 0 <= k < i ==> (#[trigger] events@[k]).valid(),
        decreases events@.len() - i,
    {
        let e = &events[i];
        if e.age < -AGE_CAP_PPM || e.age > AGE_CAP_PPM || e.amount < -MONEY_CAP_CENTS || e.amount
            > MONEY_CAP_CENTS {
            return false;
        }
        i += 1;
    }
    true
}

} // verus!
