//! The cashflow builder: spending periods, income sources and lump-sum
//! events expanded into per-month net-flow and lump-sum arrays, deflated
//! by the expected-inflation index.

use vstd::prelude::*;

verus! {

use crate::engine::monthly_rate_spec;
use crate::fixed::{clamp_spec, floor_div_i128, lemma_div_within, round_div, round_div_spec, sat_add, sat_to_i64};
use crate::structs::{IncomeSource, LumpSumEvent, RetirementInput, SpendingPeriod};
use crate::SCALE;
use vstd::arithmetic::div_mod::{lemma_div_is_ordered, lemma_div_multiples_vanish};

/// The horizon is capped at a thousand years of months.
pub const MONTHS_CAP: u32 = 12_000;

/// The expected-inflation index saturates at this many ppm.
pub const INDEX_CAP_PPM: i64 = 1_000_000_000_000_000_000;

/// The age reached `m` months into the run, on the ppm-year grid.
pub open spec fn month_age_spec(current_age: int, m: int) -> int {
    current_age + (m * SCALE) / 12
}

/// One month of inflation compounding, floored at one ppm-millionth and
/// saturated at the index cap.
pub open spec fn index_step_spec(x: int, f: int) -> int {
    let next = (x * f) / (SCALE as int);
    if next < 1 {
        1
    } else if next > INDEX_CAP_PPM {
        INDEX_CAP_PPM as int
    } else {
        next
    }
}

/// The expected-inflation index after `k` months of compounding at the
/// monthly factor `f` (ppm).
pub open spec fn inflation_index_spec(f: int, k: nat) -> int
    decreases k,
{
    if k == 0 {
        SCALE as int
    } else {
        index_step_spec(inflation_index_spec(f, (k - 1) as nat), f)
    }
}

/// The monthly inflation factor implied by an annual inflation mean.
pub open spec fn inflation_factor_spec(inflation_mean: int) -> int {
    SCALE + monthly_rate_spec(inflation_mean)
}

/// The index the engine uses at month `m`.
pub open spec fn month_index_spec(inflation_mean: int, m: int) -> int {
    inflation_index_spec(inflation_factor_spec(inflation_mean), m as nat)
}

pub proof fn lemma_index_in_range(f: int, k: nat)
    ensures
        1 <= inflation_index_spec(f, k) <= INDEX_CAP_PPM,
    decreases k,
{
    if k > 0 {
        lemma_index_in_range(f, (k - 1) as nat);
    }
}

/// A matching schedule entry covers `fromAge <= age < toAge`.
pub open spec fn age_in_window(from_age: int, to_age: int, age: int) -> bool {
    from_age <= age && to_age > age
}

/// A yearly amount, deflated by the index unless inflation-adjusted.
pub open spec fn adjusted_amount(yearly: int, inflation_adjusted: Option<bool>, idx: int) -> int {
    if inflation_adjusted != Option::Some(false) {
        yearly
    } else {
        (yearly * SCALE) / idx
    }
}

/// Total spending matched at an age, before saturation.
pub open spec fn spending_sum_spec(periods: Seq<SpendingPeriod>, age: int, idx: int) -> int
    decreases periods.len(),
{
    if periods.len() == 0 {
        0
    } else {
        let p = periods.last();
        spending_sum_spec(periods.drop_last(), age, idx) + if age_in_window(
            p.from_age as int,
            p.to_age as int,
            age,
        ) {
            adjusted_amount(p.yearly_amount as int, p.inflation_adjusted, idx)
        } else {
            0
        }
    }
}

/// Total income matched at an age, before saturation.
pub open spec fn income_sum_spec(sources: Seq<IncomeSource>, age: int, idx: int) -> int
    decreases sources.len(),
{
    if sources.len() == 0 {
        0
    } else {
        let s = sources.last();
        income_sum_spec(sources.drop_last(), age, idx) + if age_in_window(
            s.from_age as int,
            s.to_age as int,
            age,
        ) {
            adjusted_amount(s.yearly_amount as int, s.inflation_adjusted, idx)
        } else {
            0
        }
    }
}

proof fn lemma_spending_sum_bound(periods: Seq<SpendingPeriod>, age: int, idx: int)
    requires
        idx >= 1,
        forall|i: int| 0 <= i < periods.len() ==> (#[trigger] periods[i]).valid(),
    ensures
        -periods.len() * 100_000_000_000_000_000_000_000 <= spending_sum_spec(periods, age, idx)
            <= periods.len() * 100_000_000_000_000_000_000_000,
    decreases periods.len(),
{
    if periods.len() > 0 {
        let p = periods.last();
        lemma_spending_sum_bound(periods.drop_last(), age, idx);
        lemma_adjusted_amount_bound(p.yearly_amount as int, p.inflation_adjusted, idx);
        assert((periods.len() - 1) * 100_000_000_000_000_000_000_000
            + 100_000_000_000_000_000_000_000 == periods.len()
            * 100_000_000_000_000_000_000_000) by (nonlinear_arith);
    }
}

proof fn lemma_income_sum_bound(sources: Seq<IncomeSource>, age: int, idx: int)
    requires
        idx >= 1,
        forall|i: int| 0 <= i < sources.len() ==> (#[trigger] sources[i]).valid(),
    ensures
        -sources.len() * 100_000_000_000_000_000_000_000 <= income_sum_spec(sources, age, idx)
            <= sources.len() * 100_000_000_000_000_000_000_000,
    decreases sources.len(),
{
    if sources.len() > 0 {
        let s = sources.last();
        lemma_income_sum_bound(sources.drop_last(), age, idx);
        lemma_adjusted_amount_bound(s.yearly_amount as int, s.inflation_adjusted, idx);
        assert((sources.len() - 1) * 100_000_000_000_000_000_000_000
            + 100_000_000_000_000_000_000_000 == sources.len()
            * 100_000_000_000_000_000_000_000) by (nonlinear_arith);
    }
}

proof fn lemma_adjusted_amount_bound(yearly: int, inflation_adjusted: Option<bool>, idx: int)
    requires
        idx >= 1,
        -100_000_000_000_000_000 <= yearly <= 100_000_000_000_000_000,
    ensures
        -100_000_000_000_000_000_000_000 <= adjusted_amount(yearly, inflation_adjusted, idx)
            <= 100_000_000_000_000_000_000_000,
{
    if inflation_adjusted == Option::Some(false) {
        assert(-(100_000_000_000_000_000_000_000 * idx) <= yearly * SCALE
            <= 100_000_000_000_000_000_000_000 * idx) by (nonlinear_arith)
            requires
                idx >= 1,
                -100_000_000_000_000_000 <= yearly <= 100_000_000_000_000_000,
                SCALE == 1_000_000;
        lemma_div_within(yearly * SCALE, idx, 100_000_000_000_000_000_000_000);
    }
}

/// Spending matched at `age`, saturated into the cent range.
pub fn spending_at_age(
    age: i64,
    spending_periods: &Vec<SpendingPeriod>,
    inflation_index: i64,
) -> (r: i64)
    requires
        1 <= inflation_index,
        spending_periods@.len() <= crate::structs::SCHEDULE_LEN_CAP,
        forall|i: int|
            0 <= i < spending_periods@.len() ==> (#[trigger] spending_periods@[i]).valid(),
    ensures
        r == clamp_spec(
            spending_sum_spec(spending_periods@, age as int, inflation_index as int),
            i64::MIN as int,
            i64::MAX as int,
        ),
{
    let mut acc: i128 = 0;
    let mut i: usize = 0;
    proof {
        assert(spending_periods@.subrange(0, 0) =~= Seq::<SpendingPeriod>::empty());
    }
    while i < spending_periods.len()
        invariant
            i <= spending_periods@.len(),
            spending_periods@.len() <= crate::structs::SCHEDULE_LEN_CAP,
            1 <= inflation_index,
            forall|k: int|
                0 <= k < spending_periods@.len() ==> (#[trigger] spending_periods@[k]).valid(),
            acc == spending_sum_spec(
                spending_periods@.subrange(0, i as int),
                age as int,
                inflation_index as int,
            ),
            -(i as int) * 100_000_000_000_000_000_000_000 <= acc <= (i as int)
                * 100_000_000_000_000_000_000_000,
        decreases spending_periods@.len() - i,
    {
        let p = &spending_periods[i];
        proof {
            assert((i as int) * 100_000_000_000_000_000_000_000
                + 100_000_000_000_000_000_000_000 == (i as int + 1)
                * 100_000_000_000_000_000_000_000) by (nonlinear_arith);
            assert((i as int + 1) * 100_000_000_000_000_000_000_000 <= 10_000int
                * 100_000_000_000_000_000_000_000) by (nonlinear_arith)
                requires
                    i as int + 1 <= 10_000;
        }
        let matched = p.from_age <= age && p.to_age > age;
        if matched {
            let adjusted = match p.inflation_adjusted {
                Option::Some(b) => b,
                Option::None => true,
            };
            proof {
                assert(spending_periods@[i as int].valid());
                assert(-100_000_000_000_000_000_000_000int <= p.yearly_amount as int
                    * SCALE as int <= 100_000_000_000_000_000_000_000int) by (nonlinear_arith)
                    requires
                        -100_000_000_000_000_000 <= p.yearly_amount <= 100_000_000_000_000_000,
                        SCALE == 1_000_000;
            }
            let amount: i128 = if adjusted {
                p.yearly_amount as i128
            } else {
                floor_div_i128(
                    (p.yearly_amount as i128) * (SCALE as i128),
                    inflation_index as i128,
                )
            };
            proof {
                lemma_adjusted_amount_bound(
                    p.yearly_amount as int,
                    p.inflation_adjusted,
                    inflation_index as int,
                );
            }
            acc = acc + amount;
        }
        proof {
            assert(spending_periods@.subrange(0, i as int + 1).drop_last()
                =~= spending_periods@.subrange(0, i as int));
            assert(spending_periods@.subrange(0, i as int + 1).last()
                == spending_periods@[i as int]);
        }
        i += 1;
    }
    proof {
        assert(spending_periods@.subrange(0, spending_periods@.len() as int)
            =~= spending_periods@);
    }
    sat_to_i64(acc)
}

/// Income matched at `age`, saturated into the cent range.
pub fn income_at_age(age: i64, income_sources: &Vec<IncomeSource>, inflation_index: i64) -> (r:
    i64)
    requires
        1 <= inflation_index,
        income_sources@.len() <= crate::structs::SCHEDULE_LEN_CAP,
        forall|i: int| 0 <= i < income_sources@.len() ==> (#[trigger] income_sources@[i]).valid(),
    ensures
        r == clamp_spec(
            income_sum_spec(income_sources@, age as int, inflation_index as int),
            i64::MIN as int,
            i64::MAX as int,
        ),
{
    let mut acc: i128 = 0;
    let mut i: usize = 0;
    proof {
        assert(income_sources@.subrange(0, 0) =~= Seq::<IncomeSource>::empty());
    }
    while i < income_sources.len()
        invariant
            i <= income_sources@.len(),
            income_sources@.len() <= crate::structs::SCHEDULE_LEN_CAP,
            1 <= inflation_index,
            forall|k: int|
                0 <= k < income_sources@.len() ==> (#[trigger] income_sources@[k]).valid(),
            acc == income_sum_spec(
                income_sources@.subrange(0, i as int),
                age as int,
                inflation_index as int,
            ),
            -(i as int) * 100_000_000_000_000_000_000_000 <= acc <= (i as int)
                * 100_000_000_000_000_000_000_000,
        decreases income_sources@.len() - i,
    {
        let s = &income_sources[i];
        proof {
            assert((i as int) * 100_000_000_000_000_000_000_000
                + 100_000_000_000_000_000_000_000 == (i as int + 1)
                * 100_000_000_000_000_000_000_000) by (nonlinear_arith);
            assert((i as int + 1) * 100_000_000_000_000_000_000_000 <= 10_000int
                * 100_000_000_000_000_000_000_000) by (nonlinear_arith)
                requires
                    i as int + 1 <= 10_000;
        }
        let matched = s.from_age <= age && s.to_age > age;
        if matched {
            let adjusted = match s.inflation_adjusted {
                Option::Some(b) => b,
                Option::None => true,
            };
            proof {
                assert(income_sources@[i as int].valid());
                assert(-100_000_000_000_000_000_000_000int <= s.yearly_amount as int
                    * SCALE as int <= 100_000_000_000_000_000_000_000int) by (nonlinear_arith)
                    requires
                        -100_000_000_000_000_000 <= s.yearly_amount <= 100_000_000_000_000_000,
                        SCALE == 1_000_000;
            }
            let amount: i128 = if adjusted {
                s.yearly_amount as i128
            } else {
                floor_div_i128(
                    (s.yearly_amount as i128) * (SCALE as i128),
                    inflation_index as i128,
                )
            };
            proof {
                lemma_adjusted_amount_bound(
                    s.yearly_amount as int,
                    s.inflation_adjusted,
                    inflation_index as int,
                );
            }
            acc = acc + amount;
        }
        proof {
            assert(income_sources@.subrange(0, i as int + 1).drop_last()
                =~= income_sources@.subrange(0, i as int));
            assert(income_sources@.subrange(0, i as int + 1).last() == income_sources@[i as int]);
        }
        i += 1;
    }
    proof {
        assert(income_sources@.subrange(0, income_sources@.len() as int) =~= income_sources@);
    }
    sat_to_i64(acc)
}

/// The saturated spending and income totals at month `m`, and the
/// net flow `(income - spending) / 12` that the simulation applies.
pub open spec fn net_flow_spec(
    input: RetirementInput,
    periods: Seq<SpendingPeriod>,
    incomes: Seq<IncomeSource>,
    m: int,
) -> int {
    let age = month_age_spec(input.current_age as int, m);
    let idx = month_index_spec(input.inflation_mean as int, m);
    let spending = clamp_spec(
        spending_sum_spec(periods, age, idx),
        i64::MIN as int,
        i64::MAX as int,
    );
    let income = clamp_spec(income_sum_spec(incomes, age, idx), i64::MIN as int, i64::MAX as int);
    (income - spending) / 12
}

/// The month a lump-sum event lands on: its age offset in rounded months.
pub open spec fn lump_month_of(event: LumpSumEvent, current_age: int) -> int {
    round_div_spec((event.age - current_age) * 12, SCALE as int)
}

/// The lump total landing on month `m`, saturated per addition in
/// event order.
pub open spec fn lump_sum_at_spec(
    events: Seq<LumpSumEvent>,
    current_age: int,
    m: int,
    months: int,
) -> int
    decreases events.len(),
{
    if events.len() == 0 {
        0
    } else {
        let prev = lump_sum_at_spec(events.drop_last(), current_age, m, months);
        let e = events.last();
        if lump_month_of(e, current_age) == m && 0 <= m < months {
            clamp_spec(prev + e.amount, i64::MIN as int, i64::MAX as int)
        } else {
            prev
        }
    }
}

pub struct CashflowArrays {
    pub monthly_net_flow: Vec<i64>,
    pub lump_sum_by_month: Vec<i64>,
}

/// Expand the schedules into per-month net flow and lump-sum arrays.
pub fn build_cashflow_arrays(
    input: &RetirementInput,
    spending_periods: &Vec<SpendingPeriod>,
    income_sources: &Vec<IncomeSource>,
    lump_sum_events: &Vec<LumpSumEvent>,
    months: u32,
) -> (r: CashflowArrays)
    requires
        input.valid(),
        months <= MONTHS_CAP,
        spending_periods@.len() <= crate::structs::SCHEDULE_LEN_CAP,
        forall|i: int|
            0 <= i < spending_periods@.len() ==> (#[trigger] spending_periods@[i]).valid(),
        income_sources@.len() <= crate::structs::SCHEDULE_LEN_CAP,
        forall|i: int| 0 <= i < income_sources@.len() ==> (#[trigger] income_sources@[i]).valid(),
        lump_sum_events@.len() <= crate::structs::SCHEDULE_LEN_CAP,
        forall|i: int|
            0 <= i < lump_sum_events@.len() ==> (#[trigger] lump_sum_events@[i]).valid(),
    ensures
        r.monthly_net_flow@.len() == months,
        r.lump_sum_by_month@.len() == months,
        forall|m: int|
            0 <= m < months ==> #[trigger] r.monthly_net_flow@[m] == net_flow_spec(
                *input,
                spending_periods@,
                income_sources@,
                m,
            ),
        forall|m: int|
            0 <= m < months ==> #[trigger] r.lump_sum_by_month@[m] == lump_sum_at_spec(
                lump_sum_events@,
                input.current_age as int,
                m,
                months as int,
            ),
{
    let monthly_rate = crate::engine::annual_to_monthly_return(input.inflation_mean);
    let factor: i64 = SCALE + monthly_rate;
    let mut net: Vec<i64> = Vec::new();
    let mut idx: i64 = SCALE;
    let mut m: usize = 0;
    while m < months as usize
        invariant
            m <= months,
            months <= MONTHS_CAP,
            input.valid(),
            factor == inflation_factor_spec(input.inflation_mean as int),
            0 <= factor <= 2_400_000,
            spending_periods@.len() <= crate::structs::SCHEDULE_LEN_CAP,
            forall|i: int|
                0 <= i < spending_periods@.len() ==> (#[trigger] spending_periods@[i]).valid(),
            income_sources@.len() <= crate::structs::SCHEDULE_LEN_CAP,
            forall|i: int|
                0 <= i < income_sources@.len() ==> (#[trigger] income_sources@[i]).valid(),
            idx == inflation_index_spec(factor as int, m as nat),
            1 <= idx <= INDEX_CAP_PPM,
            net@.len() == m,
            forall|k: int|
                0 <= k < m ==> #[trigger] net@[k] == net_flow_spec(
                    *input,
                    spending_periods@,
                    income_sources@,
                    k,
                ),
        decreases months - m,
    {
        let age: i64 = input.current_age + (((m as u64) * (SCALE as u64)) / 12) as i64;
        let spending = spending_at_age(age, spending_periods, idx);
        let income = income_at_age(age, income_sources, idx);
        proof {
            lemma_div_within(income as int - spending as int, 12, i64::MAX as int);
        }
        let flow: i64 = floor_div_i128((income as i128) - (spending as i128), 12) as i64;
        proof {
            assert(month_age_spec(input.current_age as int, m as int) == age as int);
        }
        net.push(flow);
        // advance the index by one month of compounding
        proof {
            assert(idx as int * factor as int <= i128::MAX && idx as int * factor as int
                >= i128::MIN) by (nonlinear_arith)
                requires
                    1 <= idx <= INDEX_CAP_PPM,
                    0 <= factor <= 2_400_000,
                    INDEX_CAP_PPM == 1_000_000_000_000_000_000;
        }
        let wide: i128 = (idx as i128) * (factor as i128);
        let next: i128 = floor_div_i128(wide, SCALE as i128);
        let idx_next: i64 = if next < 1 {
            1
        } else if next > INDEX_CAP_PPM as i128 {
            INDEX_CAP_PPM
        } else {
            next as i64
        };
        proof {
            assert(idx_next == index_step_spec(idx as int, factor as int));
        }
        idx = idx_next;
        m += 1;
    }
    let mut lump: Vec<i64> = Vec::new();
    let mut m2: usize = 0;
    while m2 < months as usize
        invariant
            m2 <= months,
            lump@.len() == m2,
            forall|k: int| 0 <= k < m2 ==> #[trigger] lump@[k] == 0,
        decreases months - m2,
    {
        lump.push(0);
        m2 += 1;
    }
    proof {
        assert forall|k: int| 0 <= k < months implies lump@[k] == lump_sum_at_spec(
            lump_sum_events@.subrange(0, 0),
            input.current_age as int,
            k,
            months as int,
        ) by {
            assert(lump_sum_events@.subrange(0, 0) =~= Seq::<LumpSumEvent>::empty());
        }
    }
    let mut e: usize = 0;
    while e < lump_sum_events.len()
        invariant
            e <= lump_sum_events@.len(),
            input.valid(),
            months <= MONTHS_CAP,
            lump@.len() == months,
            forall|i: int|
                0 <= i < lump_sum_events@.len() ==> (#[trigger] lump_sum_events@[i]).valid(),
            forall|k: int|
                0 <= k < months ==> #[trigger] lump@[k] == lump_sum_at_spec(
                    lump_sum_events@.subrange(0, e as int),
                    input.current_age as int,
                    k,
                    months as int,
                ),
        decreases lump_sum_events@.len() - e,
    {
        let ev = &lump_sum_events[e];
        let diff: i64 = (ev.age - input.current_age) * 12;
        let month_index: i64 = round_div(diff, SCALE);
        let ghost pre = lump@;
        if month_index >= 0 && (month_index as u64) < months as u64 {
            let mi = month_index as usize;
            let updated = sat_add(lump[mi], ev.amount);
            lump.set(mi, updated);
        }
        proof {
            assert forall|k: int| 0 <= k < months implies lump@[k] == lump_sum_at_spec(
                lump_sum_events@.subrange(0, e as int + 1),
                input.current_age as int,
                k,
                months as int,
            ) by {
                assert(lump_sum_events@.subrange(0, e as int + 1).drop_last()
                    =~= lump_sum_events@.subrange(0, e as int));
                assert(lump_sum_events@.subrange(0, e as int + 1).last()
                    == lump_sum_events@[e as int]);
            }
        }
        e += 1;
    }
    proof {
        assert(lump_sum_events@.subrange(0, lump_sum_events@.len() as int) =~= lump_sum_events@);
    }
    CashflowArrays { monthly_net_flow: net, lump_sum_by_month: lump }
}

/// The expected-inflation index at an age on the month grid.
pub fn expected_inflation_index_at_age(input: &RetirementInput, age: i64) -> (r: i64)
    requires
        input.valid(),
        -AGE_BOUND_PPM <= age <= AGE_BOUND_PPM,
    ensures
        ({
            let diff = (age - input.current_age) * 12;
            let k = if round_div_spec(diff, SCALE as int) > 0 {
                round_div_spec(diff, SCALE as int)
            } else {
                0
            };
            r == inflation_index_spec(inflation_factor_spec(input.inflation_mean as int), k as nat)
        }),
        1 <= r <= INDEX_CAP_PPM,
{
    let monthly_rate = crate::engine::annual_to_monthly_return(input.inflation_mean);
    let factor: i64 = SCALE + monthly_rate;
    let diff: i64 = (age - input.current_age) * 12;
    let rounded = round_div(diff, SCALE);
    proof {
        if diff >= 0 {
            crate::fixed::lemma_round_div_nonneg_bounds(diff as int, SCALE as int);
        } else {
            lemma_div_is_ordered(0, -(diff as int) + (SCALE as int) / 2, SCALE as int);
        }
    }
    let k: i64 = if rounded > 0 {
        rounded
    } else {
        0
    };
    let mut idx: i64 = SCALE;
    let mut j: i64 = 0;
    proof {
        lemma_index_in_range(factor as int, 0);
    }
    while j < k
        invariant
            0 <= j <= k,
            k <= 9_600_000_000,
            idx == inflation_index_spec(factor as int, j as nat),
            1 <= idx <= INDEX_CAP_PPM,
            0 <= factor <= 2_400_000,
        decreases k - j,
    {
        proof {
            assert(idx as int * factor as int <= i128::MAX && idx as int * factor as int
                >= i128::MIN) by (nonlinear_arith)
                requires
                    1 <= idx <= INDEX_CAP_PPM,
                    0 <= factor <= 2_400_000,
                    INDEX_CAP_PPM == 1_000_000_000_000_000_000;
        }
        let wide: i128 = (idx as i128) * (factor as i128);
        let next: i128 = floor_div_i128(wide, SCALE as i128);
        let idx_next: i64 = if next < 1 {
            1
        } else if next > INDEX_CAP_PPM as i128 {
            INDEX_CAP_PPM
        } else {
            next as i64
        };
        proof {
            assert(idx_next == index_step_spec(idx as int, factor as int));
        }
        idx = idx_next;
        j += 1;
    }
    idx
}

/// Ages handed to the per-age helpers stay within twice the age cap.
pub const AGE_BOUND_PPM: i64 = 400_000_000;

/// The net flows of `k` consecutive months starting at `m0`, summed.
pub open spec fn net_flow_window_sum(
    input: RetirementInput,
    periods: Seq<SpendingPeriod>,
    incomes: Seq<IncomeSource>,
    m0: int,
    k: nat,
) -> int
    decreases k,
{
    if k == 0 {
        0
    } else {
        net_flow_window_sum(input, periods, incomes, m0, (k - 1) as nat) + net_flow_spec(
            input,
            periods,
            incomes,
            m0 + k - 1,
        )
    }
}

/// Over a year lying wholly inside one inflation-adjusted spending
/// period, with no income, the monthly net flows add up to exactly the
/// negated yearly amount, provided that amount splits evenly over
/// twelve months.
pub proof fn lemma_spending_year_adds_up(
    input: RetirementInput,
    periods: Seq<SpendingPeriod>,
    incomes: Seq<IncomeSource>,
    m0: int,
)
    requires
        periods.len() == 1,
        periods[0].valid(),
        periods[0].inflation_adjusted != Option::Some(false),
        periods[0].yearly_amount % 12 == 0,
        incomes.len() == 0,
        forall|m: int|
            m0 <= m < m0 + 12 ==> age_in_window(
                periods[0].from_age as int,
                periods[0].to_age as int,
                month_age_spec(input.current_age as int, m),
            ),
    ensures
        net_flow_window_sum(input, periods, incomes, m0, 12) == -periods[0].yearly_amount,
{
    let y = periods[0].yearly_amount as int;
    let q = y / 12;
    assert forall|m: int| m0 <= m < m0 + 12 implies net_flow_spec(input, periods, incomes, m)
        == -q by {
        let age = month_age_spec(input.current_age as int, m);
        let idx = month_index_spec(input.inflation_mean as int, m);
        assert(periods.drop_last() =~= Seq::<SpendingPeriod>::empty());
        assert(periods.last() == periods[0]);
        assert(age_in_window(periods[0].from_age as int, periods[0].to_age as int, age));
        assert(spending_sum_spec(periods.drop_last(), age, idx) == 0);
        assert(spending_sum_spec(periods, age, idx) == y);
        assert(income_sum_spec(incomes, age, idx) == 0);
        vstd::arithmetic::div_mod::lemma_fundamental_div_mod(y, 12);
        lemma_div_multiples_vanish(-q, 12);
        assert(12 * -q == -y);
        assert((0 - y) / 12 == -q);
    }
    assert(net_flow_window_sum(input, periods, incomes, m0, 12) == 12 * -q) by {
        reveal_with_fuel(net_flow_window_sum, 13);
    }
    assert(12 * -q == -y) by {
        vstd::arithmetic::div_mod::lemma_fundamental_div_mod(y, 12);
    }
}

} // verus!
