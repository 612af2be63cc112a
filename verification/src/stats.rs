//! Post-simulation statistics: the financial-independence target
//! solver and the ruin-surface replay over recorded growth factors.

use vstd::prelude::*;

verus! {

use crate::cashflow::{age_in_window, build_cashflow_arrays, lump_sum_at_spec, net_flow_spec, spending_sum_spec};
use crate::calculations::{sort_values, sorted_of};
use crate::fixed::{clamp_spec, floor_div_i128, round_div, round_div_spec, sat_add, sat_to_i64};
use crate::pools::{pair_le, sort_pairs};
use crate::structs::{IncomeSource, LumpSumEvent, RetirementInput, SpendingPeriod, MONEY_CAP_CENTS};
use crate::SCALE;
use vstd::arithmetic::div_mod::{lemma_div_is_ordered, lemma_div_multiples_vanish};

/// Replayed growth factors stay within this many ppm in magnitude.
pub const GROWTH_FACTOR_CAP_PPM: i64 = 4_000_000_000_000_000_000;

/// The retirement/ending outcomes paired and ordered ascending by
/// retirement balance (ties kept in simulation order).
pub open spec fn outcome_order_spec(retirement_balances: Seq<i64>, n: int) -> Seq<(i64, usize)> {
    Seq::new(n as nat, |i: int| (retirement_balances[i], i as usize)).sort_by(pair_le())
}

/// How many outcomes at or after position `i` of the order ended
/// positive.
pub open spec fn suffix_success_spec(
    order: Seq<(i64, usize)>,
    ending_balances: Seq<i64>,
    i: int,
) -> int
    decreases order.len() - i,
{
    if i < 0 || i >= order.len() {
        0
    } else {
        suffix_success_spec(order, ending_balances, i + 1) + if ending_balances[order[i].1 as int]
            > 0 {
            1int
        } else {
            0int
        }
    }
}

/// Walk the order from the bottom; the first position whose suffix
/// reaches the target success share gives the target balance, else the
/// largest balance stands.
pub open spec fn fi_target_from_spec(
    order: Seq<(i64, usize)>,
    ending_balances: Seq<i64>,
    target_ppm: int,
    i: int,
) -> int
    decreases order.len() - i,
{
    if i < 0 || i >= order.len() {
        order[order.len() - 1].0 as int
    } else if suffix_success_spec(order, ending_balances, i) * SCALE >= target_ppm * (order.len()
        - i) {
        order[i].0 as int
    } else {
        fi_target_from_spec(order, ending_balances, target_ppm, i + 1)
    }
}

/// The financial-independence target over paired outcome arrays; zero
/// when there are none, and never negative.
pub open spec fn fi_target_spec(
    retirement_balances: Seq<i64>,
    ending_balances: Seq<i64>,
    target_ppm: int,
) -> int {
    let n = if retirement_balances.len() <= ending_balances.len() {
        retirement_balances.len() as int
    } else {
        ending_balances.len() as int
    };
    if n == 0 {
        0
    } else {
        let order = outcome_order_spec(retirement_balances, n);
        let t = fi_target_from_spec(order, ending_balances, target_ppm, 0);
        if t < 0 {
            0
        } else {
            t
        }
    }
}

/// Find the smallest retirement balance whose at-or-above cohort ends
/// positive at least `target_success_ppm` of the time.
pub fn find_retirement_balance_target(
    retirement_balances: &Vec<i64>,
    ending_balances: &Vec<i64>,
    target_success_ppm: i64,
) -> (r: i64)
    requires
        0 <= target_success_ppm <= SCALE,
        retirement_balances@.len() < usize::MAX,
    ensures
        r == fi_target_spec(
            retirement_balances@,
            ending_balances@,
            target_success_ppm as int,
        ),
        r >= 0,
{
    let n: usize = if retirement_balances.len() <= ending_balances.len() {
        retirement_balances.len()
    } else {
        ending_balances.len()
    };
    if n == 0 {
        return 0;
    }
    let mut pairs: Vec<(i64, usize)> = Vec::new();
    let mut i: usize = 0;
    while i < n
        invariant
            i <= n,
            n <= retirement_balances@.len(),
            pairs@.len() == i,
            forall|k: int|
                0 <= k < i ==> #[trigger] pairs@[k] == (retirement_balances@[k], k as usize),
        decreases n - i,
    {
        pairs.push((retirement_balances[i], i));
        i += 1;
    }
    proof {
        assert(pairs@ =~= Seq::new(n as nat, |i: int| (retirement_balances@[i], i as usize)));
    }
    let order = sort_pairs(&pairs);
    proof {
        assert(vstd::relations::total_ordering(pair_le()));
        pairs@.lemma_sort_by_ensures(pair_le());
        vstd::seq_lib::to_multiset_len(pairs@);
        vstd::seq_lib::to_multiset_len(order@);
        lemma_order_indices_in_range(retirement_balances@, order@, n as int);
    }
    // suffix counts of positive endings
    let mut suffix: Vec<u64> = Vec::new();
    let mut zeros: usize = 0;
    while zeros <= n
        invariant
            zeros <= n + 1,
            n < usize::MAX,
            suffix@.len() == zeros,
            forall|k: int| 0 <= k < zeros ==> #[trigger] suffix@[k] == 0,
        decreases n + 1 - zeros,
    {
        suffix.push(0);
        zeros += 1;
    }
    let mut j: usize = n;
    while j > 0
        invariant
            0 <= j <= n,
            n == order@.len(),
            n <= ending_balances@.len(),
            suffix@.len() == n + 1,
            forall|k: int|
                0 <= k < order@.len() ==> (#[trigger] order@[k]).1 < ending_balances@.len(),
            forall|k: int|
                j <= k <= n ==> #[trigger] suffix@[k] == suffix_success_spec(
                    order@,
                    ending_balances@,
                    k,
                ),
            forall|k: int| j <= k <= n ==> #[trigger] suffix@[k] <= n - k,
        decreases j,
    {
        let jj = j - 1;
        let idx = order[jj].1;
        let pos: u64 = if ending_balances[idx] > 0 {
            1
        } else {
            0
        };
        let prev = suffix[jj + 1];
        suffix.set(jj, prev + pos);
        j = jj;
    }
    let mut required: i64 = order[n - 1].0;
    let ghost order_seq = order@;
    let mut found: bool = false;
    let mut k: usize = 0;
    while k < n
        invariant
            0 <= k <= n,
            0 <= target_success_ppm <= SCALE,
            n == order_seq.len(),
            order_seq == order@,
            n <= ending_balances@.len(),
            suffix@.len() == n + 1,
            forall|m: int|
                0 <= m <= n ==> #[trigger] suffix@[m] == suffix_success_spec(
                    order_seq,
                    ending_balances@,
                    m,
                ),
            forall|m: int| 0 <= m <= n ==> #[trigger] suffix@[m] <= n - m,
            !found ==> fi_target_from_spec(
                order_seq,
                ending_balances@,
                target_success_ppm as int,
                0,
            ) == fi_target_from_spec(
                order_seq,
                ending_balances@,
                target_success_ppm as int,
                k as int,
            ),
            !found ==> required == order_seq[n - 1].0,
            found ==> k == n,
            found ==> required == fi_target_from_spec(
                order_seq,
                ending_balances@,
                target_success_ppm as int,
                0,
            ),
        decreases n - k,
    {
        let s = suffix[k];
        proof {
            assert(s as int * SCALE as int <= u128::MAX && target_success_ppm as int * (n - k)
                as int <= u128::MAX) by (nonlinear_arith)
                requires
                    0 <= s as int <= u64::MAX,
                    0 <= target_success_ppm <= 1_000_000,
                    0 < (n - k) as int <= u64::MAX,
                    SCALE == 1_000_000;
        }
        let qualifies = (s as u128) * (SCALE as u128) >= (target_success_ppm as u128) * ((n - k)
            as u128);
        if qualifies {
            required = order[k].0;
            found = true;
            proof {
                assert(suffix_success_spec(order_seq, ending_balances@, k as int) * SCALE
                    >= target_success_ppm as int * (order_seq.len() - k as int));
                assert(fi_target_from_spec(
                    order_seq,
                    ending_balances@,
                    target_success_ppm as int,
                    k as int,
                ) == order_seq[k as int].0);
            }
            k = n;
        } else {
            proof {
                assert(!(suffix_success_spec(order_seq, ending_balances@, k as int) * SCALE
                    >= target_success_ppm as int * (order_seq.len() - k as int)));
            }
            k += 1;
        }
    }
    if required < 0 {
        0
    } else {
        required
    }
}

proof fn lemma_order_indices_in_range(values: Seq<i64>, order: Seq<(i64, usize)>, n: int)
    requires
        0 <= n <= values.len(),
        order.to_multiset() == Seq::new(n as nat, |i: int| (values[i], i as usize)).to_multiset(),
    ensures
        forall|k: int| 0 <= k < order.len() ==> (#[trigger] order[k]).1 < n,
{
    let pairs = Seq::new(n as nat, |i: int| (values[i], i as usize));
    assert forall|k: int| 0 <= k < order.len() implies (#[trigger] order[k]).1 < n by {
        vstd::seq_lib::to_multiset_contains(order, order[k]);
        vstd::seq_lib::to_multiset_contains(pairs, order[k]);
        assert(order.contains(order[k]));
        assert(pairs.contains(order[k]));
        let j = choose|j: int| 0 <= j < pairs.len() && pairs[j] == order[k];
        assert(pairs[j].1 == j as usize);
    }
}

/// One month of the ruin replay: cashflow in, growth applied, clamped
/// at zero.
pub open spec fn replay_step_spec(balance: int, flow: int, lump: int, factor: int) -> int {
    let pre = clamp_spec(
        clamp_spec(balance + flow, i64::MIN as int, i64::MAX as int) + lump,
        i64::MIN as int,
        i64::MAX as int,
    );
    let grown = clamp_spec((pre * factor) / (SCALE as int), i64::MIN as int, i64::MAX as int);
    if grown <= 0 {
        0
    } else {
        grown
    }
}

/// The replayed balance after `k` months.
pub open spec fn replay_balance_spec(
    factors: Seq<i64>,
    flows: Seq<i64>,
    lumps: Seq<i64>,
    start: int,
    k: int,
) -> int
    decreases k,
{
    if k <= 0 {
        start
    } else {
        replay_step_spec(
            replay_balance_spec(factors, flows, lumps, start, k - 1),
            flows[k - 1] as int,
            lumps[k - 1] as int,
            factors[k - 1] as int,
        )
    }
}

/// A replayed simulation is ruined when its balance ever hit zero, or
/// ends at zero.
pub open spec fn replay_ruined_spec(
    factors: Seq<i64>,
    flows: Seq<i64>,
    lumps: Seq<i64>,
    start: int,
    months: int,
) -> bool {
    (exists|m: int|
        0 < m <= months && replay_balance_spec(factors, flows, lumps, start, m) == 0)
        || replay_balance_spec(factors, flows, lumps, start, months) <= 0
}

/// How many of the first `k` replayed simulations are ruined.
pub open spec fn ruin_count_spec(
    growth_factors: Seq<Vec<i64>>,
    flows: Seq<i64>,
    lumps: Seq<i64>,
    start: int,
    months: int,
    k: int,
) -> int
    decreases k,
{
    if k <= 0 {
        0
    } else {
        ruin_count_spec(growth_factors, flows, lumps, start, months, k - 1) + if replay_ruined_spec(
            growth_factors[k - 1]@,
            flows,
            lumps,
            start,
            months,
        ) {
            1int
        } else {
            0int
        }
    }
}

/// Replay the recorded growth factors against a cashflow schedule and
/// report the ruined fraction (ppm).
pub fn replay_ruin_probability(
    growth_factors: &Vec<Vec<i64>>,
    monthly_net_flow: &Vec<i64>,
    lump_sum_by_month: &Vec<i64>,
    current_savings: i64,
    sample_count: usize,
    months: u32,
) -> (r: i64)
    requires
        sample_count <= growth_factors@.len(),
        monthly_net_flow@.len() == months,
        lump_sum_by_month@.len() == months,
        forall|s: int| 0 <= s < growth_factors@.len() ==> (#[trigger] growth_factors@[s])@.len()
            == months,
        forall|s: int, m: int|
            0 <= s < growth_factors@.len() && 0 <= m < months ==> -GROWTH_FACTOR_CAP_PPM
                <= #[trigger] growth_factors@[s]@[m] <= GROWTH_FACTOR_CAP_PPM,
    ensures
        r == (ruin_count_spec(
            growth_factors@,
            monthly_net_flow@,
            lump_sum_by_month@,
            current_savings as int,
            months as int,
            sample_count as int,
        ) * SCALE) / (if sample_count == 0 {
            1int
        } else {
            sample_count as int
        }),
        0 <= r <= SCALE,
{
    let mut ruin_count: u64 = 0;
    let mut sim: usize = 0;
    while sim < sample_count
        invariant
            sim <= sample_count,
            sample_count <= growth_factors@.len(),
            monthly_net_flow@.len() == months,
            lump_sum_by_month@.len() == months,
            forall|s: int|
                0 <= s < growth_factors@.len() ==> (#[trigger] growth_factors@[s])@.len()
                    == months,
            forall|s: int, m: int|
                0 <= s < growth_factors@.len() && 0 <= m < months ==> -GROWTH_FACTOR_CAP_PPM
                    <= #[trigger] growth_factors@[s]@[m] <= GROWTH_FACTOR_CAP_PPM,
            ruin_count == ruin_count_spec(
                growth_factors@,
                monthly_net_flow@,
                lump_sum_by_month@,
                current_savings as int,
                months as int,
                sim as int,
            ),
            ruin_count <= sim,
        decreases sample_count - sim,
    {
        let row = &growth_factors[sim];
        let mut balance: i64 = current_savings;
        let mut ruined: bool = false;
        let mut m: usize = 0;
        while m < months as usize
            invariant
                m <= months,
                monthly_net_flow@.len() == months,
                lump_sum_by_month@.len() == months,
                row@.len() == months,
                forall|mm: int| 0 <= mm < months ==> -GROWTH_FACTOR_CAP_PPM <= #[trigger] row@[mm]
                    <= GROWTH_FACTOR_CAP_PPM,
                balance == replay_balance_spec(
                    row@,
                    monthly_net_flow@,
                    lump_sum_by_month@,
                    current_savings as int,
                    m as int,
                ),
                ruined == (exists|mm: int|
                    0 < mm <= m && replay_balance_spec(
                        row@,
                        monthly_net_flow@,
                        lump_sum_by_month@,
                        current_savings as int,
                        mm,
                    ) == 0),
            decreases months - m,
        {
            let with_flow = sat_add(balance, monthly_net_flow[m]);
            let pre = sat_add(with_flow, lump_sum_by_month[m]);
            proof {
                assert(-170_000_000_000_000_000_000_000_000_000_000_000_000int <= pre as int
                    * row@[m as int] <= 170_000_000_000_000_000_000_000_000_000_000_000_000int)
                    by (nonlinear_arith)
                    requires
                        i64::MIN <= pre <= i64::MAX,
                        -GROWTH_FACTOR_CAP_PPM <= row@[m as int] <= GROWTH_FACTOR_CAP_PPM,
                        GROWTH_FACTOR_CAP_PPM == 4_000_000_000_000_000_000;
            }
            let grown_wide: i128 = floor_div_i128(
                (pre as i128) * (row[m] as i128),
                SCALE as i128,
            );
            let grown: i64 = sat_to_i64(grown_wide);
            let next: i64 = if grown <= 0 {
                ruined = true;
                0
            } else {
                grown
            };
            proof {
                let mnext = m as int + 1;
                assert(replay_balance_spec(
                    row@,
                    monthly_net_flow@,
                    lump_sum_by_month@,
                    current_savings as int,
                    mnext,
                ) == next);
                if next == 0 {
                    assert(0 < mnext <= mnext && replay_balance_spec(
                        row@,
                        monthly_net_flow@,
                        lump_sum_by_month@,
                        current_savings as int,
                        mnext,
                    ) == 0);
                }
            }
            balance = next;
            m += 1;
        }
        let sim_ruined = ruined || balance <= 0;
        if sim_ruined {
            ruin_count += 1;
        }
        proof {
            assert(sim_ruined == replay_ruined_spec(
                growth_factors@[sim as int]@,
                monthly_net_flow@,
                lump_sum_by_month@,
                current_savings as int,
                months as int,
            ));
        }
        sim += 1;
    }
    let denom: u64 = if sample_count == 0 {
        1
    } else {
        sample_count as u64
    };
    let r_wide: u128 = ((ruin_count as u128) * (SCALE as u128)) / (denom as u128);
    proof {
        lemma_div_is_ordered(0, ruin_count as int * SCALE as int, denom as int);
        assert(ruin_count as int * SCALE as int <= denom as int * SCALE as int)
            by (nonlinear_arith)
            requires
                ruin_count as int <= denom as int || (sample_count == 0 && ruin_count == 0),
                SCALE == 1_000_000,
                0 <= ruin_count,
                1 <= denom;
        lemma_div_is_ordered(
            ruin_count as int * SCALE as int,
            denom as int * SCALE as int,
            denom as int,
        );
        lemma_div_multiples_vanish(SCALE as int, denom as int);
    }
    r_wide as i64
}

/// The ruin surface: ruin probability per (spending multiplier,
/// retirement age) cell, replayed over the recorded growth factors.
pub struct RuinSurface {
    pub retirement_ages: Vec<i64>,
    pub spending_multipliers: Vec<i64>,
    pub ruin_probabilities: Vec<Vec<i64>>,
}

/// A spending period with its yearly amount scaled by a ppm multiplier
/// (saturating at the money cap).
pub open spec fn scaled_period_spec(p: SpendingPeriod, mult: int) -> SpendingPeriod {
    SpendingPeriod {
        yearly_amount: clamp_spec(
            (p.yearly_amount * mult) / (SCALE as int),
            -MONEY_CAP_CENTS as int,
            MONEY_CAP_CENTS as int,
        ) as i64,
        ..p
    }
}

/// The default salary source retires at the cell's age; other sources
/// are untouched.
pub open spec fn override_income_spec(s: IncomeSource, age_year: int) -> IncomeSource {
    if s.id@ == "is-default"@ {
        IncomeSource { to_age: (age_year * SCALE) as i64, ..s }
    } else {
        s
    }
}

/// One candidate retirement age (whole years): the requested age plus
/// an offset, clamped strictly between the current and final ages.
pub open spec fn cell_age_year_spec(input: RetirementInput, off_years: int) -> i64 {
    let age = input.retirement_age + off_years * SCALE;
    let lo = input.current_age + SCALE;
    let hi = input.simulate_until_age - SCALE;
    let raised = if lo > age {
        lo
    } else {
        age
    };
    let clamped = if hi < raised {
        hi
    } else {
        raised
    };
    let y = round_div_spec(clamped, SCALE as int);
    if y < 0 {
        0
    } else {
        y as i64
    }
}

/// Strip adjacent duplicates from a sorted sequence.
pub open spec fn dedup_sorted_spec(s: Seq<i64>) -> Seq<i64>
    decreases s.len(),
{
    if s.len() <= 1 {
        s
    } else {
        dedup_sorted_spec(s.drop_last()) + if s.last() == s[s.len() - 2] {
            Seq::empty()
        } else {
            seq![s.last()]
        }
    }
}

/// The surface's age axis: the five candidates, sorted, duplicates
/// dropped.
pub open spec fn surface_ages_spec(input: RetirementInput) -> Seq<i64> {
    let cands = seq![
        cell_age_year_spec(input, -6),
        cell_age_year_spec(input, -3),
        cell_age_year_spec(input, 0),
        cell_age_year_spec(input, 3),
        cell_age_year_spec(input, 6),
    ];
    dedup_sorted_spec(sorted_of(cands))
}

/// The ruin probability (ppm) of one surface cell.
pub open spec fn ruin_cell_spec(
    input: RetirementInput,
    periods: Seq<SpendingPeriod>,
    incomes: Seq<IncomeSource>,
    lumps: Seq<LumpSumEvent>,
    growth_factors: Seq<Vec<i64>>,
    months: int,
    samples: int,
    mult: int,
    age_year: int,
) -> int {
    let sp = Seq::new(periods.len(), |i: int| scaled_period_spec(periods[i], mult));
    let inc = Seq::new(incomes.len(), |i: int| override_income_spec(incomes[i], age_year));
    let flows = Seq::new(months as nat, |m: int| net_flow_spec(input, sp, inc, m) as i64);
    let lump_arr = Seq::new(
        months as nat,
        |m: int| lump_sum_at_spec(lumps, input.current_age as int, m, months) as i64,
    );
    (ruin_count_spec(
        growth_factors,
        flows,
        lump_arr,
        input.current_savings as int,
        months,
        samples,
    ) * SCALE) / (if samples == 0 {
        1int
    } else {
        samples
    })
}

/// Build the 5 x ages grid of replayed ruin probabilities.
pub fn build_ruin_surface(
    input: &RetirementInput,
    spending_periods: &Vec<SpendingPeriod>,
    income_sources: &Vec<IncomeSource>,
    lump_sum_events: &Vec<LumpSumEvent>,
    growth_factors: &Vec<Vec<i64>>,
    months: u32,
    sim_count: usize,
) -> (r: RuinSurface)
    requires
        input.valid(),
        months <= crate::cashflow::MONTHS_CAP,
        spending_periods@.len() <= crate::structs::SCHEDULE_LEN_CAP,
        forall|i: int|
            0 <= i < spending_periods@.len() ==> (#[trigger] spending_periods@[i]).valid(),
        income_sources@.len() <= crate::structs::SCHEDULE_LEN_CAP,
        forall|i: int| 0 <= i < income_sources@.len() ==> (#[trigger] income_sources@[i]).valid(),
        lump_sum_events@.len() <= crate::structs::SCHEDULE_LEN_CAP,
        forall|i: int|
            0 <= i < lump_sum_events@.len() ==> (#[trigger] lump_sum_events@[i]).valid(),
        sim_count <= growth_factors@.len() || 800 <= growth_factors@.len(),
        forall|s: int| 0 <= s < growth_factors@.len() ==> (#[trigger] growth_factors@[s])@.len()
            == months,
        forall|s: int, m: int|
            0 <= s < growth_factors@.len() && 0 <= m < months ==> -GROWTH_FACTOR_CAP_PPM
                <= #[trigger] growth_factors@[s]@[m] <= GROWTH_FACTOR_CAP_PPM,
    ensures
        r.spending_multipliers@ =~= seq![
            800_000i64,
            900_000i64,
            1_000_000i64,
            1_100_000i64,
            1_200_000i64,
        ],
        r.retirement_ages@ == surface_ages_spec(*input),
        r.ruin_probabilities@.len() == 5,
        forall|i: int|
            0 <= i < 5 ==> (#[trigger] r.ruin_probabilities@[i])@.len()
                == surface_ages_spec(*input).len(),
        forall|i: int, j: int|
            0 <= i < 5 && 0 <= j < surface_ages_spec(*input).len()
                ==> (#[trigger] r.ruin_probabilities@[i]@[j]) == ruin_cell_spec(
                *input,
                spending_periods@,
                income_sources@,
                lump_sum_events@,
                growth_factors@,
                months as int,
                if sim_count <= 800 {
                    sim_count as int
                } else {
                    800int
                },
                r.spending_multipliers@[i] as int,
                surface_ages_spec(*input)[j] as int,
            ),
{
    let mut multipliers: Vec<i64> = Vec::new();
    multipliers.push(800_000);
    multipliers.push(900_000);
    multipliers.push(1_000_000);
    multipliers.push(1_100_000);
    multipliers.push(1_200_000);

    let mut cand: Vec<i64> = Vec::new();
    cand.push(cell_age_year(input, -6));
    cand.push(cell_age_year(input, -3));
    cand.push(cell_age_year(input, 0));
    cand.push(cell_age_year(input, 3));
    cand.push(cell_age_year(input, 6));
    proof {
        assert(cand@ =~= seq![
            cell_age_year_spec(*input, -6),
            cell_age_year_spec(*input, -3),
            cell_age_year_spec(*input, 0),
            cell_age_year_spec(*input, 3),
            cell_age_year_spec(*input, 6),
        ]);
    }
    let sorted_cand = sort_values(&cand);
    let mut ages: Vec<i64> = Vec::new();
    let mut ci: usize = 0;
    while ci < sorted_cand.len()
        invariant
            ci <= sorted_cand@.len(),
            ages@ == dedup_sorted_spec(sorted_cand@.subrange(0, ci as int)),
            ci >= 1 ==> ages@.len() >= 1 && ages@.last() == sorted_cand@[ci - 1],
        decreases sorted_cand@.len() - ci,
    {
        let v = sorted_cand[ci];
        if ages.len() == 0 {
            ages.push(v);
        } else {
            let last = ages[ages.len() - 1];
            if last != v {
                ages.push(v);
            }
        }
        proof {
            let sub = sorted_cand@.subrange(0, ci as int + 1);
            assert(sub.drop_last() =~= sorted_cand@.subrange(0, ci as int));
            assert(sub.last() == sorted_cand@[ci as int]);
            if ci as int >= 1 {
                assert(sub[sub.len() - 2] == sorted_cand@[ci as int - 1]);
            }
            assert(ages@ =~= dedup_sorted_spec(sub));
        }
        ci += 1;
    }
    proof {
        assert(sorted_cand@.subrange(0, sorted_cand@.len() as int) =~= sorted_cand@);
        assert(ages@ == surface_ages_spec(*input));
        crate::calculations::lemma_sorted_of_ensures(cand@);
        lemma_seq_bounds_from_multiset(cand@, sorted_cand@, 0, 200);
        lemma_dedup_bounds(sorted_cand@, 0, 200);
    }

    let samples: usize = if sim_count <= 800 {
        sim_count
    } else {
        800
    };
    let mut grid: Vec<Vec<i64>> = Vec::new();
    let mut mi: usize = 0;
    while mi < multipliers.len()
        invariant
            mi <= multipliers@.len(),
            multipliers@ =~= seq![800_000i64, 900_000i64, 1_000_000i64, 1_100_000i64, 1_200_000i64],
            ages@ == surface_ages_spec(*input),
            forall|j: int| 0 <= j < ages@.len() ==> 0 <= #[trigger] ages@[j] <= 200,
            samples == (if sim_count <= 800 { sim_count as int } else { 800int }),
            samples <= growth_factors@.len(),
            input.valid(),
            months <= crate::cashflow::MONTHS_CAP,
            spending_periods@.len() <= crate::structs::SCHEDULE_LEN_CAP,
            forall|i: int|
                0 <= i < spending_periods@.len() ==> (#[trigger] spending_periods@[i]).valid(),
            income_sources@.len() <= crate::structs::SCHEDULE_LEN_CAP,
            forall|i: int|
                0 <= i < income_sources@.len() ==> (#[trigger] income_sources@[i]).valid(),
            lump_sum_events@.len() <= crate::structs::SCHEDULE_LEN_CAP,
            forall|i: int|
                0 <= i < lump_sum_events@.len() ==> (#[trigger] lump_sum_events@[i]).valid(),
            forall|s: int|
                0 <= s < growth_factors@.len() ==> (#[trigger] growth_factors@[s])@.len()
                    == months,
            forall|s: int, m: int|
                0 <= s < growth_factors@.len() && 0 <= m < months ==> -GROWTH_FACTOR_CAP_PPM
                    <= #[trigger] growth_factors@[s]@[m] <= GROWTH_FACTOR_CAP_PPM,
            grid@.len() == mi,
            forall|i: int|
                0 <= i < mi ==> (#[trigger] grid@[i])@.len() == ages@.len(),
            forall|i: int, j: int|
                0 <= i < mi && 0 <= j < ages@.len() ==> (#[trigger] grid@[i]@[j])
                    == ruin_cell_spec(
                    *input,
                    spending_periods@,
                    income_sources@,
                    lump_sum_events@,
                    growth_factors@,
                    months as int,
                    samples as int,
                    multipliers@[i] as int,
                    ages@[j] as int,
                ),
        decreases multipliers@.len() - mi,
    {
        let mult = multipliers[mi];
        // scale every spending period's yearly amount
        let mut scaled: Vec<SpendingPeriod> = Vec::new();
        let mut pi: usize = 0;
        while pi < spending_periods.len()
            invariant
                pi <= spending_periods@.len(),
                spending_periods@.len() <= crate::structs::SCHEDULE_LEN_CAP,
                800_000 <= mult <= 1_200_000,
                forall|i: int|
                    0 <= i < spending_periods@.len() ==> (#[trigger] spending_periods@[i]).valid(),
                scaled@.len() == pi,
                forall|i: int|
                    0 <= i < pi ==> #[trigger] scaled@[i] == scaled_period_spec(
                        spending_periods@[i],
                        mult as int,
                    ),
                forall|i: int| 0 <= i < pi ==> (#[trigger] scaled@[i]).valid(),
            decreases spending_periods@.len() - pi,
        {
            let p = &spending_periods[pi];
            proof {
                assert(spending_periods@[pi as int].valid());
                assert(-200_000_000_000_000_000_000_000int <= p.yearly_amount as int
                    * mult as int <= 200_000_000_000_000_000_000_000int) by (nonlinear_arith)
                    requires
                        -100_000_000_000_000_000 <= p.yearly_amount <= 100_000_000_000_000_000,
                        800_000 <= mult <= 1_200_000;
            }
            let wide: i128 = (p.yearly_amount as i128) * (mult as i128);
            let scaled_amount_wide: i128 = floor_div_i128(wide, SCALE as i128);
            let scaled_amount: i64 = if scaled_amount_wide < -(MONEY_CAP_CENTS as i128) {
                -MONEY_CAP_CENTS
            } else if scaled_amount_wide > MONEY_CAP_CENTS as i128 {
                MONEY_CAP_CENTS
            } else {
                scaled_amount_wide as i64
            };
            scaled.push(
                SpendingPeriod {
                    id: p.id.clone(),
                    label: p.label.clone(),
                    from_age: p.from_age,
                    to_age: p.to_age,
                    yearly_amount: scaled_amount,
                    inflation_adjusted: p.inflation_adjusted,
                },
            );
            pi += 1;
        }
        let mut row: Vec<i64> = Vec::new();
        let mut aj: usize = 0;
        while aj < ages.len()
            invariant
                aj <= ages@.len(),
                ages@ == surface_ages_spec(*input),
                samples == (if sim_count <= 800 { sim_count as int } else { 800int }),
                samples <= growth_factors@.len(),
                input.valid(),
                months <= crate::cashflow::MONTHS_CAP,
                800_000 <= mult <= 1_200_000,
                spending_periods@.len() <= crate::structs::SCHEDULE_LEN_CAP,
                forall|i: int|
                    0 <= i < spending_periods@.len() ==> (#[trigger] spending_periods@[i]).valid(),
                income_sources@.len() <= crate::structs::SCHEDULE_LEN_CAP,
                forall|i: int|
                    0 <= i < income_sources@.len() ==> (#[trigger] income_sources@[i]).valid(),
                lump_sum_events@.len() <= crate::structs::SCHEDULE_LEN_CAP,
                forall|i: int|
                    0 <= i < lump_sum_events@.len() ==> (#[trigger] lump_sum_events@[i]).valid(),
                forall|s: int|
                    0 <= s < growth_factors@.len() ==> (#[trigger] growth_factors@[s])@.len()
                        == months,
                forall|s: int, m: int|
                    0 <= s < growth_factors@.len() && 0 <= m < months ==> -GROWTH_FACTOR_CAP_PPM
                        <= #[trigger] growth_factors@[s]@[m] <= GROWTH_FACTOR_CAP_PPM,
                scaled@.len() == spending_periods@.len(),
                forall|i: int|
                    0 <= i < scaled@.len() ==> #[trigger] scaled@[i] == scaled_period_spec(
                        spending_periods@[i],
                        mult as int,
                    ),
                forall|i: int| 0 <= i < scaled@.len() ==> (#[trigger] scaled@[i]).valid(),
                forall|j: int| 0 <= j < ages@.len() ==> 0 <= #[trigger] ages@[j] <= 200,
                row@.len() == aj,
                forall|j: int|
                    0 <= j < aj ==> #[trigger] row@[j] == ruin_cell_spec(
                        *input,
                        spending_periods@,
                        income_sources@,
                        lump_sum_events@,
                        growth_factors@,
                        months as int,
                        samples as int,
                        mult as int,
                        ages@[j] as int,
                    ),
            decreases ages@.len() - aj,
        {
            let age_year = ages[aj];
            // retire the default salary source at the cell's age
            let default_id: String = "is-default".to_owned();
            let mut adjusted: Vec<IncomeSource> = Vec::new();
            let mut si: usize = 0;
            while si < income_sources.len()
                invariant
                    si <= income_sources@.len(),
                    income_sources@.len() <= crate::structs::SCHEDULE_LEN_CAP,
                    default_id@ == "is-default"@,
                    0 <= age_year <= 200,
                    forall|i: int|
                        0 <= i < income_sources@.len() ==> (#[trigger] income_sources@[i]).valid(),
                    adjusted@.len() == si,
                    forall|i: int|
                        0 <= i < si ==> #[trigger] adjusted@[i] == override_income_spec(
                            income_sources@[i],
                            age_year as int,
                        ),
                    forall|i: int| 0 <= i < si ==> (#[trigger] adjusted@[i]).valid(),
                decreases income_sources@.len() - si,
            {
                let s = &income_sources[si];
                proof {
                    assert(income_sources@[si as int].valid());
                }
                if s.id == default_id {
                    adjusted.push(
                        IncomeSource {
                            id: s.id.clone(),
                            label: s.label.clone(),
                            from_age: s.from_age,
                            to_age: age_year * SCALE,
                            yearly_amount: s.yearly_amount,
                            inflation_adjusted: s.inflation_adjusted,
                        },
                    );
                } else {
                    adjusted.push(
                        IncomeSource {
                            id: s.id.clone(),
                            label: s.label.clone(),
                            from_age: s.from_age,
                            to_age: s.to_age,
                            yearly_amount: s.yearly_amount,
                            inflation_adjusted: s.inflation_adjusted,
                        },
                    );
                }
                si += 1;
            }
            let arrays = build_cashflow_arrays(
                input,
                &scaled,
                &adjusted,
                lump_sum_events,
                months,
            );
            let p = replay_ruin_probability(
                growth_factors,
                &arrays.monthly_net_flow,
                &arrays.lump_sum_by_month,
                input.current_savings,
                samples,
                months,
            );
            proof {
                let sp = Seq::new(
                    spending_periods@.len(),
                    |i: int| scaled_period_spec(spending_periods@[i], mult as int),
                );
                let inc = Seq::new(
                    income_sources@.len(),
                    |i: int| override_income_spec(income_sources@[i], age_year as int),
                );
                assert(scaled@ =~= sp);
                assert(adjusted@ =~= inc);
                let flows = Seq::new(
                    months as nat,
                    |m: int| net_flow_spec(*input, sp, inc, m) as i64,
                );
                let lump_arr = Seq::new(
                    months as nat,
                    |m: int|
                        lump_sum_at_spec(
                            lump_sum_events@,
                            input.current_age as int,
                            m,
                            months as int,
                        ) as i64,
                );
                assert(arrays.monthly_net_flow@ =~= flows);
                assert(arrays.lump_sum_by_month@ =~= lump_arr);
            }
            row.push(p);
            aj += 1;
        }
        grid.push(row);
        mi += 1;
    }
    RuinSurface {
        retirement_ages: ages,
        spending_multipliers: multipliers,
        ruin_probabilities: grid,
    }
}

/// Evaluate one candidate retirement age.
fn cell_age_year(input: &RetirementInput, off_years: i64) -> (r: i64)
    requires
        input.valid(),
        -6 <= off_years <= 6,
    ensures
        r == cell_age_year_spec(*input, off_years as int),
        0 <= r <= 200,
{
    let age: i64 = input.retirement_age + off_years * SCALE;
    let lo: i64 = input.current_age + SCALE;
    let hi: i64 = input.simulate_until_age - SCALE;
    let raised: i64 = if lo > age {
        lo
    } else {
        age
    };
    let clamped: i64 = if hi < raised {
        hi
    } else {
        raised
    };
    proof {
        if clamped >= 0 {
            crate::fixed::lemma_round_div_nonneg_bounds(clamped as int, SCALE as int);
            lemma_div_is_ordered(
                clamped as int + (SCALE as int) / 2,
                199int * 1_000_000 + 500_000,
                SCALE as int,
            );
            vstd::arithmetic::div_mod::lemma_fundamental_div_mod_converse(
                199int * 1_000_000 + 500_000,
                1_000_000,
                199,
                500_000,
            );
        } else {
            lemma_div_is_ordered(0, -(clamped as int) + (SCALE as int) / 2, SCALE as int);
        }
    }
    let y = round_div(clamped, SCALE);
    if y < 0 {
        0
    } else {
        y
    }
}


/// Elements of a permutation keep the source sequence's bounds.
pub(crate) proof fn lemma_seq_bounds_from_multiset(a: Seq<i64>, b: Seq<i64>, lo: int, hi: int)
    requires
        a.to_multiset() == b.to_multiset(),
        forall|i: int| 0 <= i < a.len() ==> lo <= #[trigger] a[i] <= hi,
    ensures
        forall|i: int| 0 <= i < b.len() ==> lo <= #[trigger] b[i] <= hi,
{
    assert forall|i: int| 0 <= i < b.len() implies lo <= #[trigger] b[i] <= hi by {
        vstd::seq_lib::to_multiset_contains(b, b[i]);
        vstd::seq_lib::to_multiset_contains(a, b[i]);
        assert(b.contains(b[i]));
        assert(a.contains(b[i]));
        let j = choose|j: int| 0 <= j < a.len() && a[j] == b[i];
    }
}

/// Deduplication keeps element bounds.
proof fn lemma_dedup_bounds(s: Seq<i64>, lo: int, hi: int)
    requires
        forall|i: int| 0 <= i < s.len() ==> lo <= #[trigger] s[i] <= hi,
    ensures
        forall|i: int|
            0 <= i < dedup_sorted_spec(s).len() ==> lo <= #[trigger] dedup_sorted_spec(s)[i]
                <= hi,
    decreases s.len(),
{
    if s.len() > 1 {
        assert forall|i: int| 0 <= i < s.drop_last().len() implies lo
            <= #[trigger] s.drop_last()[i] <= hi by {
            assert(s[i] == s.drop_last()[i]);
        }
        lemma_dedup_bounds(s.drop_last(), lo, hi);
        let d = dedup_sorted_spec(s);
        let dp = dedup_sorted_spec(s.drop_last());
        assert forall|i: int| 0 <= i < d.len() implies lo <= #[trigger] d[i] <= hi by {
            if i < dp.len() {
                assert(d[i] == dp[i]);
            } else {
                assert(d[i] == s.last());
                assert(s[s.len() - 1] == s.last());
            }
        }
    }
}


/// One sequence-risk quintile: sims bucketed by their early-years mean
/// real return.
pub struct SequenceRiskBucket {
    pub bucket_label: String,
    pub early_years_mean_return: i64,
    pub ruin_probability: i64,
    pub ending_median: i64,
}

/// Per-sim annual real returns stay within this many ppm.
pub const ANNUAL_REAL_CAP_PPM: i64 = 1_000_000_000_000_000;

/// The shortest per-sim series length, counting empties as one.
pub open spec fn min_series_len_spec(rows: Seq<Vec<i64>>) -> int
    decreases rows.len(),
{
    if rows.len() == 0 {
        1
    } else {
        let last_len = if rows.last()@.len() >= 1 {
            rows.last()@.len() as int
        } else {
            1
        };
        if rows.len() == 1 {
            last_len
        } else {
            let rest = min_series_len_spec(rows.drop_last());
            if rest <= last_len {
                rest
            } else {
                last_len
            }
        }
    }
}

/// How many early years feed the sequencing key: at most ten, at least
/// one, never more than the shortest series.
pub open spec fn early_years_spec(rows: Seq<Vec<i64>>) -> int {
    let m = min_series_len_spec(rows);
    let c = if m <= 10 {
        m
    } else {
        10
    };
    if c <= 1 {
        1
    } else {
        c
    }
}

/// The mean of a series' first `early` values (fewer if it is shorter).
pub open spec fn early_mean_spec(row: Seq<i64>, early: int) -> int {
    let k = if early <= row.len() {
        early
    } else {
        row.len() as int
    };
    crate::calculations::seq_sum(row.subrange(0, k)) / early
}

/// The per-sim sequencing keys.
pub open spec fn means_seq_spec(rows: Seq<Vec<i64>>) -> Seq<i64> {
    Seq::new(rows.len(), |i: int| early_mean_spec(rows[i]@, early_years_spec(rows)) as i64)
}

/// Sims ordered by early mean, ascending (ties in simulation order).
pub open spec fn sequence_order_spec(rows: Seq<Vec<i64>>) -> Seq<(i64, usize)> {
    Seq::new(rows.len(), |i: int| (means_seq_spec(rows)[i], i as usize)).sort_by(pair_le())
}

pub open spec fn bucket_mean_sum_spec(order: Seq<(i64, usize)>, from: int, to: int) -> int
    decreases to - from,
{
    if to <= from {
        0
    } else {
        bucket_mean_sum_spec(order, from, to - 1) + order[to - 1].0
    }
}

pub open spec fn bucket_ruin_count_spec(
    order: Seq<(i64, usize)>,
    finals: Seq<i64>,
    depleted: Seq<bool>,
    from: int,
    to: int,
) -> int
    decreases to - from,
{
    if to <= from {
        0
    } else {
        bucket_ruin_count_spec(order, finals, depleted, from, to - 1) + if depleted[order[to
            - 1].1 as int] || finals[order[to - 1].1 as int] <= 0 {
            1int
        } else {
            0int
        }
    }
}

/// A bucket's member final balances, in bucket order.
pub open spec fn member_finals_spec(
    order: Seq<(i64, usize)>,
    finals: Seq<i64>,
    from: int,
    to: int,
) -> Seq<i64> {
    Seq::new((to - from) as nat, |k: int| finals[order[from + k].1 as int])
}

/// Sort sims by their early-sequence mean and report each quintile's
/// ruin share and ending median.
pub fn build_sequence_risk_summary(
    annual_real_returns_by_sim: &Vec<Vec<i64>>,
    final_balances: &Vec<i64>,
    depleted_flags: &Vec<bool>,
) -> (r: Vec<SequenceRiskBucket>)
    requires
        final_balances@.len() == annual_real_returns_by_sim@.len(),
        depleted_flags@.len() == annual_real_returns_by_sim@.len(),
        annual_real_returns_by_sim@.len() == 0 || annual_real_returns_by_sim@.len() >= 5,
        annual_real_returns_by_sim@.len() <= 100_000_000,
        forall|s: int, k: int|
            0 <= s < annual_real_returns_by_sim@.len() && 0 <= k
                < (#[trigger] annual_real_returns_by_sim@[s])@.len() ==> -ANNUAL_REAL_CAP_PPM
                <= #[trigger] annual_real_returns_by_sim@[s]@[k] <= ANNUAL_REAL_CAP_PPM,
    ensures
        annual_real_returns_by_sim@.len() == 0 ==> r@.len() == 0,
        annual_real_returns_by_sim@.len() >= 5 ==> r@.len() == 5,
        forall|b: int|
            0 <= b < r@.len() ==> {
                let rows = annual_real_returns_by_sim@;
                let n = rows.len() as int;
                let order = sequence_order_spec(rows);
                let from = (b * n) / 5;
                let to = ((b + 1) * n) / 5;
                &&& (#[trigger] r@[b]).early_years_mean_return == bucket_mean_sum_spec(
                    order,
                    from,
                    to,
                ) / (to - from)
                &&& r@[b].ruin_probability == (bucket_ruin_count_spec(
                    order,
                    final_balances@,
                    depleted_flags@,
                    from,
                    to,
                ) * SCALE) / (to - from)
                &&& r@[b].ending_median == crate::calculations::percentile_spec(
                    sorted_of(member_finals_spec(order, final_balances@, from, to)),
                    500_000,
                )
            },
        r@.len() == 5 ==> r@[0].bucket_label@ == "Q1 (worst early sequence)"@ && r@[1].bucket_label@
            == "Q2"@ && r@[2].bucket_label@ == "Q3"@ && r@[3].bucket_label@ == "Q4"@
            && r@[4].bucket_label@ == "Q5 (best early sequence)"@,
{
    let rows = annual_real_returns_by_sim;
    let n = rows.len();
    let mut out: Vec<SequenceRiskBucket> = Vec::new();
    if n == 0 {
        return out;
    }
    // shortest series, at least one
    let first_row_len = rows[0].len();
    let mut min_len: usize = if first_row_len >= 1 {
        first_row_len
    } else {
        1
    };
    let mut i: usize = 1;
    proof {
        assert(rows@.subrange(0, 1).len() == 1);
        assert(rows@.subrange(0, 1).last() == rows@[0]);
    }
    while i < n
        invariant
            1 <= i <= n,
            n == rows@.len(),
            min_len == min_series_len_spec(rows@.subrange(0, i as int)),
            1 <= min_len,
        decreases n - i,
    {
        let l = rows[i].len();
        let ll: usize = if l >= 1 {
            l
        } else {
            1
        };
        if ll < min_len {
            min_len = ll;
        }
        proof {
            let sub = rows@.subrange(0, i as int + 1);
            assert(sub.drop_last() =~= rows@.subrange(0, i as int));
            assert(sub.last() == rows@[i as int]);
        }
        i += 1;
    }
    proof {
        assert(rows@.subrange(0, n as int) =~= rows@);
    }
    let capped: usize = if min_len <= 10 {
        min_len
    } else {
        10
    };
    let early_years: usize = if capped <= 1 {
        1
    } else {
        capped
    };
    proof {
        assert(early_years as int == early_years_spec(rows@));
    }
    // per-sim early means
    let mut means: Vec<i64> = Vec::new();
    let mut s: usize = 0;
    while s < n
        invariant
            s <= n,
            n == rows@.len(),
            1 <= early_years <= 10,
            early_years as int == early_years_spec(rows@),
            forall|ss: int, k: int|
                0 <= ss < rows@.len() && 0 <= k < (#[trigger] rows@[ss])@.len()
                    ==> -ANNUAL_REAL_CAP_PPM <= #[trigger] rows@[ss]@[k] <= ANNUAL_REAL_CAP_PPM,
            means@.len() == s,
            forall|ss: int|
                0 <= ss < s ==> #[trigger] means@[ss] == early_mean_spec(
                    rows@[ss]@,
                    early_years as int,
                ) as i64,
        decreases n - s,
    {
        let row = &rows[s];
        let take: usize = if early_years <= row.len() {
            early_years
        } else {
            row.len()
        };
        let mut acc: i128 = 0;
        let mut k: usize = 0;
        proof {
            assert(row@.subrange(0, 0) =~= Seq::<i64>::empty());
        }
        while k < take
            invariant
                k <= take,
                take <= row@.len(),
                take <= 10,
                row@ == rows@[s as int]@,
                s < rows@.len(),
                forall|ss: int, kk: int|
                    0 <= ss < rows@.len() && 0 <= kk < (#[trigger] rows@[ss])@.len()
                        ==> -ANNUAL_REAL_CAP_PPM <= #[trigger] rows@[ss]@[kk]
                        <= ANNUAL_REAL_CAP_PPM,
                acc == crate::calculations::seq_sum(row@.subrange(0, k as int)),
                -(k as int) * (ANNUAL_REAL_CAP_PPM as int) <= acc <= (k as int) * (
                ANNUAL_REAL_CAP_PPM as int),
            decreases take - k,
        {
            proof {
                assert(row@.subrange(0, k as int + 1).drop_last() =~= row@.subrange(0, k as int));
                assert(row@.subrange(0, k as int + 1).last() == row@[k as int]);
                assert(rows@[s as int]@[k as int] == row@[k as int]);
                assert((k as int) * (ANNUAL_REAL_CAP_PPM as int) + ANNUAL_REAL_CAP_PPM == (k as int
                    + 1) * (ANNUAL_REAL_CAP_PPM as int)) by (nonlinear_arith);
                assert((k as int + 1) * (ANNUAL_REAL_CAP_PPM as int) <= 10int * (
                ANNUAL_REAL_CAP_PPM as int)) by (nonlinear_arith)
                    requires
                        k as int + 1 <= 10;
            }
            acc = acc + (row[k] as i128);
            k += 1;
        }
        proof {
            crate::fixed::lemma_div_within(acc as int, early_years as int, 10_000_000_000_000_000);
            assert(-(10_000_000_000_000_000int * (early_years as int)) <= acc as int
                <= 10_000_000_000_000_000int * (early_years as int)) by (nonlinear_arith)
                requires
                    -10_000_000_000_000_000 <= acc <= 10_000_000_000_000_000,
                    1 <= early_years;
        }
        let mean: i64 = floor_div_i128(acc, early_years as i128) as i64;
        means.push(mean);
        s += 1;
    }
    proof {
        assert(means@ =~= means_seq_spec(rows@));
    }
    // order sims by early mean
    let mut pairs: Vec<(i64, usize)> = Vec::new();
    let mut pi: usize = 0;
    while pi < n
        invariant
            pi <= n,
            n == means@.len(),
            pairs@.len() == pi,
            forall|k: int| 0 <= k < pi ==> #[trigger] pairs@[k] == (means@[k], k as usize),
        decreases n - pi,
    {
        pairs.push((means[pi], pi));
        pi += 1;
    }
    proof {
        assert(pairs@ =~= Seq::new(n as nat, |i: int| (means@[i], i as usize)));
    }
    let order = sort_pairs(&pairs);
    proof {
        assert(vstd::relations::total_ordering(pair_le()));
        pairs@.lemma_sort_by_ensures(pair_le());
        vstd::seq_lib::to_multiset_len(pairs@);
        vstd::seq_lib::to_multiset_len(order@);
        lemma_order_indices_in_range(means@, order@, n as int);
        assert(order@ == sequence_order_spec(rows@));
    }
    let ghost order_seq = order@;
    let mut b: usize = 0;
    while b < 5
        invariant
            b <= 5,
            n == rows@.len(),
            5 <= n <= 100_000_000,
            n <= final_balances@.len(),
            n <= depleted_flags@.len(),
            order_seq == order@,
            n == order_seq.len(),
            forall|k: int| 0 <= k < order_seq.len() ==> (#[trigger] order_seq[k]).1 < n,
            order_seq == sequence_order_spec(rows@),
            out@.len() == b,
            forall|bb: int|
                0 <= bb < b ==> {
                    let from = (bb * n as int) / 5;
                    let to = ((bb + 1) * n as int) / 5;
                    &&& (#[trigger] out@[bb]).early_years_mean_return == bucket_mean_sum_spec(
                        order_seq,
                        from,
                        to,
                    ) / (to - from)
                    &&& out@[bb].ruin_probability == (bucket_ruin_count_spec(
                        order_seq,
                        final_balances@,
                        depleted_flags@,
                        from,
                        to,
                    ) * SCALE) / (to - from)
                    &&& out@[bb].ending_median == crate::calculations::percentile_spec(
                        sorted_of(member_finals_spec(order_seq, final_balances@, from, to)),
                        500_000,
                    )
                },
            b >= 1 ==> out@[0].bucket_label@ == "Q1 (worst early sequence)"@,
            b >= 2 ==> out@[1].bucket_label@ == "Q2"@,
            b >= 3 ==> out@[2].bucket_label@ == "Q3"@,
            b >= 4 ==> out@[3].bucket_label@ == "Q4"@,
            b >= 5 ==> out@[4].bucket_label@ == "Q5 (best early sequence)"@,
        decreases 5 - b,
    {
        proof {
            assert(b * n <= 4 * 100_000_000 && (b + 1) * n <= 5 * 100_000_000)
                by (nonlinear_arith)
                requires
                    0 <= b <= 4,
                    0 <= n <= 100_000_000;
        }
        let from: usize = (b * n) / 5;
        let to: usize = ((b + 1) * n) / 5;
        proof {
            lemma_bucket_bounds(n as int, b as int);
        }
        let mut mean_sum: i128 = 0;
        let mut ruin_count: u64 = 0;
        let mut member_finals: Vec<i64> = Vec::new();
        let mut k: usize = from;
        while k < to
            invariant
                from <= k <= to,
                to <= n <= 100_000_000,
                n == order_seq.len(),
                order_seq == order@,
                n <= final_balances@.len(),
                n <= depleted_flags@.len(),
                forall|kk: int| 0 <= kk < order_seq.len() ==> (#[trigger] order_seq[kk]).1 < n,
                mean_sum == bucket_mean_sum_spec(order_seq, from as int, k as int),
                ruin_count == bucket_ruin_count_spec(
                    order_seq,
                    final_balances@,
                    depleted_flags@,
                    from as int,
                    k as int,
                ),
                ruin_count <= k - from,
                -((k - from) as int) * 0x8000_0000_0000_0000int <= mean_sum <= ((k - from) as int)
                    * 0x7FFF_FFFF_FFFF_FFFFint,
                member_finals@ == member_finals_spec(
                    order_seq,
                    final_balances@,
                    from as int,
                    k as int,
                ),
            decreases to - k,
        {
            let idx = order[k].1;
            proof {
                assert(((k - from) as int) * 0x7FFF_FFFF_FFFF_FFFFint + 0x7FFF_FFFF_FFFF_FFFFint
                    == ((k + 1 - from) as int) * 0x7FFF_FFFF_FFFF_FFFFint
                    && ((k - from) as int) * 0x8000_0000_0000_0000int + 0x8000_0000_0000_0000int
                    == ((k + 1 - from) as int) * 0x8000_0000_0000_0000int) by (nonlinear_arith)
                    requires
                        (k + 1 - from) as int == (k - from) as int + 1;
                assert(((k + 1 - from) as int) * 0x8000_0000_0000_0000int <= 100_000_000int
                    * 0x8000_0000_0000_0000int) by (nonlinear_arith)
                    requires
                        (k + 1 - from) as int <= 100_000_000;
            }
            mean_sum = mean_sum + (order[k].0 as i128);
            if depleted_flags[idx] || final_balances[idx] <= 0 {
                ruin_count += 1;
            }
            member_finals.push(final_balances[idx]);
            proof {
                assert(member_finals@ =~= member_finals_spec(
                    order_seq,
                    final_balances@,
                    from as int,
                    k as int + 1,
                ));
            }
            k += 1;
        }
        let count: usize = to - from;
        proof {
            assert(-((count as int) * 0x8000_0000_0000_0000int) == (count as int)
                * -0x8000_0000_0000_0000int && (count as int) * 0x8000_0000_0000_0000int
                == 0x8000_0000_0000_0000int * (count as int) && (count as int)
                * 0x7FFF_FFFF_FFFF_FFFFint == 0x7FFF_FFFF_FFFF_FFFFint * (count as int)
                && (count as int) * -0x8000_0000_0000_0000int == -0x8000_0000_0000_0000int * (
            count as int)) by (nonlinear_arith);
            lemma_div_is_ordered(
                -0x8000_0000_0000_0000int * (count as int),
                mean_sum as int,
                count as int,
            );
            lemma_div_is_ordered(
                mean_sum as int,
                0x7FFF_FFFF_FFFF_FFFFint * (count as int),
                count as int,
            );
            lemma_div_multiples_vanish(-0x8000_0000_0000_0000int, count as int);
            lemma_div_multiples_vanish(0x7FFF_FFFF_FFFF_FFFFint, count as int);
            assert(ruin_count as int * SCALE as int <= count as int * SCALE as int
                && 0 <= ruin_count as int * SCALE as int) by (nonlinear_arith)
                requires
                    0 <= ruin_count as int <= count as int,
                    SCALE == 1_000_000;
            lemma_div_is_ordered(0, ruin_count as int * SCALE as int, count as int);
            lemma_div_is_ordered(
                ruin_count as int * SCALE as int,
                count as int * SCALE as int,
                count as int,
            );
            lemma_div_multiples_vanish(SCALE as int, count as int);
        }
        let early_mean: i64 = floor_div_i128(mean_sum, count as i128) as i64;
        let ruin_ppm: i64 = floor_div_i128(
            (ruin_count as i128) * (SCALE as i128),
            count as i128,
        ) as i64;
        let p_series = crate::calculations::summarize(&member_finals);
        let label: String = if b == 0 {
            "Q1 (worst early sequence)".to_owned()
        } else if b == 1 {
            "Q2".to_owned()
        } else if b == 2 {
            "Q3".to_owned()
        } else if b == 3 {
            "Q4".to_owned()
        } else {
            "Q5 (best early sequence)".to_owned()
        };
        out.push(
            SequenceRiskBucket {
                bucket_label: label,
                early_years_mean_return: early_mean,
                ruin_probability: ruin_ppm,
                ending_median: p_series.p50,
            },
        );
        b += 1;
    }
    out
}

/// With at least five sims, every quintile holds at least one member.
proof fn lemma_bucket_bounds(n: int, b: int)
    requires
        5 <= n,
        0 <= b < 5,
    ensures
        0 <= (b * n) / 5,
        (b * n) / 5 < ((b + 1) * n) / 5,
        ((b + 1) * n) / 5 <= n,
{
    let x = b * n;
    let y = n;
    assert(0 <= x) by (nonlinear_arith)
        requires
            0 <= b,
            0 <= n,
            x == b * n;
    lemma_div_is_ordered(0, x, 5);
    assert((b + 1) * n == x + y) by (nonlinear_arith)
        requires
            x == b * n,
            y == n;
    // floor superadditivity: (x + y) / 5 >= x / 5 + y / 5
    vstd::arithmetic::div_mod::lemma_fundamental_div_mod(x, 5);
    vstd::arithmetic::div_mod::lemma_fundamental_div_mod(y, 5);
    let qx = x / 5;
    let rx = x % 5;
    let qy = y / 5;
    let ry = y % 5;
    assert(x + y == (qx + qy) * 5 + (rx + ry)) by (nonlinear_arith)
        requires
            x == qx * 5 + rx,
            y == qy * 5 + ry;
    if rx + ry < 5 {
        vstd::arithmetic::div_mod::lemma_fundamental_div_mod_converse(
            x + y,
            5,
            qx + qy,
            rx + ry,
        );
    } else {
        vstd::arithmetic::div_mod::lemma_fundamental_div_mod_converse(
            x + y,
            5,
            qx + qy + 1,
            rx + ry - 5,
        );
    }
    assert(qy >= 1) by {
        vstd::arithmetic::div_mod::lemma_fundamental_div_mod_converse(5, 5, 1, 0);
        lemma_div_is_ordered(5, y, 5);
    }
    assert(((b + 1) * n) / 5 <= n) by {
        assert((b + 1) * n <= 5 * n) by (nonlinear_arith)
            requires
                b < 5,
                0 <= n;
        lemma_div_is_ordered((b + 1) * n, 5 * n, 5);
        lemma_div_multiples_vanish(n, 5);
    }
}


/// One replay step never raises the balance when the cashflow falls
/// and the growth factor is the same non-negative one.
proof fn lemma_replay_step_monotone(b1: int, b2: int, flow1: int, flow2: int, lump: int, factor: int)
    requires
        b1 <= b2,
        flow1 <= flow2,
        0 <= factor,
    ensures
        replay_step_spec(b1, flow1, lump, factor) <= replay_step_spec(b2, flow2, lump, factor),
{
    let imin = i64::MIN as int;
    let imax = i64::MAX as int;
    let pre1 = clamp_spec(clamp_spec(b1 + flow1, imin, imax) + lump, imin, imax);
    let pre2 = clamp_spec(clamp_spec(b2 + flow2, imin, imax) + lump, imin, imax);
    assert(pre1 <= pre2);
    assert(pre1 * factor <= pre2 * factor) by (nonlinear_arith)
        requires
            pre1 <= pre2,
            0 <= factor;
    lemma_div_is_ordered(pre1 * factor, pre2 * factor, SCALE as int);
}

/// Pointwise-lower cashflows never leave a replayed balance higher.
proof fn lemma_replay_balance_monotone(
    factors: Seq<i64>,
    flows1: Seq<i64>,
    flows2: Seq<i64>,
    lumps: Seq<i64>,
    start: int,
    k: int,
)
    requires
        forall|m: int| 0 <= m < k ==> #[trigger] flows1[m] <= flows2[m],
        forall|m: int| 0 <= m < k ==> 0 <= #[trigger] factors[m],
    ensures
        replay_balance_spec(factors, flows1, lumps, start, k) <= replay_balance_spec(
            factors,
            flows2,
            lumps,
            start,
            k,
        ),
    decreases k,
{
    if k > 0 {
        lemma_replay_balance_monotone(factors, flows1, flows2, lumps, start, k - 1);
        lemma_replay_step_monotone(
            replay_balance_spec(factors, flows1, lumps, start, k - 1),
            replay_balance_spec(factors, flows2, lumps, start, k - 1),
            flows1[k - 1] as int,
            flows2[k - 1] as int,
            lumps[k - 1] as int,
            factors[k - 1] as int,
        );
    }
}

/// After the first month a replayed balance is never negative.
proof fn lemma_replay_balance_nonneg(
    factors: Seq<i64>,
    flows: Seq<i64>,
    lumps: Seq<i64>,
    start: int,
    k: int,
)
    requires
        k >= 1,
    ensures
        replay_balance_spec(factors, flows, lumps, start, k) >= 0,
{
}

/// A schedule that is ruined under the higher cashflows is ruined
/// under the lower ones too.
proof fn lemma_replay_ruined_monotone(
    factors: Seq<i64>,
    flows1: Seq<i64>,
    flows2: Seq<i64>,
    lumps: Seq<i64>,
    start: int,
    months: int,
)
    requires
        forall|m: int| 0 <= m < months ==> #[trigger] flows1[m] <= flows2[m],
        forall|m: int| 0 <= m < months ==> 0 <= #[trigger] factors[m],
    ensures
        replay_ruined_spec(factors, flows2, lumps, start, months) ==> replay_ruined_spec(
            factors,
            flows1,
            lumps,
            start,
            months,
        ),
{
    if replay_ruined_spec(factors, flows2, lumps, start, months) {
        if exists|m: int|
            0 < m <= months && replay_balance_spec(factors, flows2, lumps, start, m) == 0 {
            let m = choose|m: int|
                0 < m <= months && replay_balance_spec(factors, flows2, lumps, start, m) == 0;
            lemma_replay_balance_monotone(factors, flows1, flows2, lumps, start, m);
            lemma_replay_balance_nonneg(factors, flows1, lumps, start, m);
            assert(replay_balance_spec(factors, flows1, lumps, start, m) == 0);
        } else {
            lemma_replay_balance_monotone(factors, flows1, flows2, lumps, start, months);
        }
    }
}

/// Ruin counts only grow as cashflows fall, under fixed non-negative
/// growth factors.
pub proof fn lemma_ruin_count_monotone(
    growth_factors: Seq<Vec<i64>>,
    flows1: Seq<i64>,
    flows2: Seq<i64>,
    lumps: Seq<i64>,
    start: int,
    months: int,
    k: int,
)
    requires
        forall|m: int| 0 <= m < months ==> #[trigger] flows1[m] <= flows2[m],
        forall|s: int, m: int|
            0 <= s < growth_factors.len() && 0 <= m < months ==> 0
                <= #[trigger] growth_factors[s]@[m],
        k <= growth_factors.len(),
    ensures
        ruin_count_spec(growth_factors, flows2, lumps, start, months, k) <= ruin_count_spec(
            growth_factors,
            flows1,
            lumps,
            start,
            months,
            k,
        ),
    decreases k,
{
    if k > 0 {
        lemma_ruin_count_monotone(
            growth_factors,
            flows1,
            flows2,
            lumps,
            start,
            months,
            k - 1,
        );
        lemma_replay_ruined_monotone(
            growth_factors[k - 1]@,
            flows1,
            flows2,
            lumps,
            start,
            months,
        );
    }
}

/// A larger spending multiplier never lowers a matched spending total.
proof fn lemma_scaled_spending_monotone(
    periods: Seq<SpendingPeriod>,
    mult1: int,
    mult2: int,
    age: int,
    idx: int,
)
    requires
        0 <= mult1 <= mult2,
        idx >= 1,
        forall|i: int| 0 <= i < periods.len() ==> (#[trigger] periods[i]).yearly_amount >= 0,
    ensures
        spending_sum_spec(
            Seq::new(periods.len(), |i: int| scaled_period_spec(periods[i], mult1)),
            age,
            idx,
        ) <= spending_sum_spec(
            Seq::new(periods.len(), |i: int| scaled_period_spec(periods[i], mult2)),
            age,
            idx,
        ),
    decreases periods.len(),
{
    let s1 = Seq::new(periods.len(), |i: int| scaled_period_spec(periods[i], mult1));
    let s2 = Seq::new(periods.len(), |i: int| scaled_period_spec(periods[i], mult2));
    if periods.len() > 0 {
        let pp = periods.drop_last();
        assert forall|i: int| 0 <= i < pp.len() implies (#[trigger] pp[i]).yearly_amount
            >= 0 by {
            assert(periods[i].yearly_amount >= 0);
        }
        lemma_scaled_spending_monotone(pp, mult1, mult2, age, idx);
        assert(s1.drop_last() =~= Seq::new(pp.len(), |i: int| scaled_period_spec(pp[i], mult1)));
        assert(s2.drop_last() =~= Seq::new(pp.len(), |i: int| scaled_period_spec(pp[i], mult2)));
        let p = periods.last();
        let y = p.yearly_amount as int;
        assert(y * mult1 <= y * mult2) by (nonlinear_arith)
            requires
                0 <= y,
                mult1 <= mult2;
        lemma_div_is_ordered(y * mult1, y * mult2, SCALE as int);
        let a1 = clamp_spec(
            (y * mult1) / (SCALE as int),
            -MONEY_CAP_CENTS as int,
            MONEY_CAP_CENTS as int,
        );
        let a2 = clamp_spec(
            (y * mult2) / (SCALE as int),
            -MONEY_CAP_CENTS as int,
            MONEY_CAP_CENTS as int,
        );
        assert(a1 <= a2);
        if age_in_window(p.from_age as int, p.to_age as int, age)
            && p.inflation_adjusted == Option::Some(false) {
            assert(a1 * SCALE <= a2 * SCALE) by (nonlinear_arith)
                requires
                    a1 <= a2,
                    SCALE == 1_000_000;
            lemma_div_is_ordered(a1 * SCALE, a2 * SCALE, idx);
        }
    }
}

/// Ruin-surface monotonicity: with non-negative spending periods and
/// non-negative replayed growth factors, raising the spending
/// multiplier never lowers a cell's ruin probability.
pub proof fn lemma_ruin_cell_monotone_in_multiplier(
    input: RetirementInput,
    periods: Seq<SpendingPeriod>,
    incomes: Seq<IncomeSource>,
    lumps: Seq<LumpSumEvent>,
    growth_factors: Seq<Vec<i64>>,
    months: int,
    samples: int,
    mult1: int,
    mult2: int,
    age_year: int,
)
    requires
        0 <= mult1 <= mult2,
        forall|i: int| 0 <= i < periods.len() ==> (#[trigger] periods[i]).yearly_amount >= 0,
        forall|s: int, m: int|
            0 <= s < growth_factors.len() && 0 <= m < months ==> 0
                <= #[trigger] growth_factors[s]@[m],
        0 <= samples <= growth_factors.len(),
        months >= 0,
    ensures
        ruin_cell_spec(
            input,
            periods,
            incomes,
            lumps,
            growth_factors,
            months,
            samples,
            mult1,
            age_year,
        ) <= ruin_cell_spec(
            input,
            periods,
            incomes,
            lumps,
            growth_factors,
            months,
            samples,
            mult2,
            age_year,
        ),
{
    let sp1 = Seq::new(periods.len(), |i: int| scaled_period_spec(periods[i], mult1));
    let sp2 = Seq::new(periods.len(), |i: int| scaled_period_spec(periods[i], mult2));
    let inc = Seq::new(incomes.len(), |i: int| override_income_spec(incomes[i], age_year));
    let flows1 = Seq::new(months as nat, |m: int| net_flow_spec(input, sp1, inc, m) as i64);
    let flows2 = Seq::new(months as nat, |m: int| net_flow_spec(input, sp2, inc, m) as i64);
    let lump_arr = Seq::new(
        months as nat,
        |m: int| lump_sum_at_spec(lumps, input.current_age as int, m, months) as i64,
    );
    assert forall|m: int| 0 <= m < months implies #[trigger] flows2[m] <= flows1[m] by {
        let age = crate::cashflow::month_age_spec(input.current_age as int, m);
        let idx = crate::cashflow::month_index_spec(input.inflation_mean as int, m);
        crate::cashflow::lemma_index_in_range(
            crate::cashflow::inflation_factor_spec(input.inflation_mean as int),
            m as nat,
        );
        lemma_scaled_spending_monotone(periods, mult1, mult2, age, idx);
        let imin = i64::MIN as int;
        let imax = i64::MAX as int;
        let income_v = clamp_spec(
            crate::cashflow::income_sum_spec(inc, age, idx),
            imin,
            imax,
        );
        let sp_v1 = clamp_spec(spending_sum_spec(sp1, age, idx), imin, imax);
        let sp_v2 = clamp_spec(spending_sum_spec(sp2, age, idx), imin, imax);
        assert(sp_v1 <= sp_v2);
        lemma_div_is_ordered(income_v - sp_v2, income_v - sp_v1, 12);
    }
    let c1 = ruin_count_spec(
        growth_factors,
        flows1,
        lump_arr,
        input.current_savings as int,
        months,
        samples,
    );
    let c2 = ruin_count_spec(
        growth_factors,
        flows2,
        lump_arr,
        input.current_savings as int,
        months,
        samples,
    );
    lemma_ruin_count_monotone(
        growth_factors,
        flows2,
        flows1,
        lump_arr,
        input.current_savings as int,
        months,
        samples,
    );
    assert(c1 <= c2);
    let denom = if samples == 0 {
        1int
    } else {
        samples
    };
    lemma_div_is_ordered(c1 * SCALE, c2 * SCALE, denom);
    assert(c1 * SCALE <= c2 * SCALE) by (nonlinear_arith)
        requires
            c1 <= c2,
            SCALE == 1_000_000;
}

} // verus!
