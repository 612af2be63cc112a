//! The simulation driver: regime-switching return generation over the
//! pools, per-month wealth accounting, and the post-simulation
//! reductions assembled into one result.
//!
//! Uniform draws come from the seeded 32-bit generator; shaped scores
//! (standard-normal and Student-t draws) are supplied by the host as
//! ppm values and consumed in a fixed order.

use vstd::prelude::*;

verus! {

use crate::calculations::PercentileSeries;
use crate::engine::{
    annual_to_monthly_return, clamp_annual_return, draw_monthly_return_shaped,
    transition_regime_state, initial_regime_state, ANNUAL_RETURN_MAX_PPM, ANNUAL_RETURN_MIN_PPM,
    MONTHLY_RETURN_MAX_PPM, MONTHLY_RETURN_MIN_PPM, SHAPED_MEAN_CAP_PPM, Z_SCORE_CAP_PPM,
};
use crate::fixed::{floor_div_i128, sat_add, sat_to_i64};
use crate::moments::ReturnMoments;
use crate::pools::RegimePools;
use crate::rng::{pick_index, RandomSource};
use crate::stats::{RuinSurface, SequenceRiskBucket, ANNUAL_REAL_CAP_PPM, GROWTH_FACTOR_CAP_PPM};
use crate::structs::MONEY_CAP_CENTS;
use crate::SCALE;

/// Year accumulators saturate at this many ppm.
pub const ACCUMULATOR_CAP_PPM: i64 = 1_000_000_000_000_000_000;

/// Everything one simulated trajectory needs, fixed for a whole run.
pub struct SimParams {
    pub months: u32,
    pub use_monthly_calibration: bool,
    pub use_historical_bootstrap: bool,
    pub block_length: i64,
    pub monthly_stay_growth: i64,
    pub monthly_stay_crisis: i64,
    pub growth_mean: i64,
    pub growth_std: i64,
    pub crisis_mean: i64,
    pub crisis_std: i64,
    pub return_skewness: i64,
    pub return_kurtosis: i64,
    pub growth_inflation_mean: i64,
    pub crisis_inflation_mean: i64,
    pub inflation_variability: i64,
    pub inflation_skewness: i64,
    pub inflation_kurtosis: i64,
    pub tax_ppm: i64,
    pub fee_factor_ppm: i64,
    pub current_savings: i64,
    pub retire_month: u32,
}

impl SimParams {
    /// The bounds the monthly loop's fixed-point arithmetic needs.
    pub open spec fn valid(&self) -> bool {
        &&& 1 <= self.months <= crate::cashflow::MONTHS_CAP
        &&& 0 <= self.block_length <= 1_000_000
        &&& 0 <= self.monthly_stay_growth <= SCALE
        &&& 0 <= self.monthly_stay_crisis <= SCALE
        &&& -SHAPED_MEAN_CAP_PPM <= self.growth_mean <= SHAPED_MEAN_CAP_PPM
        &&& 0 <= self.growth_std <= SHAPED_MEAN_CAP_PPM / 2
        &&& -SHAPED_MEAN_CAP_PPM <= self.crisis_mean <= SHAPED_MEAN_CAP_PPM
        &&& 0 <= self.crisis_std <= SHAPED_MEAN_CAP_PPM / 2
        &&& -SHAPED_MEAN_CAP_PPM <= self.growth_inflation_mean <= SHAPED_MEAN_CAP_PPM
        &&& -SHAPED_MEAN_CAP_PPM <= self.crisis_inflation_mean <= SHAPED_MEAN_CAP_PPM
        &&& 0 <= self.inflation_variability <= SHAPED_MEAN_CAP_PPM
        &&& 0 <= self.tax_ppm <= SCALE
        &&& 0 <= self.fee_factor_ppm <= SCALE
        &&& 0 <= self.current_savings <= MONEY_CAP_CENTS
    }
}

/// What one simulated trajectory leaves behind.
pub struct SimOutcome {
    pub balances: Vec<i64>,
    pub growth: Vec<i64>,
    pub annual_real_returns: Vec<i64>,
    pub final_balance: i64,
    pub retire_balance: i64,
    pub shortfall: i64,
    pub depleted_months: u32,
    pub depleted: bool,
}

/// How many zero balances a trajectory recorded.
pub open spec fn count_zeros(s: Seq<i64>) -> int
    decreases s.len(),
{
    if s.len() == 0 {
        0
    } else {
        count_zeros(s.drop_last()) + if s.last() == 0 {
            1int
        } else {
            0int
        }
    }
}

/// How many year marks a horizon of `months` has: one at every twelfth
/// month and one at the end of a partial final year.
pub open spec fn year_marks(months: int) -> int {
    months / 12 + if months % 12 == 0 {
        0int
    } else {
        1int
    }
}

/// Everything a trajectory reads, gathered for the ghost trace: the
/// fixed parameters, the cashflow arrays, the calibrated history, the
/// four bootstrap pools and the host's score stream.
pub struct SimWorld {
    pub params: SimParams,
    pub flows: Seq<i64>,
    pub lumps: Seq<i64>,
    pub eff_monthly: Seq<i64>,
    pub monthly_growth_pool: Seq<usize>,
    pub monthly_crisis_pool: Seq<usize>,
    pub annual_growth_pool: Seq<i64>,
    pub annual_crisis_pool: Seq<i64>,
    pub scores: Seq<i64>,
}

/// The complete state of one trajectory after some number of months:
/// generator state, score cursor, regime machinery, year accumulators,
/// wealth, and everything recorded so far.
pub struct SimTrace {
    pub rng_state: u32,
    pub cursor: int,
    pub regime: u8,
    pub block_remaining: int,
    pub history_index: int,
    pub active_return: int,
    pub annual_asset: int,
    pub annual_inflation: int,
    pub balance: int,
    pub shortfall: int,
    pub depleted: bool,
    pub depleted_months: int,
    pub balances: Seq<int>,
    pub growth: Seq<int>,
    pub annual_real: Seq<int>,
}

/// The state a trajectory starts from: the initial regime drawn from
/// the stationary probability, and (under annual calibration) one
/// pre-drawn active monthly return from the regime's value pool.
pub open spec fn sim_init_spec(w: SimWorld, rng0: u32, cursor0: int) -> SimTrace {
    let sg = w.params.monthly_stay_growth as int;
    let scr = w.params.monthly_stay_crisis as int;
    let s1 = crate::rng::m32_next(rng0);
    let regime0 = crate::engine::initial_regime_spec(sg, scr, crate::rng::m32_output(s1));
    let s2 = if !w.params.use_monthly_calibration {
        crate::rng::m32_next(s1)
    } else {
        s1
    };
    let active0 = if !w.params.use_monthly_calibration {
        let pool = if regime0 == 0 {
            w.annual_growth_pool
        } else {
            w.annual_crisis_pool
        };
        crate::engine::monthly_rate_spec(
            pool[crate::rng::pick_index_spec(crate::rng::m32_output(s2), pool.len() as int)] as int,
        )
    } else {
        0
    };
    SimTrace {
        rng_state: s2,
        cursor: cursor0,
        regime: regime0,
        block_remaining: 0,
        history_index: 0,
        active_return: active0,
        annual_asset: 0,
        annual_inflation: 0,
        balance: w.params.current_savings as int,
        shortfall: 0,
        depleted: false,
        depleted_months: 0,
        balances: Seq::empty(),
        growth: Seq::empty(),
        annual_real: Seq::empty(),
    }
}

/// The selection half of one simulated month: the Markov step and the
/// choice of the active monthly return (block bootstrap refresh, annual
/// resample with accumulator reset, or carry-over).
pub open spec fn sim_select_spec(w: SimWorld, m: int, st: SimTrace) -> SimTrace {
    let sg = w.params.monthly_stay_growth as int;
    let scr = w.params.monthly_stay_crisis as int;
    let rng1 = if m > 0 {
        crate::rng::m32_next(st.rng_state)
    } else {
        st.rng_state
    };
    let regime1 = if m > 0 {
        crate::engine::transition_regime_spec(st.regime, sg, scr, crate::rng::m32_output(rng1))
    } else {
        st.regime
    };
    let changed = if m > 0 {
        regime1 != st.regime
    } else {
        true
    };
    let refresh = st.block_remaining <= 0 || changed;
    let rng2 = if w.params.use_monthly_calibration && refresh {
        crate::rng::m32_next(rng1)
    } else {
        rng1
    };
    let hist_index1 = if w.params.use_monthly_calibration {
        if refresh {
            let pool = if regime1 == 0 {
                w.monthly_growth_pool
            } else {
                w.monthly_crisis_pool
            };
            pool[crate::rng::pick_index_spec(
                crate::rng::m32_output(rng2),
                pool.len() as int,
            )] as int
        } else {
            (st.history_index + 1) % (w.eff_monthly.len() as int)
        }
    } else {
        st.history_index
    };
    let block1 = if w.params.use_monthly_calibration {
        (if refresh {
            w.params.block_length as int
        } else {
            st.block_remaining
        }) - 1
    } else {
        st.block_remaining
    };
    let annual_boundary = !w.params.use_monthly_calibration && m > 0 && m % 12 == 0;
    let rng3 = if annual_boundary {
        crate::rng::m32_next(rng2)
    } else {
        rng2
    };
    let active1 = if w.params.use_monthly_calibration {
        w.eff_monthly[hist_index1] as int
    } else if annual_boundary {
        let pool = if regime1 == 0 {
            w.annual_growth_pool
        } else {
            w.annual_crisis_pool
        };
        crate::engine::monthly_rate_spec(
            pool[crate::rng::pick_index_spec(
                crate::rng::m32_output(rng3),
                pool.len() as int,
            )] as int,
        )
    } else {
        st.active_return
    };
    SimTrace {
        rng_state: rng3,
        cursor: st.cursor,
        regime: regime1,
        block_remaining: block1,
        history_index: hist_index1,
        active_return: active1,
        annual_asset: if annual_boundary {
            0
        } else {
            st.annual_asset
        },
        annual_inflation: if annual_boundary {
            0
        } else {
            st.annual_inflation
        },
        balance: st.balance,
        shortfall: st.shortfall,
        depleted: st.depleted,
        depleted_months: st.depleted_months,
        balances: st.balances,
        growth: st.growth,
        annual_real: st.annual_real,
    }
}

/// Whether the month consumes a stress score before the inflation one.
pub open spec fn sim_pure_parametric(w: SimWorld) -> bool {
    !w.params.use_monthly_calibration && !w.params.use_historical_bootstrap
}

/// Where the inflation score sits: one past the month's start when a
/// stress score was consumed first.
pub open spec fn sim_infl_cursor_spec(w: SimWorld, st: SimTrace) -> int {
    if sim_pure_parametric(w) {
        st.cursor + 1
    } else {
        st.cursor
    }
}

/// The month's nominal growth factor: the selected return, plus the
/// parametric stress overlay where it applies, taxed on gains and
/// scaled by the monthly fee factor.
pub open spec fn sim_gf_spec(w: SimWorld, st: SimTrace) -> int {
    let sc = SCALE as int;
    let stress_drift = if st.regime == 0 {
        0int
    } else {
        (w.params.crisis_mean - w.params.growth_mean) / 10
    };
    let stress_noise = if st.regime == 0 {
        (w.params.growth_std as int * 4) / 100
    } else {
        (w.params.crisis_std as int * 8) / 100
    };
    let monthly_return = if sim_pure_parametric(w) {
        st.active_return + crate::engine::monthly_shaped_spec(
            stress_drift,
            stress_noise,
            w.params.return_skewness as int,
            w.params.return_kurtosis as int,
            w.scores[st.cursor] as int,
        )
    } else {
        st.active_return
    };
    let after_tax = if monthly_return > 0 {
        (monthly_return * (sc - w.params.tax_ppm)) / sc
    } else {
        monthly_return
    };
    ((sc + after_tax) * (w.params.fee_factor_ppm as int)) / sc
}

/// The month's shaped inflation draw, from the regime's inflation mean.
pub open spec fn sim_mi_spec(w: SimWorld, st: SimTrace) -> int {
    let infl_mean = if st.regime == 0 {
        w.params.growth_inflation_mean as int
    } else {
        w.params.crisis_inflation_mean as int
    };
    crate::engine::monthly_shaped_spec(
        infl_mean,
        w.params.inflation_variability as int,
        w.params.inflation_skewness as int,
        w.params.inflation_kurtosis as int,
        w.scores[sim_infl_cursor_spec(w, st)] as int,
    )
}

/// The accounting half of one simulated month on the selected state,
/// with the month's growth factor and inflation draw given: saturated
/// year accumulators, then the wealth step clamped at zero.
pub open spec fn sim_account_spec(w: SimWorld, m: int, st: SimTrace, gf: int, mi: int) -> SimTrace {
    let sc = SCALE as int;
    let imin = i64::MIN as int;
    let imax = i64::MAX as int;
    let months = w.params.months as int;
    let aa1 = crate::fixed::clamp_spec(
        ((sc + st.annual_asset) * gf) / sc - sc,
        -(ACCUMULATOR_CAP_PPM as int),
        ACCUMULATOR_CAP_PPM as int,
    );
    let ai1 = crate::fixed::clamp_spec(
        ((sc + st.annual_inflation) * (sc + mi)) / sc - sc,
        -(ACCUMULATOR_CAP_PPM as int),
        ACCUMULATOR_CAP_PPM as int,
    );
    let pre = crate::fixed::clamp_spec(
        crate::fixed::clamp_spec(st.balance + w.flows[m], imin, imax) + w.lumps[m],
        imin,
        imax,
    );
    let grown = crate::fixed::clamp_spec((pre * gf) / sc, imin, imax);
    let deflator = if sc + mi < 100 {
        100int
    } else {
        sc + mi
    };
    let deflated = crate::fixed::clamp_spec((grown * sc) / deflator, imin, imax);
    let real_factor = (gf * sc) / deflator;
    let balance1 = if deflated <= 0 {
        0int
    } else {
        deflated
    };
    let shortfall1 = if deflated <= 0 {
        crate::fixed::clamp_spec(
            st.shortfall + (if deflated < 0 {
                -deflated
            } else {
                0int
            }),
            imin,
            imax,
        )
    } else {
        st.shortfall
    };
    let annual_real1 = if m % 12 == 11 || m == months - 1 {
        let rd = if sc + ai1 < 100 {
            100int
        } else {
            sc + ai1
        };
        st.annual_real.push(
            crate::fixed::clamp_spec(
                ((sc + aa1) * sc) / rd - sc,
                -(crate::stats::ANNUAL_REAL_CAP_PPM as int),
                crate::stats::ANNUAL_REAL_CAP_PPM as int,
            ),
        )
    } else {
        st.annual_real
    };
    SimTrace {
        rng_state: st.rng_state,
        cursor: sim_infl_cursor_spec(w, st) + 1,
        regime: st.regime,
        block_remaining: st.block_remaining,
        history_index: st.history_index,
        active_return: st.active_return,
        annual_asset: aa1,
        annual_inflation: ai1,
        balance: balance1,
        shortfall: shortfall1,
        depleted: st.depleted || deflated <= 0,
        depleted_months: st.depleted_months + if balance1 == 0 {
            1int
        } else {
            0int
        },
        balances: st.balances.push(balance1),
        growth: st.growth.push(real_factor),
        annual_real: annual_real1,
    }
}

/// The application half of one simulated month on the selected state.
pub open spec fn sim_apply_spec(w: SimWorld, m: int, st: SimTrace) -> SimTrace {
    sim_account_spec(w, m, st, sim_gf_spec(w, st), sim_mi_spec(w, st))
}

/// One simulated month: selection, then application.
pub open spec fn sim_month_spec(w: SimWorld, m: int, st: SimTrace) -> SimTrace {
    sim_apply_spec(w, m, sim_select_spec(w, m, st))
}

/// The trajectory after `k` simulated months.
pub open spec fn sim_trace_spec(w: SimWorld, rng0: u32, cursor0: int, k: nat) -> SimTrace
    decreases k,
{
    if k == 0 {
        sim_init_spec(w, rng0, cursor0)
    } else {
        sim_month_spec(w, k - 1, sim_trace_spec(w, rng0, cursor0, (k - 1) as nat))
    }
}

/// A simulation succeeds when it never depleted and ends positive.
pub open spec fn sim_success_spec(depleted: bool, final_balance: int) -> bool {
    !depleted && final_balance > 0
}

/// A simulation is ruined when it depleted or ends at nothing.
pub open spec fn sim_ruined_spec(depleted: bool, final_balance: int) -> bool {
    depleted || final_balance <= 0
}

/// Every simulation is either a success or a ruin, never both: the
/// success share and the ruin share always partition the whole.
pub proof fn lemma_success_ruin_partition(depleted: bool, final_balance: int)
    requires
        final_balance >= 0,
    ensures
        sim_success_spec(depleted, final_balance) <==> !sim_ruined_spec(depleted, final_balance),
{
}

/// The mutable per-month machinery of one trajectory, bundled so a
/// single month can be stepped in its own function.
struct MonthState {
    regime_state: u8,
    block_remaining: i64,
    current_history_index: usize,
    active_monthly_asset_return: i64,
    annual_asset_return: i64,
    annual_inflation: i64,
    balance: i64,
    cumulative_shortfall: i64,
    depleted: bool,
    depleted_months: u32,
    balances: Vec<i64>,
    growth: Vec<i64>,
    annual_real: Vec<i64>,
}

/// The ghost trace a concrete month state stands for.
spec fn month_state_trace(st: MonthState, rng_state: u32, cursor: int) -> SimTrace {
    SimTrace {
        rng_state: rng_state,
        cursor: cursor,
        regime: st.regime_state,
        block_remaining: st.block_remaining as int,
        history_index: st.current_history_index as int,
        active_return: st.active_monthly_asset_return as int,
        annual_asset: st.annual_asset_return as int,
        annual_inflation: st.annual_inflation as int,
        balance: st.balance as int,
        shortfall: st.cumulative_shortfall as int,
        depleted: st.depleted,
        depleted_months: st.depleted_months as int,
        balances: st.balances@.map_values(|v: i64| v as int),
        growth: st.growth@.map_values(|v: i64| v as int),
        annual_real: st.annual_real@.map_values(|v: i64| v as int),
    }
}

/// The bounds a month state keeps through the run.
spec fn month_state_ok(st: MonthState, params: SimParams, eff_len: int, m: int) -> bool {
    &&& 0 <= st.balance
    &&& params.use_monthly_calibration ==> st.current_history_index < eff_len
    &&& -1_400_000 <= st.active_monthly_asset_return <= 1_400_000
    &&& -1 <= st.block_remaining <= 1_000_000
    &&& -ACCUMULATOR_CAP_PPM <= st.annual_asset_return <= ACCUMULATOR_CAP_PPM
    &&& -ACCUMULATOR_CAP_PPM <= st.annual_inflation <= ACCUMULATOR_CAP_PPM
    &&& 0 <= st.cumulative_shortfall
    &&& st.balances@.len() == m
    &&& st.growth@.len() == m
    &&& (forall|k: int| 0 <= k < m ==> 0 <= #[trigger] st.balances@[k])
    &&& (forall|k: int|
        0 <= k < m ==> -GROWTH_FACTOR_CAP_PPM <= #[trigger] st.growth@[k]
            <= GROWTH_FACTOR_CAP_PPM)
    &&& st.depleted == (exists|k: int| 0 <= k < m && #[trigger] st.balances@[k] == 0)
    &&& st.depleted_months == count_zeros(st.balances@)
    &&& st.depleted_months <= m
    &&& (m >= 1 ==> st.balances@.len() >= 1 && st.balances@.last() == st.balance)
    &&& st.annual_real@.len() == (m / 12) + (if m == params.months && (params.months as int - 1)
        % 12 != 11 {
        1int
    } else {
        0int
    })
    &&& (forall|k: int|
        0 <= k < st.annual_real@.len() ==> -ANNUAL_REAL_CAP_PPM <= #[trigger] st.annual_real@[k]
            <= ANNUAL_REAL_CAP_PPM)
}

/// The selection half of one month: the Markov step and the choice of
/// the active monthly return, exactly as `sim_select_spec` describes.
#[verifier::rlimit(100)]
fn select_month(
    params: &SimParams,
    monthly_net_flow: &Vec<i64>,
    lump_sum_by_month: &Vec<i64>,
    effective_monthly_history: &Vec<i64>,
    monthly_index_pools: &RegimePools<usize>,
    annual_value_pools: &RegimePools<i64>,
    rng: &mut RandomSource,
    scores: &Vec<i64>,
    st: &mut MonthState,
    m: usize,
)
    requires
        params.valid(),
        m < params.months,
        monthly_net_flow@.len() == params.months,
        lump_sum_by_month@.len() == params.months,
        params.use_monthly_calibration ==> effective_monthly_history@.len() >= 1
            && monthly_index_pools.growth@.len() >= 1 && monthly_index_pools.crisis@.len() >= 1
            && (forall|i: int|
            0 <= i < monthly_index_pools.growth@.len() ==> (#[trigger] monthly_index_pools.growth@[i])
                < effective_monthly_history@.len()) && (forall|i: int|
            0 <= i < monthly_index_pools.crisis@.len() ==> (#[trigger] monthly_index_pools.crisis@[i])
                < effective_monthly_history@.len()) && (forall|i: int|
            0 <= i < effective_monthly_history@.len() ==> -MONTHLY_RETURN_MAX_PPM
                <= #[trigger] effective_monthly_history@[i] <= MONTHLY_RETURN_MAX_PPM),
        !params.use_monthly_calibration ==> annual_value_pools.growth@.len() >= 1
            && annual_value_pools.crisis@.len() >= 1 && (forall|i: int|
            0 <= i < annual_value_pools.growth@.len() ==> ANNUAL_RETURN_MIN_PPM
                <= #[trigger] annual_value_pools.growth@[i] <= ANNUAL_RETURN_MAX_PPM) && (
        forall|i: int|
            0 <= i < annual_value_pools.crisis@.len() ==> ANNUAL_RETURN_MIN_PPM
                <= #[trigger] annual_value_pools.crisis@[i] <= ANNUAL_RETURN_MAX_PPM),
        forall|i: int|
            0 <= i < scores@.len() ==> -Z_SCORE_CAP_PPM <= #[trigger] scores@[i]
                <= Z_SCORE_CAP_PPM,
        month_state_ok(*old(st), *params, effective_monthly_history@.len() as int, m as int),
    ensures
        month_state_ok(*final(st), *params, effective_monthly_history@.len() as int, m as int),
        final(st).balance == old(st).balance,
        final(st).cumulative_shortfall == old(st).cumulative_shortfall,
        final(st).depleted == old(st).depleted,
        final(st).depleted_months == old(st).depleted_months,
        final(st).balances == old(st).balances,
        final(st).growth == old(st).growth,
        final(st).annual_real == old(st).annual_real,
        forall|c: int|
            #[trigger] month_state_trace(*final(st), final(rng).state, c) == sim_select_spec(
                SimWorld {
                params: *params,
                flows: monthly_net_flow@,
                lumps: lump_sum_by_month@,
                eff_monthly: effective_monthly_history@,
                monthly_growth_pool: monthly_index_pools.growth@,
                monthly_crisis_pool: monthly_index_pools.crisis@,
                annual_growth_pool: annual_value_pools.growth@,
                annual_crisis_pool: annual_value_pools.crisis@,
                scores: scores@,
            },
                m as int,
                month_state_trace(*old(st), old(rng).state, c),
            ),
{
    let ghost w = SimWorld {
        params: *params,
        flows: monthly_net_flow@,
        lumps: lump_sum_by_month@,
        eff_monthly: effective_monthly_history@,
        monthly_growth_pool: monthly_index_pools.growth@,
        monthly_crisis_pool: monthly_index_pools.crisis@,
        annual_growth_pool: annual_value_pools.growth@,
        annual_crisis_pool: annual_value_pools.crisis@,
        scores: scores@,
    };
    let mut regime_changed = false;
    if m > 0 {
        let next_regime_state = transition_regime_state(
            st.regime_state,
            params.monthly_stay_growth,
            params.monthly_stay_crisis,
            rng,
        );
        if next_regime_state != st.regime_state {
            regime_changed = true;
            st.regime_state = next_regime_state;
        }
    } else {
        regime_changed = true;
    }

    if params.use_monthly_calibration {
        if st.block_remaining <= 0 || regime_changed {
            let index_pool = if st.regime_state == 0 {
                &monthly_index_pools.growth
            } else {
                &monthly_index_pools.crisis
            };
            let w2 = rng.random();
            let ridx = pick_index(w2, index_pool.len());
            st.current_history_index = index_pool[ridx];
            st.block_remaining = params.block_length;
        } else {
            let hist_len = effective_monthly_history.len();
            st.current_history_index = (st.current_history_index + 1) % hist_len;
        }
        st.active_monthly_asset_return = effective_monthly_history[st.current_history_index];
        st.block_remaining = st.block_remaining - 1;
    } else if m > 0 && m % 12 == 0 {
        let pool = if st.regime_state == 0 {
            &annual_value_pools.growth
        } else {
            &annual_value_pools.crisis
        };
        let w2 = rng.random();
        let ridx = pick_index(w2, pool.len());
        st.active_monthly_asset_return = annual_to_monthly_return(pool[ridx]);
        st.annual_asset_return = 0;
        st.annual_inflation = 0;
    }
}

/// The application half of one month: stress overlay, tax and fee, the
/// inflation draw, the saturated accumulators and the wealth step,
/// exactly as `sim_apply_spec` describes.
#[verifier::rlimit(100)]
fn apply_month(
    params: &SimParams,
    monthly_net_flow: &Vec<i64>,
    lump_sum_by_month: &Vec<i64>,
    effective_monthly_history: &Vec<i64>,
    monthly_index_pools: &RegimePools<usize>,
    annual_value_pools: &RegimePools<i64>,
    rng: &mut RandomSource,
    scores: &Vec<i64>,
    cursor: &mut usize,
    st: &mut MonthState,
    m: usize,
)
    requires
        params.valid(),
        m < params.months,
        monthly_net_flow@.len() == params.months,
        lump_sum_by_month@.len() == params.months,
        params.use_monthly_calibration ==> effective_monthly_history@.len() >= 1
            && monthly_index_pools.growth@.len() >= 1 && monthly_index_pools.crisis@.len() >= 1
            && (forall|i: int|
            0 <= i < monthly_index_pools.growth@.len() ==> (#[trigger] monthly_index_pools.growth@[i])
                < effective_monthly_history@.len()) && (forall|i: int|
            0 <= i < monthly_index_pools.crisis@.len() ==> (#[trigger] monthly_index_pools.crisis@[i])
                < effective_monthly_history@.len()) && (forall|i: int|
            0 <= i < effective_monthly_history@.len() ==> -MONTHLY_RETURN_MAX_PPM
                <= #[trigger] effective_monthly_history@[i] <= MONTHLY_RETURN_MAX_PPM),
        !params.use_monthly_calibration ==> annual_value_pools.growth@.len() >= 1
            && annual_value_pools.crisis@.len() >= 1 && (forall|i: int|
            0 <= i < annual_value_pools.growth@.len() ==> ANNUAL_RETURN_MIN_PPM
                <= #[trigger] annual_value_pools.growth@[i] <= ANNUAL_RETURN_MAX_PPM) && (
        forall|i: int|
            0 <= i < annual_value_pools.crisis@.len() ==> ANNUAL_RETURN_MIN_PPM
                <= #[trigger] annual_value_pools.crisis@[i] <= ANNUAL_RETURN_MAX_PPM),
        forall|i: int|
            0 <= i < scores@.len() ==> -Z_SCORE_CAP_PPM <= #[trigger] scores@[i]
                <= Z_SCORE_CAP_PPM,
        *old(cursor) + 2 <= scores@.len(),
        month_state_ok(*old(st), *params, effective_monthly_history@.len() as int, m as int),
    ensures
        *old(cursor) <= *final(cursor) <= *old(cursor) + 2,
        final(rng).state == old(rng).state,
        month_state_ok(
            *final(st),
            *params,
            effective_monthly_history@.len() as int,
            m as int + 1,
        ),
        month_state_trace(*final(st), old(rng).state, *final(cursor) as int) == sim_apply_spec(
            SimWorld {
                params: *params,
                flows: monthly_net_flow@,
                lumps: lump_sum_by_month@,
                eff_monthly: effective_monthly_history@,
                monthly_growth_pool: monthly_index_pools.growth@,
                monthly_crisis_pool: monthly_index_pools.crisis@,
                annual_growth_pool: annual_value_pools.growth@,
                annual_crisis_pool: annual_value_pools.crisis@,
                scores: scores@,
            },
            m as int,
            month_state_trace(*old(st), old(rng).state, *old(cursor) as int),
        ),
{
    let ghost w = SimWorld {
        params: *params,
        flows: monthly_net_flow@,
        lumps: lump_sum_by_month@,
        eff_monthly: effective_monthly_history@,
        monthly_growth_pool: monthly_index_pools.growth@,
        monthly_crisis_pool: monthly_index_pools.crisis@,
        annual_growth_pool: annual_value_pools.growth@,
        annual_crisis_pool: annual_value_pools.crisis@,
        scores: scores@,
    };
    let ghost t1 = month_state_trace(*st, rng.state, *cursor as int);
    let scores_len: usize = scores.len();
    let months = params.months as usize;

    let monthly_asset_return: i64 = if params.use_monthly_calibration
        || params.use_historical_bootstrap {
        st.active_monthly_asset_return
    } else {
        proof {
            crate::fixed::lemma_div_within(
                params.crisis_mean as int - params.growth_mean as int,
                10,
                4_000_000,
            );
            crate::fixed::lemma_div_within(params.growth_std as int * 4, 100, 400_000);
            crate::fixed::lemma_div_within(params.crisis_std as int * 8, 100, 800_000);
            vstd::arithmetic::div_mod::lemma_div_is_ordered(
                0,
                params.growth_std as int * 4,
                100,
            );
            vstd::arithmetic::div_mod::lemma_div_is_ordered(
                0,
                params.crisis_std as int * 8,
                100,
            );
        }
        let stress_drift: i64 = if st.regime_state == 0 {
            0
        } else {
            floor_div_i128(
                (params.crisis_mean as i128) - (params.growth_mean as i128),
                10,
            ) as i64
        };
        let stress_noise: i64 = if st.regime_state == 0 {
            floor_div_i128((params.growth_std as i128) * 4, 100) as i64
        } else {
            floor_div_i128((params.crisis_std as i128) * 8, 100) as i64
        };
        let z = scores[*cursor];
        *cursor += 1;
        let overlay = draw_monthly_return_shaped(
            stress_drift,
            stress_noise,
            params.return_skewness,
            params.return_kurtosis,
            z,
        );
        st.active_monthly_asset_return + overlay
    };
    proof {
        assert(*cursor as int == sim_infl_cursor_spec(w, t1));
    }

    let after_tax: i64 = if monthly_asset_return > 0 {
        proof {
            assert(monthly_asset_return as int * (SCALE - params.tax_ppm) as int
                <= 6_100_000_000_000_000_000int && 0 <= monthly_asset_return as int * (SCALE
                - params.tax_ppm) as int) by (nonlinear_arith)
                requires
                    0 < monthly_asset_return <= 6_100_000_000_000,
                    0 <= SCALE - params.tax_ppm <= 1_000_000;
            crate::fixed::lemma_div_within(
                monthly_asset_return as int * (SCALE - params.tax_ppm) as int,
                SCALE as int,
                6_100_000_000_000,
            );
        }
        floor_div_i128(
            (monthly_asset_return as i128) * ((SCALE - params.tax_ppm) as i128),
            SCALE as i128,
        ) as i64
    } else {
        monthly_asset_return
    };

    proof {
        assert((SCALE as int + after_tax) * params.fee_factor_ppm as int
            <= 7_000_000_000_000_000_000int && (SCALE as int + after_tax)
            * params.fee_factor_ppm as int >= -7_000_000_000_000_000_000int)
            by (nonlinear_arith)
            requires
                -6_200_000_000_000 <= SCALE as int + after_tax <= 6_200_000_000_000,
                0 <= params.fee_factor_ppm <= 1_000_000;
        crate::fixed::lemma_div_within(
            (SCALE as int + after_tax) * params.fee_factor_ppm as int,
            SCALE as int,
            7_000_000_000_000,
        );
    }
    let growth_factor: i64 = floor_div_i128(
        ((SCALE as i128) + (after_tax as i128)) * (params.fee_factor_ppm as i128),
        SCALE as i128,
    ) as i64;
    proof {
        assert(growth_factor as int == sim_gf_spec(w, t1));
    }

    let effective_inflation_mean: i64 = if st.regime_state == 0 {
        params.growth_inflation_mean
    } else {
        params.crisis_inflation_mean
    };
    let z2 = scores[*cursor];
    *cursor += 1;
    let monthly_inflation = draw_monthly_return_shaped(
        effective_inflation_mean,
        params.inflation_variability,
        params.inflation_skewness,
        params.inflation_kurtosis,
        z2,
    );
    proof {
        assert(monthly_inflation as int == sim_mi_spec(w, t1));
    }

    // year accumulators, saturated on the ppm grid
    proof {
        assert((SCALE as int + st.annual_asset_return) * (growth_factor as int)
            <= 0x4000_0000_0000_0000_0000_0000_0000_0000int && (SCALE as int
            + st.annual_asset_return) * (growth_factor as int)
            >= -0x4000_0000_0000_0000_0000_0000_0000_0000int) by (nonlinear_arith)
            requires
                -1_000_000_000_000_000_000 - 1_000_000 <= SCALE as int + st.annual_asset_return
                    <= 1_000_000_000_000_000_000 + 1_000_000,
                -7_000_000_000_000 <= growth_factor <= 7_000_000_000_000;
    }
    let aa_wide: i128 = floor_div_i128(
        ((SCALE as i128) + (st.annual_asset_return as i128)) * (growth_factor as i128),
        SCALE as i128,
    ) - (SCALE as i128);
    st.annual_asset_return = if aa_wide < -(ACCUMULATOR_CAP_PPM as i128) {
        -ACCUMULATOR_CAP_PPM
    } else if aa_wide > ACCUMULATOR_CAP_PPM as i128 {
        ACCUMULATOR_CAP_PPM
    } else {
        aa_wide as i64
    };
    proof {
        assert((SCALE as int + st.annual_inflation) * (SCALE as int + monthly_inflation)
            <= 0x4000_0000_0000_0000_0000_0000_0000_0000int && (SCALE as int
            + st.annual_inflation) * (SCALE as int + monthly_inflation)
            >= -0x4000_0000_0000_0000_0000_0000_0000_0000int) by (nonlinear_arith)
            requires
                -1_000_000_000_000_000_000 - 1_000_000 <= SCALE as int + st.annual_inflation
                    <= 1_000_000_000_000_000_000 + 1_000_000,
                -7_000_000_000_000 <= SCALE as int + monthly_inflation
                    <= 7_000_000_000_000;
    }
    let ai_wide: i128 = floor_div_i128(
        ((SCALE as i128) + (st.annual_inflation as i128)) * ((SCALE as i128)
            + (monthly_inflation as i128)),
        SCALE as i128,
    ) - (SCALE as i128);
    st.annual_inflation = if ai_wide < -(ACCUMULATOR_CAP_PPM as i128) {
        -ACCUMULATOR_CAP_PPM
    } else if ai_wide > ACCUMULATOR_CAP_PPM as i128 {
        ACCUMULATOR_CAP_PPM
    } else {
        ai_wide as i64
    };

    // wealth accounting
    let with_flow = sat_add(st.balance, monthly_net_flow[m]);
    let pre = sat_add(with_flow, lump_sum_by_month[m]);
    proof {
        assert(pre as int * growth_factor as int
            <= 0x4000_0000_0000_0000_0000_0000_0000_0000int && pre as int
            * growth_factor as int >= -0x4000_0000_0000_0000_0000_0000_0000_0000int)
            by (nonlinear_arith)
            requires
                i64::MIN <= pre <= i64::MAX,
                -7_000_000_000_000 <= growth_factor <= 7_000_000_000_000;
    }
    let grown: i64 = sat_to_i64(
        floor_div_i128((pre as i128) * (growth_factor as i128), SCALE as i128),
    );
    let deflator: i64 = if SCALE + monthly_inflation < 100 {
        100
    } else {
        SCALE + monthly_inflation
    };
    proof {
        assert(grown as int * SCALE as int <= 0x4000_0000_0000_0000_0000_0000_0000_0000int
            && grown as int * SCALE as int
            >= -0x4000_0000_0000_0000_0000_0000_0000_0000int) by (nonlinear_arith)
            requires
                i64::MIN <= grown <= i64::MAX,
                SCALE == 1_000_000;
    }
    let deflated: i64 = sat_to_i64(
        floor_div_i128((grown as i128) * (SCALE as i128), deflator as i128),
    );
    proof {
        assert(growth_factor as int * SCALE as int <= 70_000_000_000_000_000int
            * deflator as int && growth_factor as int * SCALE as int
            >= -(70_000_000_000_000_000int * deflator as int)) by (nonlinear_arith)
            requires
                -7_000_000_000_000 <= growth_factor <= 7_000_000_000_000,
                SCALE == 1_000_000,
                deflator >= 100;
        crate::fixed::lemma_div_within(
            growth_factor as int * SCALE as int,
            deflator as int,
            70_000_000_000_000_000,
        );
    }
    let real_factor: i64 = floor_div_i128(
        (growth_factor as i128) * (SCALE as i128),
        deflator as i128,
    ) as i64;
    st.growth.push(real_factor);

    if deflated <= 0 {
        let shortfall_add: i128 = if deflated < 0 {
            -(deflated as i128)
        } else {
            0
        };
        st.cumulative_shortfall = sat_to_i64(
            (st.cumulative_shortfall as i128) + shortfall_add,
        );
        st.depleted = true;
        st.balance = 0;
    } else {
        st.balance = deflated;
    }

    proof {
        lemma_month_step(m as int);
    }
    // Year boundary: the accumulators are reset only by the annual
    // resampling branch of the selection phase, so under monthly
    // calibration they carry across years; the pushed value is the
    // cumulative real return since the last reset.
    if m % 12 == 11 || m == months - 1 {
        let real_deflator: i64 = if SCALE + st.annual_inflation < 100 {
            100
        } else {
            SCALE + st.annual_inflation
        };
        proof {
            assert((SCALE as int + st.annual_asset_return) * SCALE as int
                <= 20_000_000_000_000_000_000_000int * real_deflator as int && (SCALE as int
                + st.annual_asset_return) * SCALE as int
                >= -(20_000_000_000_000_000_000_000int * real_deflator as int))
                by (nonlinear_arith)
                requires
                    -1_000_000_000_000_000_001 <= SCALE as int + st.annual_asset_return
                        <= 1_000_000_000_001_000_000,
                    SCALE == 1_000_000,
                    real_deflator >= 100;
            crate::fixed::lemma_div_within(
                (SCALE as int + st.annual_asset_return) * SCALE as int,
                real_deflator as int,
                20_000_000_000_000_000_000_000int,
            );
        }
        let ar_wide: i128 = floor_div_i128(
            ((SCALE as i128) + (st.annual_asset_return as i128)) * (SCALE as i128),
            real_deflator as i128,
        ) - (SCALE as i128);
        let ar: i64 = if ar_wide < -(ANNUAL_REAL_CAP_PPM as i128) {
            -ANNUAL_REAL_CAP_PPM
        } else if ar_wide > ANNUAL_REAL_CAP_PPM as i128 {
            ANNUAL_REAL_CAP_PPM
        } else {
            ar_wide as i64
        };
        st.annual_real.push(ar);
    }

    if st.balance == 0 {
        st.depleted_months = st.depleted_months + 1;
    }
    let ghost pre_balances = st.balances@;
    st.balances.push(st.balance);
    proof {
        assert(st.balances@.drop_last() =~= pre_balances);
        if st.balance == 0 {
            assert(st.balances@[m as int] == 0);
        }
        let t2 = sim_account_spec(
            w,
            m as int,
            t1,
            growth_factor as int,
            monthly_inflation as int,
        );
        assert(st.balances@.map_values(|v: i64| v as int) =~= t2.balances);
        assert(st.growth@.map_values(|v: i64| v as int) =~= t2.growth);
        assert(st.annual_real@.map_values(|v: i64| v as int) =~= t2.annual_real);
        assert(month_state_trace(*st, rng.state, *cursor as int) == t2);
        assert(t2 == sim_apply_spec(w, m as int, t1));
    }
}

/// Run one trajectory: regime transitions and pool draws from the
/// seeded generator, shaped draws from the host's score stream, and
/// exact fixed-point wealth accounting clamped at zero. The whole
/// trajectory equals the ghost trace `sim_trace_spec` month by month.
#[verifier::rlimit(100)]
pub fn run_single_simulation(
    params: &SimParams,
    monthly_net_flow: &Vec<i64>,
    lump_sum_by_month: &Vec<i64>,
    effective_monthly_history: &Vec<i64>,
    monthly_index_pools: &RegimePools<usize>,
    annual_value_pools: &RegimePools<i64>,
    rng: &mut RandomSource,
    scores: &Vec<i64>,
    cursor: &mut usize,
) -> (r: SimOutcome)
    requires
        params.valid(),
        monthly_net_flow@.len() == params.months,
        lump_sum_by_month@.len() == params.months,
        params.use_monthly_calibration ==> effective_monthly_history@.len() >= 1
            && monthly_index_pools.growth@.len() >= 1 && monthly_index_pools.crisis@.len() >= 1
            && (forall|i: int|
            0 <= i < monthly_index_pools.growth@.len() ==> (#[trigger] monthly_index_pools.growth@[i])
                < effective_monthly_history@.len()) && (forall|i: int|
            0 <= i < monthly_index_pools.crisis@.len() ==> (#[trigger] monthly_index_pools.crisis@[i])
                < effective_monthly_history@.len()) && (forall|i: int|
            0 <= i < effective_monthly_history@.len() ==> -MONTHLY_RETURN_MAX_PPM
                <= #[trigger] effective_monthly_history@[i] <= MONTHLY_RETURN_MAX_PPM),
        !params.use_monthly_calibration ==> annual_value_pools.growth@.len() >= 1
            && annual_value_pools.crisis@.len() >= 1 && (forall|i: int|
            0 <= i < annual_value_pools.growth@.len() ==> ANNUAL_RETURN_MIN_PPM
                <= #[trigger] annual_value_pools.growth@[i] <= ANNUAL_RETURN_MAX_PPM) && (
        forall|i: int|
            0 <= i < annual_value_pools.crisis@.len() ==> ANNUAL_RETURN_MIN_PPM
                <= #[trigger] annual_value_pools.crisis@[i] <= ANNUAL_RETURN_MAX_PPM),
        forall|i: int|
            0 <= i < scores@.len() ==> -Z_SCORE_CAP_PPM <= #[trigger] scores@[i]
                <= Z_SCORE_CAP_PPM,
        *old(cursor) + 2 * params.months <= scores@.len(),
    ensures
        *old(cursor) <= *final(cursor) <= *old(cursor) + 2 * params.months,
        r.balances@.len() == params.months,
        forall|m: int| 0 <= m < params.months ==> 0 <= #[trigger] r.balances@[m],
        r.growth@.len() == params.months,
        forall|m: int|
            0 <= m < params.months ==> -GROWTH_FACTOR_CAP_PPM <= #[trigger] r.growth@[m]
                <= GROWTH_FACTOR_CAP_PPM,
        r.final_balance == r.balances@.last(),
        r.final_balance >= 0,
        r.retire_balance == r.balances@[if params.retire_month <= 1 {
            0int
        } else if params.retire_month - 1 < params.months - 1 {
            params.retire_month - 1
        } else {
            params.months - 1
        }],
        r.depleted == (exists|m: int| 0 <= m < params.months && #[trigger] r.balances@[m] == 0),
        r.depleted_months == count_zeros(r.balances@),
        r.depleted_months <= params.months,
        r.shortfall >= 0,
        r.annual_real_returns@.len() == year_marks(params.months as int),
        forall|k: int|
            0 <= k < r.annual_real_returns@.len() ==> -ANNUAL_REAL_CAP_PPM
                <= #[trigger] r.annual_real_returns@[k] <= ANNUAL_REAL_CAP_PPM,
        ({
            let w = SimWorld {
                params: *params,
                flows: monthly_net_flow@,
                lumps: lump_sum_by_month@,
                eff_monthly: effective_monthly_history@,
                monthly_growth_pool: monthly_index_pools.growth@,
                monthly_crisis_pool: monthly_index_pools.crisis@,
                annual_growth_pool: annual_value_pools.growth@,
                annual_crisis_pool: annual_value_pools.crisis@,
                scores: scores@,
            };
            let t = sim_trace_spec(w, old(rng).state, *old(cursor) as int, params.months as nat);
            &&& final(rng).state == t.rng_state
            &&& *final(cursor) == t.cursor
            &&& r.balances@.map_values(|v: i64| v as int) == t.balances
            &&& r.growth@.map_values(|v: i64| v as int) == t.growth
            &&& r.annual_real_returns@.map_values(|v: i64| v as int) == t.annual_real
            &&& r.final_balance == t.balance
            &&& r.shortfall == t.shortfall
            &&& r.depleted == t.depleted
            &&& r.depleted_months == t.depleted_months
        }),
{
    let ghost s0 = rng.state;
    let ghost c0 = *cursor as int;
    let ghost w = SimWorld {
        params: *params,
        flows: monthly_net_flow@,
        lumps: lump_sum_by_month@,
        eff_monthly: effective_monthly_history@,
        monthly_growth_pool: monthly_index_pools.growth@,
        monthly_crisis_pool: monthly_index_pools.crisis@,
        annual_growth_pool: annual_value_pools.growth@,
        annual_crisis_pool: annual_value_pools.crisis@,
        scores: scores@,
    };
    let months = params.months as usize;
    let regime_state: u8 = initial_regime_state(
        params.monthly_stay_growth,
        params.monthly_stay_crisis,
        rng,
    );
    let mut active_monthly_asset_return: i64 = 0;
    if !params.use_monthly_calibration {
        let pool = if regime_state == 0 {
            &annual_value_pools.growth
        } else {
            &annual_value_pools.crisis
        };
        let w2 = rng.random();
        let idx = pick_index(w2, pool.len());
        active_monthly_asset_return = annual_to_monthly_return(pool[idx]);
    }
    let mut st = MonthState {
        regime_state,
        block_remaining: 0,
        current_history_index: 0,
        active_monthly_asset_return,
        annual_asset_return: 0,
        annual_inflation: 0,
        balance: params.current_savings,
        cumulative_shortfall: 0,
        depleted: false,
        depleted_months: 0,
        balances: Vec::new(),
        growth: Vec::new(),
        annual_real: Vec::new(),
    };
    proof {
        let t0 = sim_trace_spec(w, s0, c0, 0);
        assert(t0 == sim_init_spec(w, s0, c0));
        assert(st.balances@.map_values(|v: i64| v as int) =~= t0.balances);
        assert(st.growth@.map_values(|v: i64| v as int) =~= t0.growth);
        assert(st.annual_real@.map_values(|v: i64| v as int) =~= t0.annual_real);
        assert(month_state_trace(st, rng.state, *cursor as int) == t0);
    }
    let mut m: usize = 0;
    while m < months
        invariant
            m <= months,
            months == params.months,
            params.valid(),
            monthly_net_flow@.len() == params.months,
            lump_sum_by_month@.len() == params.months,
            params.use_monthly_calibration ==> effective_monthly_history@.len() >= 1
                && monthly_index_pools.growth@.len() >= 1 && monthly_index_pools.crisis@.len()
                >= 1 && (forall|i: int|
                0 <= i < monthly_index_pools.growth@.len()
                    ==> (#[trigger] monthly_index_pools.growth@[i])
                    < effective_monthly_history@.len()) && (forall|i: int|
                0 <= i < monthly_index_pools.crisis@.len()
                    ==> (#[trigger] monthly_index_pools.crisis@[i])
                    < effective_monthly_history@.len()) && (forall|i: int|
                0 <= i < effective_monthly_history@.len() ==> -MONTHLY_RETURN_MAX_PPM
                    <= #[trigger] effective_monthly_history@[i] <= MONTHLY_RETURN_MAX_PPM),
            !params.use_monthly_calibration ==> annual_value_pools.growth@.len() >= 1
                && annual_value_pools.crisis@.len() >= 1 && (forall|i: int|
                0 <= i < annual_value_pools.growth@.len() ==> ANNUAL_RETURN_MIN_PPM
                    <= #[trigger] annual_value_pools.growth@[i] <= ANNUAL_RETURN_MAX_PPM) && (
            forall|i: int|
                0 <= i < annual_value_pools.crisis@.len() ==> ANNUAL_RETURN_MIN_PPM
                    <= #[trigger] annual_value_pools.crisis@[i] <= ANNUAL_RETURN_MAX_PPM),
            forall|i: int|
                0 <= i < scores@.len() ==> -Z_SCORE_CAP_PPM <= #[trigger] scores@[i]
                    <= Z_SCORE_CAP_PPM,
            *old(cursor) + 2 * params.months <= scores@.len(),
            *old(cursor) <= *cursor <= *old(cursor) + 2 * m,
            s0 == old(rng).state,
            c0 == *old(cursor) as int,
            w == (SimWorld {
                params: *params,
                flows: monthly_net_flow@,
                lumps: lump_sum_by_month@,
                eff_monthly: effective_monthly_history@,
                monthly_growth_pool: monthly_index_pools.growth@,
                monthly_crisis_pool: monthly_index_pools.crisis@,
                annual_growth_pool: annual_value_pools.growth@,
                annual_crisis_pool: annual_value_pools.crisis@,
                scores: scores@,
            }),
            month_state_ok(st, *params, effective_monthly_history@.len() as int, m as int),
            month_state_trace(st, rng.state, *cursor as int) == sim_trace_spec(
                w,
                s0,
                c0,
                m as nat,
            ),
        decreases months - m,
    {
        select_month(
            params,
            monthly_net_flow,
            lump_sum_by_month,
            effective_monthly_history,
            monthly_index_pools,
            annual_value_pools,
            rng,
            scores,
            &mut st,
            m,
        );
        proof {
            assert(month_state_trace(st, rng.state, *cursor as int) == sim_select_spec(
                w,
                m as int,
                sim_trace_spec(w, s0, c0, m as nat),
            ));
        }
        apply_month(
            params,
            monthly_net_flow,
            lump_sum_by_month,
            effective_monthly_history,
            monthly_index_pools,
            annual_value_pools,
            rng,
            scores,
            cursor,
            &mut st,
            m,
        );
        proof {
            assert(sim_trace_spec(w, s0, c0, (m + 1) as nat) == sim_month_spec(
                w,
                m as int,
                sim_trace_spec(w, s0, c0, m as nat),
            ));
        }
        m += 1;
    }

    let retire_index: usize = {
        let base: usize = if params.retire_month == 0 {
            0
        } else {
            (params.retire_month - 1) as usize
        };
        if base < months - 1 {
            base
        } else {
            months - 1
        }
    };
    let retire_balance = st.balances[retire_index];
    let final_balance = st.balance;
    let out = SimOutcome {
        balances: st.balances,
        growth: st.growth,
        annual_real_returns: st.annual_real,
        final_balance,
        retire_balance,
        shortfall: st.cumulative_shortfall,
        depleted_months: st.depleted_months,
        depleted: st.depleted,
    };
    proof {
        assert(out.balances@.last() == out.balances@[months - 1]);
        assert(out.depleted == (exists|k: int|
            0 <= k < params.months && #[trigger] out.balances@[k] == 0));
        assert(out.depleted_months == count_zeros(out.balances@));
    }
    out
}

/// How month counters step across a year boundary.
proof fn lemma_month_step(m: int)
    requires
        m >= 0,
    ensures
        m % 12 == 11 ==> (m + 1) / 12 == m / 12 + 1 && (m + 1) % 12 == 0,
        m % 12 != 11 ==> (m + 1) / 12 == m / 12 && (m + 1) % 12 == m % 12 + 1,
{
    vstd::arithmetic::div_mod::lemma_fundamental_div_mod(m, 12);
    if m % 12 == 11 {
        vstd::arithmetic::div_mod::lemma_fundamental_div_mod_converse(
            m + 1,
            12,
            m / 12 + 1,
            0,
        );
    } else {
        vstd::arithmetic::div_mod::lemma_fundamental_div_mod_converse(
            m + 1,
            12,
            m / 12,
            m % 12 + 1,
        );
    }
}


/// The seed a run uses: the given one, or zero when the host supplies
/// none (an unseeded run takes its seed from host entropy instead).
pub open spec fn run_seed_spec(input: crate::structs::RetirementInput) -> u32 {
    match input.seed {
        Option::Some(sd) => sd,
        Option::None => 0u32,
    }
}

/// Whether a run draws on the user's annual history rather than a
/// synthesized parametric one.
pub open spec fn uses_user_annual_history(input: crate::structs::RetirementInput) -> bool {
    &&& input.simulation_mode == crate::structs::SimulationMode::Historical
    &&& (match input.historical_annual_returns {
        Option::Some(h) => h@.len() >= 25,
        Option::None => false,
    })
}

/// The raw annual history a run starts from: the user's, or 120 years
/// of the parametric generator walked from the seed.
pub open spec fn bootstrap_history_source_spec(
    input: crate::structs::RetirementInput,
    s0: u32,
    t_scores: Seq<i64>,
) -> Seq<i64> {
    if uses_user_annual_history(input) {
        match input.historical_annual_returns {
            Option::Some(h) => h@,
            Option::None => Seq::empty(),
        }
    } else {
        Seq::new(
            120,
            |y: int|
                history_value_spec(
                    history_regime_spec(
                        s0,
                        crate::fixed::clamp_spec(
                            input.regime_model.stay_growth as int,
                            crate::engine::MIN_TRANSITION_PPM as int,
                            crate::engine::MAX_TRANSITION_PPM as int,
                        ),
                        crate::fixed::clamp_spec(
                            input.regime_model.stay_crisis as int,
                            crate::engine::MIN_TRANSITION_PPM as int,
                            crate::engine::MAX_TRANSITION_PPM as int,
                        ),
                        y as nat,
                    ),
                    t_scores[y] as int,
                    input.regime_model.growth_mean as int,
                    history_growth_std_spec(input.regime_model),
                    input.regime_model.crisis_mean as int,
                    history_crisis_std_spec(input.regime_model),
                    history_skew_shift_spec(input.return_skewness as int),
                ) as i64,
        )
    }
}

/// The target deviation of the moment remap, floored at zero.
pub open spec fn target_annual_std_spec(input: crate::structs::RetirementInput) -> int {
    if input.return_variability < 0 {
        0
    } else {
        input.return_variability as int
    }
}

pub open spec fn moment_targeting_on(input: crate::structs::RetirementInput) -> bool {
    input.historical_moment_targeting == Option::Some(true)
}

/// The calibrated annual history: the source, optionally remapped onto
/// the target moments, always clamped onto the annual band.
pub open spec fn effective_annual_history_spec(
    input: crate::structs::RetirementInput,
    s0: u32,
    t_scores: Seq<i64>,
) -> Seq<i64> {
    let base = bootstrap_history_source_spec(input, s0, t_scores);
    if input.simulation_mode == crate::structs::SimulationMode::Historical {
        base.map_values(
            |v: i64|
                crate::fixed::clamp_spec(
                    if moment_targeting_on(input) {
                        crate::fixed::clamp_spec(
                            crate::targeting::moment_target_spec(
                                v as int,
                                crate::calculations::mean_of(base),
                                crate::calculations::std_of(base),
                                input.mean_return as int,
                                target_annual_std_spec(input),
                            ),
                            i64::MIN as int,
                            i64::MAX as int,
                        )
                    } else {
                        v as int
                    },
                    ANNUAL_RETURN_MIN_PPM as int,
                    ANNUAL_RETURN_MAX_PPM as int,
                ) as i64,
        )
    } else {
        base
    }
}

/// The user's monthly history clamped onto the monthly band.
pub open spec fn clamped_monthly_history_spec(input: crate::structs::RetirementInput) -> Seq<
    i64,
> {
    if input.simulation_mode == crate::structs::SimulationMode::Historical {
        match input.historical_monthly_returns {
            Option::Some(h) => h@.map_values(
                |v: i64|
                    crate::fixed::clamp_spec(
                        v as int,
                        MONTHLY_RETURN_MIN_PPM as int,
                        MONTHLY_RETURN_MAX_PPM as int,
                    ) as i64,
            ),
            Option::None => Seq::empty(),
        }
    } else {
        Seq::empty()
    }
}

/// The calibrated monthly history: clamped, optionally remapped onto
/// the monthly target moments, clamped again.
pub open spec fn effective_monthly_history_spec(input: crate::structs::RetirementInput) -> Seq<
    i64,
> {
    let base = clamped_monthly_history_spec(input);
    if input.simulation_mode == crate::structs::SimulationMode::Historical
        && moment_targeting_on(input) {
        base.map_values(
            |v: i64|
                crate::fixed::clamp_spec(
                    crate::fixed::clamp_spec(
                        crate::targeting::moment_target_spec(
                            v as int,
                            crate::calculations::mean_of(base),
                            crate::calculations::std_of(base),
                            (input.mean_return as int) / 12,
                            (target_annual_std_spec(input) * SCALE) / (
                            crate::engine::SQRT12_PPM as int),
                        ),
                        i64::MIN as int,
                        i64::MAX as int,
                    ),
                    MONTHLY_RETURN_MIN_PPM as int,
                    MONTHLY_RETURN_MAX_PPM as int,
                ) as i64,
        )
    } else {
        base
    }
}

pub open spec fn driver_monthly_calibration_spec(input: crate::structs::RetirementInput) -> bool {
    effective_monthly_history_spec(input).len() >= 120
}

pub open spec fn annual_labels_spec(
    input: crate::structs::RetirementInput,
    s0: u32,
    t_scores: Seq<i64>,
) -> Seq<u8> {
    crate::regimes::regime_labels_spec(
        effective_annual_history_spec(input, s0, t_scores),
        3,
        650_000,
        1_150_000,
    )
}

pub open spec fn annual_growth_pool_spec(
    input: crate::structs::RetirementInput,
    s0: u32,
    t_scores: Seq<i64>,
) -> Seq<i64> {
    let eff = effective_annual_history_spec(input, s0, t_scores);
    let labels = annual_labels_spec(input, s0, t_scores);
    if crate::pools::growth_values_spec(eff, labels).len() > 0 {
        crate::pools::growth_values_spec(eff, labels)
    } else {
        eff
    }
}

pub open spec fn annual_crisis_pool_spec(
    input: crate::structs::RetirementInput,
    s0: u32,
    t_scores: Seq<i64>,
) -> Seq<i64> {
    let eff = effective_annual_history_spec(input, s0, t_scores);
    let labels = annual_labels_spec(input, s0, t_scores);
    if crate::pools::crisis_values_spec(eff, labels).len() > 0 {
        crate::pools::crisis_values_spec(eff, labels)
    } else {
        crate::calculations::sorted_of(eff).subrange(
            0,
            crate::pools::crisis_fallback_count(eff.len() as int),
        )
    }
}

pub open spec fn monthly_labels_spec(input: crate::structs::RetirementInput) -> Seq<u8> {
    crate::regimes::regime_labels_spec(
        effective_monthly_history_spec(input),
        6,
        750_000,
        1_200_000,
    )
}

pub open spec fn monthly_growth_pool_spec(input: crate::structs::RetirementInput) -> Seq<usize> {
    if driver_monthly_calibration_spec(input) {
        let labels = monthly_labels_spec(input);
        if crate::pools::growth_indices_spec(labels).len() > 0 {
            crate::pools::growth_indices_spec(labels)
        } else {
            Seq::new(labels.len(), |i: int| i as usize)
        }
    } else {
        Seq::empty()
    }
}

pub open spec fn monthly_crisis_pool_spec(input: crate::structs::RetirementInput) -> Seq<usize> {
    if driver_monthly_calibration_spec(input) {
        let labels = monthly_labels_spec(input);
        if crate::pools::crisis_indices_spec(labels).len() > 0 {
            crate::pools::crisis_indices_spec(labels)
        } else {
            crate::pools::indices_by_value_spec(effective_monthly_history_spec(input)).subrange(
                0,
                crate::pools::crisis_index_fallback_count(labels.len() as int),
            )
        }
    } else {
        Seq::empty()
    }
}

/// The monthly Markov stays: estimated from the monthly labels, or the
/// twelfth root of the clamped annual stays.
pub open spec fn monthly_stay_growth_spec(input: crate::structs::RetirementInput) -> int {
    if driver_monthly_calibration_spec(input) {
        crate::pools::stay_growth_spec(monthly_labels_spec(input))
    } else {
        crate::fixed::clamp_spec(
            crate::engine::root12_spec(
                crate::fixed::clamp_spec(
                    input.regime_model.stay_growth as int,
                    crate::engine::MIN_TRANSITION_PPM as int,
                    crate::engine::MAX_TRANSITION_PPM as int,
                ),
            ),
            crate::engine::MIN_TRANSITION_PPM as int,
            crate::engine::MAX_TRANSITION_PPM as int,
        )
    }
}

pub open spec fn monthly_stay_crisis_spec(input: crate::structs::RetirementInput) -> int {
    if driver_monthly_calibration_spec(input) {
        crate::pools::stay_crisis_spec(monthly_labels_spec(input))
    } else {
        crate::fixed::clamp_spec(
            crate::engine::root12_spec(
                crate::fixed::clamp_spec(
                    input.regime_model.stay_crisis as int,
                    crate::engine::MIN_TRANSITION_PPM as int,
                    crate::engine::MAX_TRANSITION_PPM as int,
                ),
            ),
            crate::engine::MIN_TRANSITION_PPM as int,
            crate::engine::MAX_TRANSITION_PPM as int,
        )
    }
}

/// The inflation-crisis spread actually applied: the requested spread,
/// capped by eight tenths of the variability-implied maximum.
pub open spec fn effective_spread_spec(input: crate::structs::RetirementInput) -> int {
    let sg = crate::fixed::clamp_spec(
        input.regime_model.stay_growth as int,
        crate::engine::MIN_TRANSITION_PPM as int,
        crate::engine::MAX_TRANSITION_PPM as int,
    );
    let sc = crate::fixed::clamp_spec(
        input.regime_model.stay_crisis as int,
        crate::engine::MIN_TRANSITION_PPM as int,
        crate::engine::MAX_TRANSITION_PPM as int,
    );
    let pg = crate::engine::stationary_growth_spec(sg, sc);
    let pc = SCALE - pg;
    let req = (match input.inflation_crisis_spread {
        Option::Some(sp) => sp as int,
        Option::None => 15_000int,
    });
    let ivar = if input.inflation_variability < 0 {
        0int
    } else {
        input.inflation_variability as int
    };
    if pg * pc <= 0 {
        req
    } else {
        let ms = crate::fixed::sqrt_floor(
            (ivar * ivar * SCALE * SCALE) / (pg * pc),
        );
        let scaled = (ms * 8) / 10;
        let capped = if scaled > 1_000_000_000 {
            1_000_000_000int
        } else {
            scaled
        };
        if req < capped {
            req
        } else {
            capped
        }
    }
}

pub open spec fn growth_inflation_mean_spec(input: crate::structs::RetirementInput) -> int {
    let sg = crate::fixed::clamp_spec(
        input.regime_model.stay_growth as int,
        crate::engine::MIN_TRANSITION_PPM as int,
        crate::engine::MAX_TRANSITION_PPM as int,
    );
    let sc = crate::fixed::clamp_spec(
        input.regime_model.stay_crisis as int,
        crate::engine::MIN_TRANSITION_PPM as int,
        crate::engine::MAX_TRANSITION_PPM as int,
    );
    let pg = crate::engine::stationary_growth_spec(sg, sc);
    let pc = SCALE - pg;
    crate::fixed::clamp_spec(
        input.inflation_mean - (pc * effective_spread_spec(input)) / (SCALE as int),
        -(SHAPED_MEAN_CAP_PPM as int),
        SHAPED_MEAN_CAP_PPM as int,
    )
}

pub open spec fn crisis_inflation_mean_spec(input: crate::structs::RetirementInput) -> int {
    let sg = crate::fixed::clamp_spec(
        input.regime_model.stay_growth as int,
        crate::engine::MIN_TRANSITION_PPM as int,
        crate::engine::MAX_TRANSITION_PPM as int,
    );
    let sc = crate::fixed::clamp_spec(
        input.regime_model.stay_crisis as int,
        crate::engine::MIN_TRANSITION_PPM as int,
        crate::engine::MAX_TRANSITION_PPM as int,
    );
    let pg = crate::engine::stationary_growth_spec(sg, sc);
    crate::fixed::clamp_spec(
        input.inflation_mean + (pg * effective_spread_spec(input)) / (SCALE as int),
        -(SHAPED_MEAN_CAP_PPM as int),
        SHAPED_MEAN_CAP_PPM as int,
    )
}

/// The fee factor applied each month: one minus a twelfth of the
/// clamped annual fee, floored at zero.
pub open spec fn fee_factor_spec(input: crate::structs::RetirementInput) -> int {
    let fee = crate::fixed::clamp_spec(input.annual_fee_percent as int, 0, SCALE as int);
    let fm = fee / 12;
    if SCALE - fm < 0 {
        0
    } else {
        SCALE - fm
    }
}

/// The fixed per-trajectory parameters a run derives from its input.
pub open spec fn driver_params_spec(
    input: crate::structs::RetirementInput,
    months: u32,
    retire_month: u32,
) -> SimParams {
    SimParams {
        months: months,
        use_monthly_calibration: driver_monthly_calibration_spec(input),
        use_historical_bootstrap: input.simulation_mode
            == crate::structs::SimulationMode::Historical,
        block_length: (match input.block_length {
            Option::Some(b) => b as i64,
            Option::None => 6i64,
        }),
        monthly_stay_growth: monthly_stay_growth_spec(input) as i64,
        monthly_stay_crisis: monthly_stay_crisis_spec(input) as i64,
        growth_mean: input.regime_model.growth_mean,
        growth_std: (if input.regime_model.growth_std < 0 {
            0int
        } else {
            input.regime_model.growth_std as int
        }) as i64,
        crisis_mean: input.regime_model.crisis_mean,
        crisis_std: (if input.regime_model.crisis_std < 0 {
            0int
        } else {
            input.regime_model.crisis_std as int
        }) as i64,
        return_skewness: input.return_skewness,
        return_kurtosis: input.return_kurtosis,
        growth_inflation_mean: growth_inflation_mean_spec(input) as i64,
        crisis_inflation_mean: crisis_inflation_mean_spec(input) as i64,
        inflation_variability: (if input.inflation_variability < 0 {
            0int
        } else {
            input.inflation_variability as int
        }) as i64,
        inflation_skewness: input.inflation_skewness,
        inflation_kurtosis: input.inflation_kurtosis,
        tax_ppm: crate::fixed::clamp_spec(
            input.tax_on_gains_percent as int,
            0,
            SCALE as int,
        ) as i64,
        fee_factor_ppm: fee_factor_spec(input) as i64,
        current_savings: input.current_savings,
        retire_month: retire_month,
    }
}

/// Everything the trajectories of one run read, derived from the input,
/// the schedules, the seed and the host's score streams.
pub open spec fn driver_world_spec(
    input: crate::structs::RetirementInput,
    periods: Seq<crate::structs::SpendingPeriod>,
    incomes: Seq<crate::structs::IncomeSource>,
    lumps: Seq<crate::structs::LumpSumEvent>,
    months: u32,
    retire_month: u32,
    s0: u32,
    t_scores: Seq<i64>,
    scores: Seq<i64>,
) -> SimWorld {
    SimWorld {
        params: driver_params_spec(input, months, retire_month),
        flows: Seq::new(
            months as nat,
            |m: int| crate::cashflow::net_flow_spec(input, periods, incomes, m) as i64,
        ),
        lumps: Seq::new(
            months as nat,
            |m: int|
                crate::cashflow::lump_sum_at_spec(
                    lumps,
                    input.current_age as int,
                    m,
                    months as int,
                ) as i64,
        ),
        eff_monthly: effective_monthly_history_spec(input),
        monthly_growth_pool: monthly_growth_pool_spec(input),
        monthly_crisis_pool: monthly_crisis_pool_spec(input),
        annual_growth_pool: annual_growth_pool_spec(input, s0, t_scores),
        annual_crisis_pool: annual_crisis_pool_spec(input, s0, t_scores),
        scores: scores,
    }
}

/// The generator state the first trajectory starts from: the seed,
/// advanced by the 120 draws of a synthesized history when one is built.
pub open spec fn driver_rng_start_spec(input: crate::structs::RetirementInput, s0: u32) -> u32 {
    if uses_user_annual_history(input) {
        s0
    } else {
        crate::rng::m32_iter(s0, 120)
    }
}

/// The trajectories of the first `k` simulations, threading the
/// generator state and the score cursor from one to the next.
pub open spec fn sims_trace_spec(w: SimWorld, rng0: u32, cursor0: int, k: nat) -> Seq<SimTrace>
    decreases k,
{
    if k == 0 {
        Seq::empty()
    } else {
        let prev = sims_trace_spec(w, rng0, cursor0, (k - 1) as nat);
        let rs = if k == 1 {
            rng0
        } else {
            prev.last().rng_state
        };
        let cs = if k == 1 {
            cursor0
        } else {
            prev.last().cursor
        };
        prev.push(sim_trace_spec(w, rs, cs, w.params.months as nat))
    }
}

/// The per-sim outcome projections the reductions run over.
pub open spec fn sims_finals_spec(ts: Seq<SimTrace>) -> Seq<i64> {
    Seq::new(ts.len(), |s: int| ts[s].balance as i64)
}

pub open spec fn sims_retires_spec(ts: Seq<SimTrace>, ri: int) -> Seq<i64> {
    Seq::new(ts.len(), |s: int| ts[s].balances[ri] as i64)
}

pub open spec fn sims_shortfalls_spec(ts: Seq<SimTrace>) -> Seq<i64> {
    Seq::new(ts.len(), |s: int| ts[s].shortfall as i64)
}

pub open spec fn sims_depleted_years_spec(ts: Seq<SimTrace>) -> Seq<i64> {
    Seq::new(ts.len(), |s: int| ((ts[s].depleted_months * SCALE) / 12) as i64)
}

pub open spec fn sims_column_spec(ts: Seq<SimTrace>, m: int) -> Seq<i64> {
    Seq::new(ts.len(), |s: int| ts[s].balances[m] as i64)
}

/// How many of the traced simulations succeeded.
pub open spec fn sims_success_count_spec(ts: Seq<SimTrace>) -> int
    decreases ts.len(),
{
    if ts.len() == 0 {
        0
    } else {
        sims_success_count_spec(ts.drop_last()) + if sim_success_spec(
            ts.last().depleted,
            ts.last().balance,
        ) {
            1int
        } else {
            0int
        }
    }
}

/// How many entries reach at least the threshold.
pub open spec fn count_at_least_spec(s: Seq<i64>, threshold: i64) -> int
    decreases s.len(),
{
    if s.len() == 0 {
        0
    } else {
        count_at_least_spec(s.drop_last(), threshold) + if s.last() >= threshold {
            1int
        } else {
            0int
        }
    }
}

/// The recorded-balance index the retirement statistics read.
pub open spec fn retire_index_spec(months: u32, retire_month: u32) -> int {
    if retire_month <= 1 {
        0int
    } else if retire_month - 1 < months - 1 {
        retire_month - 1
    } else {
        months - 1
    }
}

/// The trajectory percentile bands and ages reported to the host.
pub struct SimulationResult {
    pub months: u32,
    /// Ages in hundredths of a year, one per month.
    pub ages: Vec<i64>,
    pub retire_month: u32,
    pub percentiles: PercentileSeries<Vec<i64>>,
    pub final_percentiles: PercentileSeries<i64>,
    pub retire_percentiles: PercentileSeries<i64>,
}

/// The aggregate statistics of a run. Probabilities are ppm shares of
/// the simulation count; money is in cents.
pub struct SummaryStats {
    pub fi_target: i64,
    pub fi_target_swr: i64,
    pub fi_target_p95: i64,
    pub success_probability: i64,
    pub fi_probability_swr: i64,
    pub fi_probability_p95: i64,
    pub success_count: u32,
    pub return_moments: ReturnMoments,
    pub sequence_risk: Vec<SequenceRiskBucket>,
    pub ruin_surface: RuinSurface,
    pub shortfall_low: i64,
    pub shortfall_median: i64,
    pub shortfall_high: i64,
    pub depleted_years_low: i64,
    pub depleted_years_median: i64,
    pub depleted_years_high: i64,
    pub retire_low: i64,
    pub final_median: i64,
    pub final_low: i64,
    pub final_high: i64,
    pub retire_median: i64,
    pub retire_high: i64,
}

pub struct SimulationResultWrapper {
    pub simulation: SimulationResult,
    pub stats: SummaryStats,
    pub sim_count: u32,
    /// The world the trajectories ran in, for the contracts' eyes.
    pub world: Ghost<SimWorld>,
    /// The full ghost trace of every simulation, in order.
    pub per_sim: Ghost<Seq<SimTrace>>,
}

/// The regime the parametric history walk occupies in year `y`, as a
/// function of the generator's seed state and the clamped stays: the
/// initial draw uses the first word, each later year the next.
pub open spec fn history_regime_spec(s0: u32, sg: int, sc: int, y: nat) -> u8
    decreases y,
{
    if y == 0 {
        crate::engine::initial_regime_spec(
            sg,
            sc,
            crate::rng::m32_output(crate::rng::m32_iter(s0, 1)),
        )
    } else {
        crate::engine::transition_regime_spec(
            history_regime_spec(s0, sg, sc, (y - 1) as nat),
            sg,
            sc,
            crate::rng::m32_output(crate::rng::m32_iter(s0, y + 1)),
        )
    }
}

/// One synthesized annual return: the regime's mean plus its deviation
/// times the shifted Student-t score, clamped onto the annual band.
pub open spec fn history_value_spec(
    regime: u8,
    t: int,
    growth_mean: int,
    growth_std: int,
    crisis_mean: int,
    crisis_std: int,
    skew_shift: int,
) -> int {
    let mean = if regime == 0 {
        growth_mean
    } else {
        crisis_mean
    };
    let std = if regime == 0 {
        growth_std
    } else {
        crisis_std
    };
    crate::fixed::clamp_spec(
        mean + (std * (t + skew_shift)) / (SCALE as int),
        ANNUAL_RETURN_MIN_PPM as int,
        ANNUAL_RETURN_MAX_PPM as int,
    )
}

/// The floored deviations and skew shift the walk uses, from the raw
/// regime model.
pub open spec fn history_growth_std_spec(rm: crate::structs::RegimeModelInput) -> int {
    if rm.growth_std < 10_000 {
        10_000
    } else {
        rm.growth_std as int
    }
}

pub open spec fn history_crisis_std_spec(rm: crate::structs::RegimeModelInput) -> int {
    if rm.crisis_std < history_growth_std_spec(rm) + 10_000 {
        history_growth_std_spec(rm) + 10_000
    } else {
        rm.crisis_std as int
    }
}

pub open spec fn history_skew_shift_spec(return_skewness: int) -> int {
    (crate::fixed::clamp_spec(return_skewness, -2_000_000, 2_000_000) * 120_000) / (SCALE as int)
}

/// Synthesize a parametric return history: a two-state regime walk on
/// the seeded generator, one Student-t score per year from the host
/// (drawn with the degrees `student_t_degrees_from_kurtosis` implies).
pub fn build_bootstrap_history(
    input: &crate::structs::RetirementInput,
    rng: &mut RandomSource,
    years: u32,
    t_scores: &Vec<i64>,
) -> (r: Vec<i64>)
    requires
        input.valid(),
        1 <= years <= 1_000,
        t_scores@.len() >= years,
        forall|i: int|
            0 <= i < t_scores@.len() ==> -Z_SCORE_CAP_PPM <= #[trigger] t_scores@[i]
                <= Z_SCORE_CAP_PPM,
    ensures
        r@.len() == years,
        forall|i: int|
            0 <= i < r@.len() ==> ANNUAL_RETURN_MIN_PPM <= #[trigger] r@[i]
                <= ANNUAL_RETURN_MAX_PPM,
        final(rng).state == crate::rng::m32_iter(old(rng).state, years as nat),
        forall|y: int|
            0 <= y < years ==> #[trigger] r@[y] == history_value_spec(
                history_regime_spec(
                    old(rng).state,
                    crate::fixed::clamp_spec(
                        input.regime_model.stay_growth as int,
                        crate::engine::MIN_TRANSITION_PPM as int,
                        crate::engine::MAX_TRANSITION_PPM as int,
                    ),
                    crate::fixed::clamp_spec(
                        input.regime_model.stay_crisis as int,
                        crate::engine::MIN_TRANSITION_PPM as int,
                        crate::engine::MAX_TRANSITION_PPM as int,
                    ),
                    y as nat,
                ),
                t_scores@[y] as int,
                input.regime_model.growth_mean as int,
                history_growth_std_spec(input.regime_model),
                input.regime_model.crisis_mean as int,
                history_crisis_std_spec(input.regime_model),
                history_skew_shift_spec(input.return_skewness as int),
            ),
{
    let ghost s0 = rng.state;
    let stay_growth = crate::engine::clamp_transition_probability(input.regime_model.stay_growth);
    let stay_crisis = crate::engine::clamp_transition_probability(input.regime_model.stay_crisis);
    let growth_mean = input.regime_model.growth_mean;
    let growth_std: i64 = if input.regime_model.growth_std < 10_000 {
        10_000
    } else {
        input.regime_model.growth_std
    };
    let crisis_mean = input.regime_model.crisis_mean;
    let crisis_floor = growth_std + 10_000;
    let crisis_std: i64 = if input.regime_model.crisis_std < crisis_floor {
        crisis_floor
    } else {
        input.regime_model.crisis_std
    };
    let skew_clamped = crate::fixed::clamp(input.return_skewness, -2_000_000, 2_000_000);
    proof {
        crate::fixed::lemma_div_within(skew_clamped as int * 120_000, SCALE as int, 240_000);
    }
    let skew_shift: i64 = floor_div_i128(
        (skew_clamped as i128) * 120_000,
        SCALE as i128,
    ) as i64;

    let mut series: Vec<i64> = Vec::new();
    let mut state: u8 = initial_regime_state(stay_growth, stay_crisis, rng);
    proof {
        assert(crate::rng::m32_iter(s0, 1) == crate::rng::m32_next(crate::rng::m32_iter(s0, 0)));
        assert(state == history_regime_spec(s0, stay_growth as int, stay_crisis as int, 0));
    }
    let mut year: usize = 0;
    while year < years as usize
        invariant
            year <= years,
            years <= 1_000,
            t_scores@.len() >= years,
            forall|i: int|
                0 <= i < t_scores@.len() ==> -Z_SCORE_CAP_PPM <= #[trigger] t_scores@[i]
                    <= Z_SCORE_CAP_PPM,
            1_000 <= stay_growth <= 999_000,
            1_000 <= stay_crisis <= 999_000,
            -10_000_000 <= growth_mean <= 10_000_000,
            10_000 <= growth_std <= 10_010_000,
            -10_000_000 <= crisis_mean <= 10_000_000,
            10_000 <= crisis_std <= 10_020_000,
            -240_000 <= skew_shift <= 240_000,
            stay_growth as int == crate::fixed::clamp_spec(
                input.regime_model.stay_growth as int,
                crate::engine::MIN_TRANSITION_PPM as int,
                crate::engine::MAX_TRANSITION_PPM as int,
            ),
            stay_crisis as int == crate::fixed::clamp_spec(
                input.regime_model.stay_crisis as int,
                crate::engine::MIN_TRANSITION_PPM as int,
                crate::engine::MAX_TRANSITION_PPM as int,
            ),
            growth_mean == input.regime_model.growth_mean,
            crisis_mean == input.regime_model.crisis_mean,
            growth_std as int == history_growth_std_spec(input.regime_model),
            crisis_std as int == history_crisis_std_spec(input.regime_model),
            skew_shift as int == history_skew_shift_spec(input.return_skewness as int),
            rng.state == crate::rng::m32_iter(s0, if year == 0 { 1nat } else { year as nat }),
            state == history_regime_spec(
                s0,
                stay_growth as int,
                stay_crisis as int,
                if year == 0 { 0nat } else { (year - 1) as nat },
            ),
            series@.len() == year,
            forall|i: int|
                0 <= i < series@.len() ==> ANNUAL_RETURN_MIN_PPM <= #[trigger] series@[i]
                    <= ANNUAL_RETURN_MAX_PPM,
            forall|y: int|
                0 <= y < series@.len() ==> #[trigger] series@[y] == history_value_spec(
                    history_regime_spec(s0, stay_growth as int, stay_crisis as int, y as nat),
                    t_scores@[y] as int,
                    growth_mean as int,
                    growth_std as int,
                    crisis_mean as int,
                    crisis_std as int,
                    skew_shift as int,
                ),
        decreases years - year,
    {
        if year > 0 {
            state = transition_regime_state(state, stay_growth, stay_crisis, rng);
            proof {
                assert(crate::rng::m32_iter(s0, (year + 1) as nat) == crate::rng::m32_next(
                    crate::rng::m32_iter(s0, year as nat),
                ));
                assert(state == history_regime_spec(
                    s0,
                    stay_growth as int,
                    stay_crisis as int,
                    year as nat,
                ));
            }
        }
        let mean = if state == 0 {
            growth_mean
        } else {
            crisis_mean
        };
        let std = if state == 0 {
            growth_std
        } else {
            crisis_std
        };
        let t = t_scores[year];
        let shifted: i64 = t + skew_shift;
        proof {
            assert(std as int * shifted as int <= 2_000_000_000_000_000_000int && std as int
                * shifted as int >= -2_000_000_000_000_000_000int) by (nonlinear_arith)
                requires
                    0 <= std <= 10_020_000,
                    -100_240_000 <= shifted <= 100_240_000;
            crate::fixed::lemma_div_within(
                std as int * shifted as int,
                SCALE as int,
                2_000_000_000_000,
            );
        }
        let scaled: i64 = floor_div_i128((std as i128) * (shifted as i128), SCALE as i128) as i64;
        let annual = clamp_annual_return(mean + scaled);
        series.push(annual);
        year += 1;
    }
    series
}

/// One complete Monte Carlo run: effective histories, regimes, pools,
/// the per-sim trajectories, and every reduction of spec interest.
///
/// Shaped scores are consumed two per simulated month; Student-t scores
/// feed the parametric history when one is synthesized.
#[verifier::rlimit(100)]
pub fn run_monte_carlo_simulation(
    input: &crate::structs::RetirementInput,
    spending_periods: &Vec<crate::structs::SpendingPeriod>,
    income_sources: &Vec<crate::structs::IncomeSource>,
    lump_sum_events: &Vec<crate::structs::LumpSumEvent>,
    months: u32,
    retire_month: u32,
    shape_scores: &Vec<i64>,
    t_scores: &Vec<i64>,
) -> (r: SimulationResultWrapper)
    requires
        input.valid(),
        1 <= months <= crate::cashflow::MONTHS_CAP,
        input.simulations <= 100_000,
        spending_periods@.len() <= crate::structs::SCHEDULE_LEN_CAP,
        forall|i: int|
            0 <= i < spending_periods@.len() ==> (#[trigger] spending_periods@[i]).valid(),
        income_sources@.len() <= crate::structs::SCHEDULE_LEN_CAP,
        forall|i: int| 0 <= i < income_sources@.len() ==> (#[trigger] income_sources@[i]).valid(),
        lump_sum_events@.len() <= crate::structs::SCHEDULE_LEN_CAP,
        forall|i: int|
            0 <= i < lump_sum_events@.len() ==> (#[trigger] lump_sum_events@[i]).valid(),
        t_scores@.len() >= 120,
        forall|i: int|
            0 <= i < t_scores@.len() ==> -Z_SCORE_CAP_PPM <= #[trigger] t_scores@[i]
                <= Z_SCORE_CAP_PPM,
        shape_scores@.len() >= 2 * (months as int) * (if input.simulations <= 400 {
            400int
        } else {
            input.simulations as int
        }),
        forall|i: int|
            0 <= i < shape_scores@.len() ==> -Z_SCORE_CAP_PPM <= #[trigger] shape_scores@[i]
                <= Z_SCORE_CAP_PPM,
    ensures
        r.sim_count == (if input.simulations <= 400 {
            400u32
        } else {
            input.simulations
        }),
        r.simulation.months == months,
        r.simulation.retire_month == retire_month,
        r.simulation.ages@.len() == months,
        forall|m: int|
            0 <= m < months ==> #[trigger] r.simulation.ages@[m]
                == crate::fixed::round_div_spec(
                input.current_age + (m * SCALE) / 12,
                10_000,
            ),
        r.simulation.percentiles.p10@.len() == months,
        r.simulation.percentiles.p25@.len() == months,
        r.simulation.percentiles.p50@.len() == months,
        r.simulation.percentiles.p75@.len() == months,
        r.simulation.percentiles.p90@.len() == months,
        forall|m: int|
            0 <= m < months ==> 0 <= #[trigger] r.simulation.percentiles.p10@[m]
                <= r.simulation.percentiles.p25@[m] <= r.simulation.percentiles.p50@[m]
                <= r.simulation.percentiles.p75@[m] <= r.simulation.percentiles.p90@[m],
        0 <= r.simulation.final_percentiles.p10 <= r.simulation.final_percentiles.p25
            <= r.simulation.final_percentiles.p50 <= r.simulation.final_percentiles.p75
            <= r.simulation.final_percentiles.p90,
        0 <= r.simulation.retire_percentiles.p10 <= r.simulation.retire_percentiles.p25
            <= r.simulation.retire_percentiles.p50 <= r.simulation.retire_percentiles.p75
            <= r.simulation.retire_percentiles.p90,
        r.stats.fi_target == r.stats.fi_target_p95,
        r.stats.fi_target >= 0,
        r.stats.success_count <= r.sim_count,
        r.stats.success_probability == (r.stats.success_count as int) * SCALE / (
        r.sim_count as int),
        0 <= r.stats.success_probability <= SCALE,
        0 <= r.stats.fi_probability_p95 <= SCALE,
        0 <= r.stats.fi_probability_swr <= SCALE,
        r.world@ == driver_world_spec(
            *input,
            spending_periods@,
            income_sources@,
            lump_sum_events@,
            months,
            retire_month,
            run_seed_spec(*input),
            t_scores@,
            shape_scores@,
        ),
        r.per_sim@ == sims_trace_spec(
            r.world@,
            driver_rng_start_spec(*input, run_seed_spec(*input)),
            0,
            r.sim_count as nat,
        ),
        r.per_sim@.len() == r.sim_count,
        r.stats.success_count as int == sims_success_count_spec(r.per_sim@),
        r.stats.fi_target == crate::stats::fi_target_spec(
            sims_retires_spec(r.per_sim@, retire_index_spec(months, retire_month)),
            sims_finals_spec(r.per_sim@),
            950_000,
        ),
        r.stats.fi_probability_p95 == (count_at_least_spec(
            sims_retires_spec(r.per_sim@, retire_index_spec(months, retire_month)),
            r.stats.fi_target_p95,
        ) * SCALE) / (r.sim_count as int),
        r.stats.fi_probability_swr == (count_at_least_spec(
            sims_retires_spec(r.per_sim@, retire_index_spec(months, retire_month)),
            r.stats.fi_target_swr,
        ) * SCALE) / (r.sim_count as int),
        r.stats.fi_target_swr == crate::fixed::clamp_spec(
            (crate::fixed::clamp_spec(
                crate::cashflow::spending_sum_spec(
                    spending_periods@,
                    input.retirement_age as int,
                    SCALE as int,
                ),
                i64::MIN as int,
                i64::MAX as int,
            ) * SCALE) / (if input.safe_withdrawal_rate < 10_000 {
                10_000int
            } else {
                input.safe_withdrawal_rate as int
            }),
            i64::MIN as int,
            i64::MAX as int,
        ),
        forall|m: int|
            0 <= m < months ==> crate::calculations::summary_spec(
                sims_column_spec(r.per_sim@, m),
                (PercentileSeries {
                    p10: #[trigger] r.simulation.percentiles.p10@[m],
                    p25: r.simulation.percentiles.p25@[m],
                    p50: r.simulation.percentiles.p50@[m],
                    p75: r.simulation.percentiles.p75@[m],
                    p90: r.simulation.percentiles.p90@[m],
                }),
            ),
        crate::calculations::summary_spec(
            sims_finals_spec(r.per_sim@),
            r.simulation.final_percentiles,
        ),
        crate::calculations::summary_spec(
            sims_retires_spec(r.per_sim@, retire_index_spec(months, retire_month)),
            r.simulation.retire_percentiles,
        ),
        r.stats.final_low == r.simulation.final_percentiles.p10,
        r.stats.final_median == r.simulation.final_percentiles.p50,
        r.stats.final_high == r.simulation.final_percentiles.p90,
        r.stats.retire_low == r.simulation.retire_percentiles.p10,
        r.stats.retire_median == r.simulation.retire_percentiles.p50,
        r.stats.retire_high == r.simulation.retire_percentiles.p90,
        r.stats.shortfall_low == crate::calculations::percentile_spec(
            crate::calculations::sorted_of(sims_shortfalls_spec(r.per_sim@)),
            100_000,
        ),
        r.stats.shortfall_median == crate::calculations::percentile_spec(
            crate::calculations::sorted_of(sims_shortfalls_spec(r.per_sim@)),
            500_000,
        ),
        r.stats.shortfall_high == crate::calculations::percentile_spec(
            crate::calculations::sorted_of(sims_shortfalls_spec(r.per_sim@)),
            900_000,
        ),
        r.stats.depleted_years_low == crate::calculations::percentile_spec(
            crate::calculations::sorted_of(sims_depleted_years_spec(r.per_sim@)),
            100_000,
        ),
        r.stats.depleted_years_median == crate::calculations::percentile_spec(
            crate::calculations::sorted_of(sims_depleted_years_spec(r.per_sim@)),
            500_000,
        ),
        r.stats.depleted_years_high == crate::calculations::percentile_spec(
            crate::calculations::sorted_of(sims_depleted_years_spec(r.per_sim@)),
            900_000,
        ),
        0 <= r.stats.shortfall_low <= r.stats.shortfall_median <= r.stats.shortfall_high,
        0 <= r.stats.depleted_years_low <= r.stats.depleted_years_median
            <= r.stats.depleted_years_high,
        0 <= r.stats.retire_low <= r.stats.retire_median <= r.stats.retire_high,
        0 <= r.stats.final_low <= r.stats.final_median <= r.stats.final_high,
{
    let seed: u32 = match input.seed {
        Option::Some(sd) => sd,
        Option::None => 0,
    };
    proof {
        assert(seed == run_seed_spec(*input));
    }
    let mut rng = RandomSource::new(seed);
    let use_historical_bootstrap = input.simulation_mode
        == crate::structs::SimulationMode::Historical;

    let target_annual_mean = input.mean_return;
    let target_annual_std: i64 = if input.return_variability < 0 {
        0
    } else {
        input.return_variability
    };
    proof {
        crate::fixed::lemma_div_within(target_annual_mean as int, 12, 833_334);
        crate::fixed::lemma_div_within(
            target_annual_std as int * SCALE as int,
            crate::engine::SQRT12_PPM as int,
            2_886_753,
        );
        vstd::arithmetic::div_mod::lemma_div_is_ordered(
            0,
            target_annual_std as int * SCALE as int,
            crate::engine::SQRT12_PPM as int,
        );
    }
    let target_monthly_mean: i64 = floor_div_i128(target_annual_mean as i128, 12) as i64;
    let target_monthly_std: i64 = floor_div_i128(
        (target_annual_std as i128) * (SCALE as i128),
        crate::engine::SQRT12_PPM as i128,
    ) as i64;

    let arrays = crate::cashflow::build_cashflow_arrays(
        input,
        spending_periods,
        income_sources,
        lump_sum_events,
        months,
    );
    let monthly_net_flow = arrays.monthly_net_flow;
    let lump_sum_by_month = arrays.lump_sum_by_month;

    let stay_growth = crate::engine::clamp_transition_probability(input.regime_model.stay_growth);
    let stay_crisis = crate::engine::clamp_transition_probability(input.regime_model.stay_crisis);

    // the annual history: the user's, or a synthesized parametric one
    let mut bootstrap_history: Vec<i64> = Vec::new();
    let mut have_user_history = false;
    if use_historical_bootstrap {
        match &input.historical_annual_returns {
            Option::Some(hist) => {
                if hist.len() >= 25 {
                    let mut hi: usize = 0;
                    while hi < hist.len()
                        invariant
                            hi <= hist@.len(),
                            hist@.len() <= crate::structs::HISTORY_LEN_CAP,
                            forall|i: int|
                                0 <= i < hist@.len() ==> -crate::structs::HISTORY_VALUE_CAP_PPM
                                    <= #[trigger] hist@[i]
                                    <= crate::structs::HISTORY_VALUE_CAP_PPM,
                            bootstrap_history@.len() == hi,
                            forall|i: int|
                                0 <= i < hi ==> -crate::structs::HISTORY_VALUE_CAP_PPM
                                    <= #[trigger] bootstrap_history@[i]
                                    <= crate::structs::HISTORY_VALUE_CAP_PPM,
                            forall|i: int|
                                0 <= i < hi ==> #[trigger] bootstrap_history@[i] == hist@[i],
                        decreases hist@.len() - hi,
                    {
                        bootstrap_history.push(hist[hi]);
                        hi += 1;
                    }
                    proof {
                        assert(bootstrap_history@ =~= hist@);
                    }
                    have_user_history = true;
                }
            },
            Option::None => {},
        }
    }
    if !have_user_history {
        bootstrap_history = build_bootstrap_history(input, &mut rng, 120, t_scores);
    }
    proof {
        assert(have_user_history == uses_user_annual_history(*input));
        assert(bootstrap_history@ =~= bootstrap_history_source_spec(*input, seed, t_scores@));
        assert(rng.state == driver_rng_start_spec(*input, seed));
    }
    let n_hist = bootstrap_history.len();
    let hist_stats = crate::calculations::stats_of_range(&bootstrap_history, 0, n_hist);
    let annual_history_mean = hist_stats.0;
    let annual_history_std = hist_stats.1;
    proof {
        assert(bootstrap_history@.subrange(0, n_hist as int) =~= bootstrap_history@);
    }

    let moment_targeting = match input.historical_moment_targeting {
        Option::Some(b) => b,
        Option::None => false,
    };

    let mut effective_annual_history: Vec<i64> = Vec::new();
    if use_historical_bootstrap {
        let mut i: usize = 0;
        while i < bootstrap_history.len()
            invariant
                i <= bootstrap_history@.len(),
                bootstrap_history@.len() <= crate::structs::HISTORY_LEN_CAP,
                forall|k: int|
                    0 <= k < bootstrap_history@.len() ==> -400_000_000
                        <= #[trigger] bootstrap_history@[k] <= 400_000_000,
                -400_000_000 <= annual_history_mean <= 400_000_000,
                0 <= annual_history_std <= 100_000_000_000,
                -10_000_000 <= target_annual_mean <= 10_000_000,
                0 <= target_annual_std <= 10_000_000,
                annual_history_mean as int == crate::calculations::mean_of(bootstrap_history@),
                annual_history_std as int == crate::calculations::std_of(bootstrap_history@),
                target_annual_mean == input.mean_return,
                target_annual_std as int == target_annual_std_spec(*input),
                moment_targeting == moment_targeting_on(*input),
                effective_annual_history@.len() == i,
                forall|k: int|
                    0 <= k < i ==> ANNUAL_RETURN_MIN_PPM <= #[trigger] effective_annual_history@[k]
                        <= ANNUAL_RETURN_MAX_PPM,
                forall|k: int|
                    0 <= k < i ==> #[trigger] effective_annual_history@[k] as int
                        == crate::fixed::clamp_spec(
                        if moment_targeting_on(*input) {
                            crate::fixed::clamp_spec(
                                crate::targeting::moment_target_spec(
                                    bootstrap_history@[k] as int,
                                    crate::calculations::mean_of(bootstrap_history@),
                                    crate::calculations::std_of(bootstrap_history@),
                                    input.mean_return as int,
                                    target_annual_std_spec(*input),
                                ),
                                i64::MIN as int,
                                i64::MAX as int,
                            )
                        } else {
                            bootstrap_history@[k] as int
                        },
                        ANNUAL_RETURN_MIN_PPM as int,
                        ANNUAL_RETURN_MAX_PPM as int,
                    ),
            decreases bootstrap_history@.len() - i,
        {
            let v = bootstrap_history[i];
            let remapped: i64 = if moment_targeting {
                crate::targeting::apply_moment_targeting(
                    v,
                    annual_history_mean,
                    annual_history_std,
                    target_annual_mean,
                    target_annual_std,
                )
            } else {
                v
            };
            effective_annual_history.push(clamp_annual_return(remapped));
            i += 1;
        }
    } else {
        effective_annual_history = bootstrap_history;
    }
    proof {
        assert(effective_annual_history@ =~= effective_annual_history_spec(
            *input,
            seed,
            t_scores@,
        ));
    }

    // the monthly history, clamped and optionally remapped
    let mut monthly_history: Vec<i64> = Vec::new();
    if use_historical_bootstrap {
        match &input.historical_monthly_returns {
            Option::Some(hist) => {
                let mut i: usize = 0;
                while i < hist.len()
                    invariant
                        i <= hist@.len(),
                        hist@.len() <= crate::structs::HISTORY_LEN_CAP,
                        monthly_history@.len() == i,
                        forall|k: int|
                            0 <= k < i ==> -MONTHLY_RETURN_MAX_PPM
                                <= #[trigger] monthly_history@[k] <= MONTHLY_RETURN_MAX_PPM,
                        forall|k: int|
                            0 <= k < i ==> #[trigger] monthly_history@[k] as int
                                == crate::fixed::clamp_spec(
                                hist@[k] as int,
                                MONTHLY_RETURN_MIN_PPM as int,
                                MONTHLY_RETURN_MAX_PPM as int,
                            ),
                    decreases hist@.len() - i,
                {
                    monthly_history.push(crate::engine::clamp_monthly_return(hist[i]));
                    i += 1;
                }
            },
            Option::None => {},
        }
    }
    proof {
        assert(monthly_history@ =~= clamped_monthly_history_spec(*input));
    }
    let n_monthly = monthly_history.len();
    let monthly_stats: (i64, i64) = if n_monthly >= 1 {
        let st = crate::calculations::stats_of_range(&monthly_history, 0, n_monthly);
        proof {
            assert(monthly_history@.subrange(0, n_monthly as int) =~= monthly_history@);
        }
        st
    } else {
        proof {
            crate::fixed::lemma_sqrt_floor_is(0, 0);
        }
        (0, 0)
    };
    proof {
        assert(monthly_stats.0 as int == crate::calculations::mean_of(monthly_history@));
        assert(monthly_stats.1 as int == crate::calculations::std_of(monthly_history@));
    }
    let mut effective_monthly_history: Vec<i64> = Vec::new();
    if use_historical_bootstrap && moment_targeting {
        let mut i: usize = 0;
        while i < monthly_history.len()
            invariant
                i <= monthly_history@.len(),
                monthly_history@.len() <= crate::structs::HISTORY_LEN_CAP,
                forall|k: int|
                    0 <= k < monthly_history@.len() ==> -MONTHLY_RETURN_MAX_PPM
                        <= #[trigger] monthly_history@[k] <= MONTHLY_RETURN_MAX_PPM,
                -400_000_000 <= monthly_stats.0 <= 400_000_000,
                0 <= monthly_stats.1 <= 100_000_000_000,
                -833_334 <= target_monthly_mean <= 833_334,
                0 <= target_monthly_std <= 2_886_753,
                monthly_stats.0 as int == crate::calculations::mean_of(monthly_history@),
                monthly_stats.1 as int == crate::calculations::std_of(monthly_history@),
                target_monthly_mean as int == (input.mean_return as int) / 12,
                target_monthly_std as int == (target_annual_std_spec(*input) * SCALE) / (
                crate::engine::SQRT12_PPM as int),
                effective_monthly_history@.len() == i,
                forall|k: int|
                    0 <= k < i ==> -MONTHLY_RETURN_MAX_PPM
                        <= #[trigger] effective_monthly_history@[k] <= MONTHLY_RETURN_MAX_PPM,
                forall|k: int|
                    0 <= k < i ==> #[trigger] effective_monthly_history@[k] as int
                        == crate::fixed::clamp_spec(
                        crate::fixed::clamp_spec(
                            crate::targeting::moment_target_spec(
                                monthly_history@[k] as int,
                                crate::calculations::mean_of(monthly_history@),
                                crate::calculations::std_of(monthly_history@),
                                (input.mean_return as int) / 12,
                                (target_annual_std_spec(*input) * SCALE) / (
                                crate::engine::SQRT12_PPM as int),
                            ),
                            i64::MIN as int,
                            i64::MAX as int,
                        ),
                        MONTHLY_RETURN_MIN_PPM as int,
                        MONTHLY_RETURN_MAX_PPM as int,
                    ),
            decreases monthly_history@.len() - i,
        {
            let remapped = crate::targeting::apply_moment_targeting(
                monthly_history[i],
                monthly_stats.0,
                monthly_stats.1,
                target_monthly_mean,
                target_monthly_std,
            );
            effective_monthly_history.push(crate::engine::clamp_monthly_return(remapped));
            i += 1;
        }
    } else {
        effective_monthly_history = monthly_history;
    }
    proof {
        assert(effective_monthly_history@ =~= effective_monthly_history_spec(*input));
    }

    let use_monthly_calibration = effective_monthly_history.len() >= 120;
    proof {
        assert(use_monthly_calibration == driver_monthly_calibration_spec(*input));
    }

    // regimes and pools
    let annual_labels = crate::regimes::detect_regimes(&effective_annual_history);
    let annual_pools = crate::pools::bootstrap_pool_by_regime(
        &effective_annual_history,
        &annual_labels,
    );
    proof {
        crate::pools::lemma_partition_values_bounds(
            effective_annual_history@,
            annual_labels@,
            ANNUAL_RETURN_MIN_PPM as int,
            ANNUAL_RETURN_MAX_PPM as int,
        );
        crate::calculations::lemma_sorted_of_ensures(effective_annual_history@);
        crate::stats::lemma_seq_bounds_from_multiset(
            effective_annual_history@,
            crate::calculations::sorted_of(effective_annual_history@),
            ANNUAL_RETURN_MIN_PPM as int,
            ANNUAL_RETURN_MAX_PPM as int,
        );
    }

    let monthly_labels: Vec<u8> = if use_monthly_calibration {
        crate::regimes::detect_regimes_monthly(&effective_monthly_history)
    } else {
        Vec::new()
    };
    let monthly_pools: RegimePools<usize> = if use_monthly_calibration {
        crate::pools::bootstrap_indices_by_regime_monthly(
            &effective_monthly_history,
            &monthly_labels,
        )
    } else {
        RegimePools { growth: Vec::new(), crisis: Vec::new() }
    };
    proof {
        // both pools hold at least one index: a partition side that came
        // up empty fell back to a non-empty default
        if use_monthly_calibration {
            let labels = monthly_labels@;
            let n = labels.len() as int;
            assert(n >= 120);
            if crate::pools::growth_indices_spec(labels).len() == 0 {
                assert(monthly_pools.growth@.len() == n);
            }
            if crate::pools::crisis_indices_spec(labels).len() == 0 {
                let pairs = Seq::new(
                    effective_monthly_history@.len(),
                    |i: int| (effective_monthly_history@[i], i as usize),
                );
                assert(vstd::relations::total_ordering(crate::pools::pair_le()));
                pairs.lemma_sort_by_ensures(crate::pools::pair_le());
                vstd::seq_lib::to_multiset_len(pairs);
                vstd::seq_lib::to_multiset_len(pairs.sort_by(crate::pools::pair_le()));
                assert(crate::pools::indices_by_value_spec(effective_monthly_history@).len()
                    == n);
                assert(crate::pools::crisis_index_fallback_count(n) >= 1);
                assert(monthly_pools.crisis@.len() == crate::pools::crisis_index_fallback_count(
                    n,
                ));
            }
        }
        if !use_monthly_calibration {
            let values = effective_annual_history@;
            let labels = annual_labels@;
            assert(values.len() >= 1);
            if crate::pools::growth_values_spec(values, labels).len() == 0 {
                assert(annual_pools.growth@.len() == values.len());
            }
            if crate::pools::crisis_values_spec(values, labels).len() == 0 {
                vstd::arithmetic::div_mod::lemma_div_is_ordered(
                    0,
                    values.len() as int * 35,
                    100,
                );
                assert(crate::pools::crisis_fallback_count(values.len() as int) >= 1);
                assert(annual_pools.crisis@.len() == crate::pools::crisis_fallback_count(
                    values.len() as int,
                ));
            }
        }
    }

    let monthly_markov: (i64, i64) = if use_monthly_calibration {
        crate::pools::estimate_markov_stay_probabilities(&monthly_labels)
    } else {
        let g = crate::engine::clamp_transition_probability(
            crate::engine::root12_factor(stay_growth),
        );
        let c = crate::engine::clamp_transition_probability(
            crate::engine::root12_factor(stay_crisis),
        );
        (g, c)
    };

    // return moments over the series actually calibrated against
    let return_moments: ReturnMoments = if use_monthly_calibration {
        let converted = crate::targeting::monthly_returns_to_annual_series(
            &effective_monthly_history,
        );
        proof {
            crate::targeting::lemma_annual_series_bounds(effective_monthly_history@);
            vstd::arithmetic::div_mod::lemma_div_is_ordered(
                0,
                effective_monthly_history@.len() as int,
                12,
            );
            vstd::arithmetic::div_mod::lemma_div_is_ordered_by_denominator(
                effective_monthly_history@.len() as int,
                1,
                12,
            );
            vstd::arithmetic::div_mod::lemma_div_multiples_vanish(
                effective_monthly_history@.len() as int,
                1,
            );
            assert(1 * (effective_monthly_history@.len() as int)
                == effective_monthly_history@.len() as int);
        }
        crate::moments::summarize_return_moments(&converted)
    } else {
        crate::moments::summarize_return_moments(&effective_annual_history)
    };

    let sim_count: usize = if input.simulations <= 400 {
        400
    } else {
        input.simulations as usize
    };

    // inflation regime split
    let growth_prob = crate::engine::get_growth_stationary_probability(stay_growth, stay_crisis);
    let crisis_prob: i64 = SCALE - growth_prob;
    let requested_spread: i64 = match input.inflation_crisis_spread {
        Option::Some(sp) => sp,
        Option::None => 15_000,
    };
    let ivar: i64 = if input.inflation_variability < 0 {
        0
    } else {
        input.inflation_variability
    };
    proof {
        assert(0 <= growth_prob as int * crisis_prob as int
            <= 1_000_000_000_000int) by (nonlinear_arith)
            requires
                0 <= growth_prob <= 1_000_000,
                0 <= crisis_prob <= 1_000_000;
    }
    let pgc: i128 = (growth_prob as i128) * (crisis_prob as i128);
    let effective_spread: i64 = if pgc <= 0 {
        requested_spread
    } else {
        proof {
            assert(0 <= ivar as int * ivar as int * SCALE as int * SCALE as int
                <= 100_000_000_000_000_000_000_000_000int) by (nonlinear_arith)
                requires
                    0 <= ivar <= 10_000_000,
                    SCALE == 1_000_000;
            vstd::arithmetic::div_mod::lemma_div_is_ordered(
                0,
                ivar as int * ivar as int * SCALE as int * SCALE as int,
                pgc as int,
            );
            vstd::arithmetic::div_mod::lemma_div_is_ordered_by_denominator(
                ivar as int * ivar as int * SCALE as int * SCALE as int,
                1,
                pgc as int,
            );
            vstd::arithmetic::div_mod::lemma_div_multiples_vanish(
                ivar as int * ivar as int * SCALE as int * SCALE as int,
                1,
            );
            assert(1 * (ivar as int * ivar as int * SCALE as int * SCALE as int)
                == ivar as int * ivar as int * SCALE as int * SCALE as int);
        }
        let t: i128 = floor_div_i128(
            (ivar as i128) * (ivar as i128) * (SCALE as i128) * (SCALE as i128),
            pgc,
        );
        let max_spread: u64 = crate::fixed::isqrt_u128(t as u128);
        proof {
            crate::fixed::lemma_sqrt_floor_is(t as int, max_spread as int);
        }
        let scaled: u128 = (max_spread as u128) * 8 / 10;
        let capped: i64 = if scaled > 1_000_000_000 {
            1_000_000_000
        } else {
            scaled as i64
        };
        if requested_spread < capped {
            requested_spread
        } else {
            capped
        }
    };
    proof {
        assert(crisis_prob as int * effective_spread as int
            <= 1_000_000_000int * 1_000_000int && crisis_prob as int * effective_spread as int
            >= -(1_000_000_000int * 1_000_000int) && growth_prob as int
            * effective_spread as int <= 1_000_000_000int * 1_000_000int && growth_prob as int
            * effective_spread as int >= -(1_000_000_000int * 1_000_000int))
            by (nonlinear_arith)
            requires
                0 <= crisis_prob <= 1_000_000,
                0 <= growth_prob <= 1_000_000,
                0 <= effective_spread <= 1_000_000_000;
        crate::fixed::lemma_div_within(
            crisis_prob as int * effective_spread as int,
            SCALE as int,
            1_000_000_000,
        );
        crate::fixed::lemma_div_within(
            growth_prob as int * effective_spread as int,
            SCALE as int,
            1_000_000_000,
        );
    }
    let gim_shift: i64 = floor_div_i128(
        (crisis_prob as i128) * (effective_spread as i128),
        SCALE as i128,
    ) as i64;
    let cim_shift: i64 = floor_div_i128(
        (growth_prob as i128) * (effective_spread as i128),
        SCALE as i128,
    ) as i64;
    let growth_inflation_mean_raw: i64 = input.inflation_mean - gim_shift;
    let crisis_inflation_mean_raw: i64 = input.inflation_mean + cim_shift;
    let growth_inflation_mean = crate::fixed::clamp(
        growth_inflation_mean_raw,
        -SHAPED_MEAN_CAP_PPM,
        SHAPED_MEAN_CAP_PPM,
    );
    let crisis_inflation_mean = crate::fixed::clamp(
        crisis_inflation_mean_raw,
        -SHAPED_MEAN_CAP_PPM,
        SHAPED_MEAN_CAP_PPM,
    );

    let block_length: i64 = match input.block_length {
        Option::Some(b) => b as i64,
        Option::None => 6,
    };
    let tax_ppm = crate::fixed::clamp(input.tax_on_gains_percent, 0, SCALE);
    let fee_rate = crate::fixed::clamp(input.annual_fee_percent, 0, SCALE);
    let fee_monthly: i64 = fee_rate / 12;
    let fee_factor_ppm: i64 = if SCALE - fee_monthly < 0 {
        0
    } else {
        SCALE - fee_monthly
    };

    let params = SimParams {
        months,
        use_monthly_calibration,
        use_historical_bootstrap,
        block_length,
        monthly_stay_growth: monthly_markov.0,
        monthly_stay_crisis: monthly_markov.1,
        growth_mean: input.regime_model.growth_mean,
        growth_std: if input.regime_model.growth_std < 0 {
            0
        } else {
            input.regime_model.growth_std
        },
        crisis_mean: input.regime_model.crisis_mean,
        crisis_std: if input.regime_model.crisis_std < 0 {
            0
        } else {
            input.regime_model.crisis_std
        },
        return_skewness: input.return_skewness,
        return_kurtosis: input.return_kurtosis,
        growth_inflation_mean,
        crisis_inflation_mean,
        inflation_variability: ivar,
        inflation_skewness: input.inflation_skewness,
        inflation_kurtosis: input.inflation_kurtosis,
        tax_ppm,
        fee_factor_ppm,
        current_savings: input.current_savings,
        retire_month,
    };
    let ghost gw = driver_world_spec(
        *input,
        spending_periods@,
        income_sources@,
        lump_sum_events@,
        months,
        retire_month,
        seed,
        t_scores@,
        shape_scores@,
    );
    proof {
        assert(annual_labels@ == annual_labels_spec(*input, seed, t_scores@));
        assert(annual_pools.growth@ == annual_growth_pool_spec(*input, seed, t_scores@));
        assert(annual_pools.crisis@ == annual_crisis_pool_spec(*input, seed, t_scores@));
        if use_monthly_calibration {
            assert(monthly_labels@ == monthly_labels_spec(*input));
            assert(monthly_pools.growth@ == monthly_growth_pool_spec(*input));
            assert(monthly_pools.crisis@ == monthly_crisis_pool_spec(*input));
            assert(monthly_markov.0 as int == monthly_stay_growth_spec(*input));
            assert(monthly_markov.1 as int == monthly_stay_crisis_spec(*input));
        } else {
            assert(monthly_pools.growth@ =~= monthly_growth_pool_spec(*input));
            assert(monthly_pools.crisis@ =~= monthly_crisis_pool_spec(*input));
            assert(monthly_markov.0 as int == monthly_stay_growth_spec(*input));
            assert(monthly_markov.1 as int == monthly_stay_crisis_spec(*input));
        }
        assert(effective_spread as int == effective_spread_spec(*input));
        assert(growth_inflation_mean as int == growth_inflation_mean_spec(*input));
        assert(crisis_inflation_mean as int == crisis_inflation_mean_spec(*input));
        assert(fee_factor_ppm as int == fee_factor_spec(*input));
        assert(params == driver_params_spec(*input, months, retire_month));
        assert(monthly_net_flow@ =~= gw.flows);
        assert(lump_sum_by_month@ =~= gw.lumps);
        assert(gw == (SimWorld {
            params: params,
            flows: monthly_net_flow@,
            lumps: lump_sum_by_month@,
            eff_monthly: effective_monthly_history@,
            monthly_growth_pool: monthly_pools.growth@,
            monthly_crisis_pool: monthly_pools.crisis@,
            annual_growth_pool: annual_pools.growth@,
            annual_crisis_pool: annual_pools.crisis@,
            scores: shape_scores@,
        }));
    }
    let ghost rng_start = rng.state;
    let ghost mut traces: Seq<SimTrace> = Seq::empty();
    proof {
        assert(rng_start == driver_rng_start_spec(*input, seed));
    }

    // the simulations
    let mut all_balances: Vec<Vec<i64>> = Vec::new();
    let mut growth_factors: Vec<Vec<i64>> = Vec::new();
    let mut final_balances: Vec<i64> = Vec::new();
    let mut retire_balances: Vec<i64> = Vec::new();
    let mut shortfall_totals: Vec<i64> = Vec::new();
    let mut depleted_years_series: Vec<i64> = Vec::new();
    let mut depleted_flags: Vec<bool> = Vec::new();
    let mut annual_real_returns_by_sim: Vec<Vec<i64>> = Vec::new();
    let mut success_count: u32 = 0;
    let mut cursor: usize = 0;
    let mut sim: usize = 0;
    while sim < sim_count
        invariant
            sim <= sim_count,
            400 <= sim_count <= 100_000,
            1 <= months <= crate::cashflow::MONTHS_CAP,
            params.valid(),
            params.months == months,
            params.retire_month == retire_month,
            monthly_net_flow@.len() == months,
            lump_sum_by_month@.len() == months,
            params.use_monthly_calibration ==> effective_monthly_history@.len() >= 1
                && monthly_pools.growth@.len() >= 1 && monthly_pools.crisis@.len() >= 1 && (
            forall|i: int|
                0 <= i < monthly_pools.growth@.len() ==> (#[trigger] monthly_pools.growth@[i])
                    < effective_monthly_history@.len()) && (forall|i: int|
                0 <= i < monthly_pools.crisis@.len() ==> (#[trigger] monthly_pools.crisis@[i])
                    < effective_monthly_history@.len()) && (forall|i: int|
                0 <= i < effective_monthly_history@.len() ==> -MONTHLY_RETURN_MAX_PPM
                    <= #[trigger] effective_monthly_history@[i] <= MONTHLY_RETURN_MAX_PPM),
            !params.use_monthly_calibration ==> annual_pools.growth@.len() >= 1
                && annual_pools.crisis@.len() >= 1 && (forall|i: int|
                0 <= i < annual_pools.growth@.len() ==> ANNUAL_RETURN_MIN_PPM
                    <= #[trigger] annual_pools.growth@[i] <= ANNUAL_RETURN_MAX_PPM) && (
            forall|i: int|
                0 <= i < annual_pools.crisis@.len() ==> ANNUAL_RETURN_MIN_PPM
                    <= #[trigger] annual_pools.crisis@[i] <= ANNUAL_RETURN_MAX_PPM),
            forall|i: int|
                0 <= i < shape_scores@.len() ==> -Z_SCORE_CAP_PPM <= #[trigger] shape_scores@[i]
                    <= Z_SCORE_CAP_PPM,
            shape_scores@.len() >= 2 * (months as int) * (sim_count as int),
            cursor <= 2 * (months as int) * (sim as int),
            all_balances@.len() == sim,
            growth_factors@.len() == sim,
            final_balances@.len() == sim,
            retire_balances@.len() == sim,
            shortfall_totals@.len() == sim,
            depleted_years_series@.len() == sim,
            depleted_flags@.len() == sim,
            annual_real_returns_by_sim@.len() == sim,
            success_count <= sim,
            forall|s: int|
                0 <= s < sim ==> (#[trigger] all_balances@[s])@.len() == months,
            forall|s: int, m: int|
                0 <= s < sim && 0 <= m < months ==> 0 <= #[trigger] all_balances@[s]@[m],
            forall|s: int|
                0 <= s < sim ==> (#[trigger] growth_factors@[s])@.len() == months,
            forall|s: int, m: int|
                0 <= s < sim && 0 <= m < months ==> -GROWTH_FACTOR_CAP_PPM
                    <= #[trigger] growth_factors@[s]@[m] <= GROWTH_FACTOR_CAP_PPM,
            forall|s: int| 0 <= s < sim ==> #[trigger] final_balances@[s] >= 0,
            forall|s: int| 0 <= s < sim ==> #[trigger] retire_balances@[s] >= 0,
            forall|s: int| 0 <= s < sim ==> #[trigger] shortfall_totals@[s] >= 0,
            forall|s: int| 0 <= s < sim ==> #[trigger] depleted_years_series@[s] >= 0,
            forall|s: int, k: int|
                0 <= s < sim && 0 <= k < (#[trigger] annual_real_returns_by_sim@[s])@.len()
                    ==> -ANNUAL_REAL_CAP_PPM <= #[trigger] annual_real_returns_by_sim@[s]@[k]
                    <= ANNUAL_REAL_CAP_PPM,
            gw == (SimWorld {
                params: params,
                flows: monthly_net_flow@,
                lumps: lump_sum_by_month@,
                eff_monthly: effective_monthly_history@,
                monthly_growth_pool: monthly_pools.growth@,
                monthly_crisis_pool: monthly_pools.crisis@,
                annual_growth_pool: annual_pools.growth@,
                annual_crisis_pool: annual_pools.crisis@,
                scores: shape_scores@,
            }),
            traces == sims_trace_spec(gw, rng_start, 0, sim as nat),
            traces.len() == sim,
            rng.state == (if sim == 0 {
                rng_start
            } else {
                traces.last().rng_state
            }),
            cursor as int == (if sim == 0 {
                0int
            } else {
                traces.last().cursor
            }),
            success_count as int == sims_success_count_spec(traces),
            forall|s: int|
                0 <= s < sim ==> #[trigger] final_balances@[s] as int == traces[s].balance,
            forall|s: int|
                0 <= s < sim ==> #[trigger] retire_balances@[s] as int
                    == traces[s].balances[retire_index_spec(months, retire_month)],
            forall|s: int|
                0 <= s < sim ==> #[trigger] shortfall_totals@[s] as int == traces[s].shortfall,
            forall|s: int|
                0 <= s < sim ==> #[trigger] depleted_years_series@[s] as int == (
                traces[s].depleted_months * SCALE) / 12,
            forall|s: int| 0 <= s < sim ==> #[trigger] depleted_flags@[s] == traces[s].depleted,
            forall|s: int|
                0 <= s < sim ==> (#[trigger] all_balances@[s])@.map_values(|v: i64| v as int)
                    == traces[s].balances,
        decreases sim_count - sim,
    {
        proof {
            assert(2 * (months as int) * (sim as int) + 2 * (months as int) == 2 * (
            months as int) * (sim as int + 1) && 2 * (months as int) * (sim as int + 1) <= 2 * (
            months as int) * (sim_count as int)) by (nonlinear_arith)
                requires
                    0 <= months,
                    0 <= sim,
                    sim + 1 <= sim_count;
        }
        let ghost rng_before = rng.state;
        let ghost cursor_before = cursor as int;
        let outcome = run_single_simulation(
            &params,
            &monthly_net_flow,
            &lump_sum_by_month,
            &effective_monthly_history,
            &monthly_pools,
            &annual_pools,
            &mut rng,
            shape_scores,
            &mut cursor,
        );
        if !outcome.depleted && outcome.final_balance > 0 {
            success_count += 1;
        }
        proof {
            assert(outcome.retire_balance >= 0) by {
                assert(outcome.balances@.len() == months);
            }
            assert(0 <= (outcome.depleted_months as int) * (SCALE as int)
                <= 24_000_000_000_000int) by (nonlinear_arith)
                requires
                    0 <= outcome.depleted_months <= 12_000,
                    SCALE == 1_000_000;
            crate::fixed::lemma_div_within(
                (outcome.depleted_months as int) * (SCALE as int),
                12,
                2_000_000_000_000,
            );
            vstd::arithmetic::div_mod::lemma_div_is_ordered(
                0,
                (outcome.depleted_months as int) * (SCALE as int),
                12,
            );
        }
        let depleted_years: i64 = floor_div_i128(
            (outcome.depleted_months as i128) * (SCALE as i128),
            12,
        ) as i64;
        final_balances.push(outcome.final_balance);
        retire_balances.push(outcome.retire_balance);
        shortfall_totals.push(outcome.shortfall);
        depleted_years_series.push(depleted_years);
        depleted_flags.push(outcome.depleted);
        annual_real_returns_by_sim.push(outcome.annual_real_returns);
        all_balances.push(outcome.balances);
        growth_factors.push(outcome.growth);
        proof {
            let t = sim_trace_spec(gw, rng_before, cursor_before, params.months as nat);
            let ghost prev = traces;
            traces = traces.push(t);
            assert(traces.drop_last() =~= prev);
            assert(traces == sims_trace_spec(gw, rng_start, 0, (sim + 1) as nat));
            assert(outcome.retire_balance as int == t.balances[retire_index_spec(
                months,
                retire_month,
            )]);
            assert(sims_success_count_spec(traces) == sims_success_count_spec(prev)
                + if sim_success_spec(t.depleted, t.balance) {
                1int
            } else {
                0int
            });
        }
        sim += 1;
    }

    // financial-independence targets
    let target_fi_p95 = crate::stats::find_retirement_balance_target(
        &retire_balances,
        &final_balances,
        950_000,
    );
    let spending_at_retirement = crate::cashflow::spending_at_age(
        input.retirement_age,
        spending_periods,
        SCALE,
    );
    let swr_divisor: i64 = if input.safe_withdrawal_rate < 10_000 {
        10_000
    } else {
        input.safe_withdrawal_rate
    };
    let target_fi_swr: i64 = sat_to_i64(
        floor_div_i128((spending_at_retirement as i128) * (SCALE as i128), swr_divisor as i128),
    );

    let mut fi_count_p95: u32 = 0;
    let mut fi_count_swr: u32 = 0;
    let mut fc: usize = 0;
    proof {
        assert(retire_balances@.subrange(0, 0) =~= Seq::<i64>::empty());
    }
    while fc < retire_balances.len()
        invariant
            fc <= retire_balances@.len(),
            retire_balances@.len() <= 100_000,
            fi_count_p95 <= fc,
            fi_count_swr <= fc,
            fi_count_p95 as int == count_at_least_spec(
                retire_balances@.subrange(0, fc as int),
                target_fi_p95,
            ),
            fi_count_swr as int == count_at_least_spec(
                retire_balances@.subrange(0, fc as int),
                target_fi_swr,
            ),
        decreases retire_balances@.len() - fc,
    {
        if retire_balances[fc] >= target_fi_p95 {
            fi_count_p95 += 1;
        }
        if retire_balances[fc] >= target_fi_swr {
            fi_count_swr += 1;
        }
        proof {
            assert(retire_balances@.subrange(0, fc as int + 1).drop_last() =~= retire_balances@
                .subrange(0, fc as int));
            assert(retire_balances@.subrange(0, fc as int + 1).last()
                == retire_balances@[fc as int]);
        }
        fc += 1;
    }
    proof {
        assert(retire_balances@.subrange(0, retire_balances@.len() as int)
            =~= retire_balances@);
    }

    // column-wise percentile bands over time
    let mut pt10: Vec<i64> = Vec::new();
    let mut pt25: Vec<i64> = Vec::new();
    let mut pt50: Vec<i64> = Vec::new();
    let mut pt75: Vec<i64> = Vec::new();
    let mut pt90: Vec<i64> = Vec::new();
    let mut m: usize = 0;
    while m < months as usize
        invariant
            m <= months,
            sim_count == all_balances@.len(),
            traces.len() == sim_count,
            forall|s: int|
                0 <= s < all_balances@.len() ==> (#[trigger] all_balances@[s])@.len() == months,
            forall|s: int, mm: int|
                0 <= s < all_balances@.len() && 0 <= mm < months ==> 0
                    <= #[trigger] all_balances@[s]@[mm],
            forall|s: int|
                0 <= s < sim_count ==> (#[trigger] all_balances@[s])@.map_values(
                    |v: i64| v as int,
                ) == traces[s].balances,
            pt10@.len() == m,
            pt25@.len() == m,
            pt50@.len() == m,
            pt75@.len() == m,
            pt90@.len() == m,
            forall|k: int|
                0 <= k < m ==> 0 <= #[trigger] pt10@[k] <= pt25@[k] <= pt50@[k] <= pt75@[k]
                    <= pt90@[k],
            forall|k: int|
                0 <= k < m ==> crate::calculations::summary_spec(
                    sims_column_spec(traces, k),
                    (PercentileSeries {
                        p10: #[trigger] pt10@[k],
                        p25: pt25@[k],
                        p50: pt50@[k],
                        p75: pt75@[k],
                        p90: pt90@[k],
                    }),
                ),
        decreases months - m,
    {
        let mut column: Vec<i64> = Vec::new();
        let mut s: usize = 0;
        while s < all_balances.len()
            invariant
                s <= all_balances@.len(),
                m < months,
                forall|ss: int|
                    0 <= ss < all_balances@.len() ==> (#[trigger] all_balances@[ss])@.len()
                        == months,
                forall|ss: int, mm: int|
                    0 <= ss < all_balances@.len() && 0 <= mm < months ==> 0
                        <= #[trigger] all_balances@[ss]@[mm],
                column@.len() == s,
                forall|k: int| 0 <= k < s ==> #[trigger] column@[k] >= 0,
                forall|k: int| 0 <= k < s ==> #[trigger] column@[k] == all_balances@[k]@[m as int],
            decreases all_balances@.len() - s,
        {
            let row = &all_balances[s];
            column.push(row[m]);
            s += 1;
        }
        let bands = crate::calculations::summarize(&column);
        proof {
            crate::calculations::lemma_percentile_band_nonneg(column@, 100_000);
            assert forall|k: int| 0 <= k < sim_count implies #[trigger] column@[k]
                == sims_column_spec(traces, m as int)[k] by {
                assert(all_balances@[k]@.map_values(|v: i64| v as int)[m as int]
                    == all_balances@[k]@[m as int] as int);
            }
            assert(column@ =~= sims_column_spec(traces, m as int));
        }
        pt10.push(bands.p10);
        pt25.push(bands.p25);
        pt50.push(bands.p50);
        pt75.push(bands.p75);
        pt90.push(bands.p90);
        m += 1;
    }

    // ages in hundredths of a year
    let mut ages: Vec<i64> = Vec::new();
    let mut am: usize = 0;
    while am < months as usize
        invariant
            am <= months,
            months <= crate::cashflow::MONTHS_CAP,
            input.valid(),
            ages@.len() == am,
            forall|k: int|
                0 <= k < am ==> #[trigger] ages@[k] == crate::fixed::round_div_spec(
                    input.current_age + (k * SCALE) / 12,
                    10_000,
                ),
        decreases months - am,
    {
        let age_ppm: i64 = input.current_age + (((am as u64) * (SCALE as u64)) / 12) as i64;
        let centi = crate::fixed::round_div(age_ppm, 10_000);
        ages.push(centi);
        am += 1;
    }

    let final_percentiles = crate::calculations::summarize(&final_balances);
    let retire_percentiles = crate::calculations::summarize(&retire_balances);
    let shortfall_percentiles = crate::calculations::summarize(&shortfall_totals);
    let depleted_years_percentiles = crate::calculations::summarize(&depleted_years_series);
    proof {
        crate::calculations::lemma_percentile_band_nonneg(final_balances@, 100_000);
        crate::calculations::lemma_percentile_band_nonneg(retire_balances@, 100_000);
        crate::calculations::lemma_percentile_band_nonneg(shortfall_totals@, 100_000);
        crate::calculations::lemma_percentile_band_nonneg(depleted_years_series@, 100_000);
        assert(final_balances@ =~= sims_finals_spec(traces));
        assert(retire_balances@ =~= sims_retires_spec(
            traces,
            retire_index_spec(months, retire_month),
        ));
        assert(shortfall_totals@ =~= sims_shortfalls_spec(traces));
        assert(depleted_years_series@ =~= sims_depleted_years_spec(traces));
    }

    let sequence_risk = crate::stats::build_sequence_risk_summary(
        &annual_real_returns_by_sim,
        &final_balances,
        &depleted_flags,
    );

    let ruin_surface = crate::stats::build_ruin_surface(
        input,
        spending_periods,
        income_sources,
        lump_sum_events,
        &growth_factors,
        months,
        sim_count,
    );

    proof {
        assert(success_count as int * SCALE as int <= sim_count as int * SCALE as int && 0
            <= success_count as int * SCALE as int) by (nonlinear_arith)
            requires
                0 <= success_count as int <= sim_count as int,
                SCALE == 1_000_000;
        vstd::arithmetic::div_mod::lemma_div_is_ordered(
            0,
            success_count as int * SCALE as int,
            sim_count as int,
        );
        vstd::arithmetic::div_mod::lemma_div_is_ordered(
            success_count as int * SCALE as int,
            sim_count as int * SCALE as int,
            sim_count as int,
        );
        vstd::arithmetic::div_mod::lemma_div_multiples_vanish(SCALE as int, sim_count as int);
        assert(fi_count_p95 as int * SCALE as int <= sim_count as int * SCALE as int && 0
            <= fi_count_p95 as int * SCALE as int && fi_count_swr as int * SCALE as int
            <= sim_count as int * SCALE as int && 0 <= fi_count_swr as int * SCALE as int)
            by (nonlinear_arith)
            requires
                0 <= fi_count_p95 as int <= sim_count as int,
                0 <= fi_count_swr as int <= sim_count as int,
                SCALE == 1_000_000;
        vstd::arithmetic::div_mod::lemma_div_is_ordered(
            0,
            fi_count_p95 as int * SCALE as int,
            sim_count as int,
        );
        vstd::arithmetic::div_mod::lemma_div_is_ordered(
            fi_count_p95 as int * SCALE as int,
            sim_count as int * SCALE as int,
            sim_count as int,
        );
        vstd::arithmetic::div_mod::lemma_div_is_ordered(
            0,
            fi_count_swr as int * SCALE as int,
            sim_count as int,
        );
        vstd::arithmetic::div_mod::lemma_div_is_ordered(
            fi_count_swr as int * SCALE as int,
            sim_count as int * SCALE as int,
            sim_count as int,
        );
    }
    let success_probability: i64 = floor_div_i128(
        (success_count as i128) * (SCALE as i128),
        sim_count as i128,
    ) as i64;
    let fi_probability_p95: i64 = floor_div_i128(
        (fi_count_p95 as i128) * (SCALE as i128),
        sim_count as i128,
    ) as i64;
    let fi_probability_swr: i64 = floor_div_i128(
        (fi_count_swr as i128) * (SCALE as i128),
        sim_count as i128,
    ) as i64;

    let simulation = SimulationResult {
        months,
        ages,
        retire_month,
        percentiles: PercentileSeries { p10: pt10, p25: pt25, p50: pt50, p75: pt75, p90: pt90 },
        final_percentiles: PercentileSeries {
            p10: final_percentiles.p10,
            p25: final_percentiles.p25,
            p50: final_percentiles.p50,
            p75: final_percentiles.p75,
            p90: final_percentiles.p90,
        },
        retire_percentiles: PercentileSeries {
            p10: retire_percentiles.p10,
            p25: retire_percentiles.p25,
            p50: retire_percentiles.p50,
            p75: retire_percentiles.p75,
            p90: retire_percentiles.p90,
        },
    };
    let stats = SummaryStats {
        fi_target: target_fi_p95,
        fi_target_swr: target_fi_swr,
        fi_target_p95: target_fi_p95,
        success_probability,
        fi_probability_swr,
        fi_probability_p95,
        success_count,
        return_moments,
        sequence_risk,
        ruin_surface,
        shortfall_low: shortfall_percentiles.p10,
        shortfall_median: shortfall_percentiles.p50,
        shortfall_high: shortfall_percentiles.p90,
        depleted_years_low: depleted_years_percentiles.p10,
        depleted_years_median: depleted_years_percentiles.p50,
        depleted_years_high: depleted_years_percentiles.p90,
        retire_low: retire_percentiles.p10,
        final_median: final_percentiles.p50,
        final_low: final_percentiles.p10,
        final_high: final_percentiles.p90,
        retire_median: retire_percentiles.p50,
        retire_high: retire_percentiles.p90,
    };
    proof {
        assert(traces == sims_trace_spec(
            gw,
            driver_rng_start_spec(*input, run_seed_spec(*input)),
            0,
            sim_count as nat,
        ));
    }
    SimulationResultWrapper {
        simulation,
        stats,
        sim_count: sim_count as u32,
        world: Ghost(gw),
        per_sim: Ghost(traces),
    }
}

} // verus!
