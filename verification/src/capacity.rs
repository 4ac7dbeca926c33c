use vstd::prelude::*;
use crate::config::TrendBreakConfig;
use crate::quality::{
    centred, fractions_fit, lemma_residual_is_not_negative, lemma_stats_are_well_formed, lever, lever_sum,
    mean_squared_error, perfect, price_sum, products_fit, residual, rough_sum, roughness, spread, spread_sum,
    square_sum, statistics_fit, stats_of, step_term, steps_fit_at, sums_fit_at, total,
};
use crate::ratio::fits;
use crate::regression::{
    co_spread, index_spread, intercept_over_spread, line_fits, sum_x, sum_xx, sum_xy, sum_y, window_points, Point,
};
use crate::segmentation::{class_fits, class_of, next_reference, representable, run_fits, PointClass};

verus! {

/// A series of at most 1024 prices, each at most 1048576 ticks from zero.
pub open spec fn modest(prices: Seq<i64>) -> bool {
    &&& prices.len() <= 1024
    &&& forall|i: int| 0 <= i < prices.len() ==> -1048576 <= #[trigger] prices[i] <= 1048576
}

/// Thresholds whose multipliers are at most a hundred.
pub open spec fn modest_multipliers(config: TrendBreakConfig) -> bool {
    config.soft_rmse_multiplier <= 100000 && config.hard_rmse_multiplier <= 100000
}

proof fn lemma_product_bound(a: int, b: int, ma: int, mb: int)
    requires
        -ma <= a <= ma,
        -mb <= b <= mb,
    ensures
        -(ma * mb) <= a * b <= ma * mb,
{
    assert((ma - a) * (mb - b) >= 0) by (nonlinear_arith)
        requires
            ma - a >= 0,
            mb - b >= 0,
    ;
    assert((ma + a) * (mb + b) >= 0) by (nonlinear_arith)
        requires
            ma + a >= 0,
            mb + b >= 0,
    ;
    assert((ma - a) * (mb + b) >= 0) by (nonlinear_arith)
        requires
            ma - a >= 0,
            mb + b >= 0,
    ;
    assert((ma + a) * (mb - b) >= 0) by (nonlinear_arith)
        requires
            ma + a >= 0,
            mb - b >= 0,
    ;
    assert((ma - a) * (mb - b) == ma * mb - ma * b - a * mb + a * b) by (nonlinear_arith);
    assert((ma + a) * (mb + b) == ma * mb + ma * b + a * mb + a * b) by (nonlinear_arith);
    assert((ma - a) * (mb + b) == ma * mb + ma * b - a * mb - a * b) by (nonlinear_arith);
    assert((ma + a) * (mb - b) == ma * mb - ma * b + a * mb - a * b) by (nonlinear_arith);
}

proof fn lemma_window_sums(w: Seq<i64>, k: int)
    requires
        modest(w),
        0 <= k <= w.len(),
    ensures
        -(k * 1048576) <= price_sum(w, k) <= k * 1048576,
        0 <= square_sum(w, k) <= k * 1099511627776,
        -(k * 1073741824) <= lever_sum(w, k) <= k * 1073741824,
        0 <= spread_sum(w.len() as int, k) <= k * 1048576,
        sums_fit_at(w, k),
    decreases k,
{
    if k > 0 {
        lemma_window_sums(w, k - 1);
        let y = w[k - 1] as int;
        let u = centred(w.len() as int, k - 1);
        lemma_product_bound(y, y, 1048576, 1048576);
        lemma_product_bound(u, y, 1024, 1048576);
        lemma_product_bound(u, u, 1024, 1024);
        assert(y * y >= 0) by (nonlinear_arith);
        assert(u * u >= 0) by (nonlinear_arith);
    }
}

proof fn lemma_window_steps(w: Seq<i64>, k: int)
    requires
        modest(w),
        0 <= k <= w.len(),
        0 <= spread(w) <= 1073741824,
        -1099511627776 <= lever(w) <= 1099511627776,
    ensures
        0 <= rough_sum(w, k, spread(w), lever(w)) <= k * 20282409603651670423947251286016,
        steps_fit_at(w, k),
    decreases k,
{
    if k > 1 {
        lemma_window_steps(w, k - 1);
        let step = w[k - 1] - w[k - 2];
        lemma_product_bound(spread(w), step, 1073741824, 2097152);
        let t = step_term(w, k);
        lemma_product_bound(t, t, 4503599627370496, 4503599627370496);
        assert(t * t >= 0) by (nonlinear_arith);
    }
}

/// The statistics of a modest window fit in 128 bits, and its mean squared
/// error is small enough to be scaled by a multiplier of at most a hundred.
pub proof fn lemma_modest_window_fits(w: Seq<i64>)
    requires
        modest(w),
        w.len() >= 1,
    ensures
        statistics_fit(w),
        0 <= mean_squared_error(w).0 <= 4951760157141521099596496896,
        0 < mean_squared_error(w).1 <= 1125899906842624,
{
    let n = w.len() as int;
    assert forall|k: int| 0 <= k <= n implies #[trigger] sums_fit_at(w, k) by {
        lemma_window_sums(w, k);
    }
    lemma_window_sums(w, n);
    lemma_residual_is_not_negative(w);
    lemma_stats_are_well_formed(w);
    let sv = price_sum(w, n);
    let svv = square_sum(w, n);
    let lv = lever(w);
    let sp = spread(w);
    lemma_product_bound(n, svv, 1024, 1125899906842624);
    lemma_product_bound(sv, sv, 1073741824, 1073741824);
    lemma_product_bound(n * svv - sv * sv, sp, 2305843009213693952, 1073741824);
    lemma_product_bound(lv, lv, 1099511627776, 1099511627776);
    lemma_product_bound(n, lv * lv, 1024, 1208925819614629174706176);
    assert(products_fit(w));
    lemma_product_bound(n, n, 1024, 1024);
    lemma_product_bound(n * n, sp, 1048576, 1073741824);
    if !perfect(w) {
        let res = residual(w);
        let tot = total(w);
        assert forall|k: int| 0 <= k <= n implies #[trigger] steps_fit_at(w, k) by {
            lemma_window_steps(w, k);
        }
        lemma_window_steps(w, n);
        let rs = rough_sum(w, n, sp, lv);
        lemma_product_bound(n, rs, 1024, 20769187434139310514121985316880384);
        lemma_product_bound(sp, res, 1073741824, 4951760157141521099596496896);
        lemma_product_bound(tot, n - 2, 2475880078570760549798248448, 1024);
        lemma_product_bound(res, n - 1, 4951760157141521099596496896, 1024);
        assert(roughness(w) == n * rs);
        assert(fractions_fit(w));
    }
}

proof fn lemma_point_sums(ps: Seq<Point>, k: int)
    requires
        ps.len() <= 1024,
        forall|i: int| 0 <= i < ps.len() ==> (#[trigger] ps[i]).index < 1024 && -1048576 <= ps[i].value <= 1048576,
        0 <= k <= ps.len(),
    ensures
        0 <= sum_x(ps.take(k)) <= k * 1024,
        0 <= sum_xx(ps.take(k)) <= k * 1048576,
        -(k * 1048576) <= sum_y(ps.take(k)) <= k * 1048576,
        -(k * 1073741824) <= sum_xy(ps.take(k)) <= k * 1073741824,
    decreases k,
{
    if k > 0 {
        lemma_point_sums(ps, k - 1);
        assert(ps.take(k).drop_last() =~= ps.take(k - 1));
        let p = ps[k - 1];
        assert(ps.take(k).last() == p);
        lemma_product_bound(p.index as int, p.index as int, 1024, 1024);
        lemma_product_bound(p.index as int, p.value as int, 1024, 1048576);
        assert(p.index * p.index >= 0) by (nonlinear_arith);
    }
}

/// The line through at most 1024 points fits in 128 bits where every
/// index is below 1024 and every price at most 1048576 ticks from zero.
pub proof fn lemma_modest_points_fit(ps: Seq<Point>)
    requires
        ps.len() <= 1024,
        forall|i: int| 0 <= i < ps.len() ==> (#[trigger] ps[i]).index < 1024 && -1048576 <= ps[i].value <= 1048576,
    ensures
        line_fits(ps),
{
    if ps.len() >= 2 {
        assert forall|j: int| 0 <= j < ps.len() implies fits((#[trigger] ps[j]).index * ps[j].index) && fits(
            ps[j].index * ps[j].value,
        ) by {
            lemma_product_bound(ps[j].index as int, ps[j].index as int, 1024, 1024);
            lemma_product_bound(ps[j].index as int, ps[j].value as int, 1024, 1048576);
        }
        assert forall|k: int| 0 <= k <= ps.len() implies {
            &&& fits(sum_x(#[trigger] ps.take(k)))
            &&& fits(sum_y(ps.take(k)))
            &&& fits(sum_xx(ps.take(k)))
            &&& fits(sum_xy(ps.take(k)))
        } by {
            lemma_point_sums(ps, k);
        }
        let n = ps.len() as int;
        lemma_point_sums(ps, n);
        assert(ps.take(n) =~= ps);
        let sx = sum_x(ps);
        let sy = sum_y(ps);
        let sxx = sum_xx(ps);
        let sxy = sum_xy(ps);
        lemma_product_bound(n, sxx, 1024, 1073741824);
        lemma_product_bound(sx, sx, 1048576, 1048576);
        lemma_product_bound(n, sxy, 1024, 1099511627776);
        lemma_product_bound(sx, sy, 1048576, 1073741824);
        lemma_product_bound(sy, sxx, 1073741824, 1073741824);
        lemma_product_bound(sx, sxy, 1048576, 1099511627776);
        assert(fits(index_spread(ps)));
        assert(fits(co_spread(ps)));
        assert(fits(intercept_over_spread(ps)));
    }
}

/// The line through a window of a modest series fits in 128 bits.
pub proof fn lemma_modest_line_fits(prices: Seq<i64>, start: int, len: int)
    requires
        modest(prices),
        0 <= start,
        0 <= len,
        start + len <= prices.len(),
    ensures
        line_fits(window_points(prices, start, len)),
{
    let ps = window_points(prices, start, len);
    assert forall|i: int| 0 <= i < ps.len() implies (#[trigger] ps[i]).index < 1024 && -1048576 <= ps[i].value
        <= 1048576 by {
        assert(ps[i].value == prices[start + i]);
    }
    lemma_modest_points_fit(ps);
}

/// The line through the peaks or the valleys of a modest series fits in
/// 128 bits.
pub proof fn lemma_modest_extrema_fit(prices: Seq<i64>, period: int, high: bool)
    requires
        modest(prices),
    ensures
        line_fits(crate::trends::extremum_points(crate::extrema::extrema_of(prices, period, 1, high))),
{
    let cands = crate::extrema::candidates(prices, period, high, prices.len() as int);
    let found = crate::extrema::extrema_of(prices, period, 1, high);
    let ps = crate::trends::extremum_points(found);
    crate::extrema::lemma_candidates(prices, period, high, prices.len() as int);
    crate::extrema::lemma_prune(cands, 1, high);
    assert forall|i: int| 0 <= i < ps.len() implies (#[trigger] ps[i]).index < 1024 && -1048576 <= ps[i].value
        <= 1048576 by {
        assert(cands.contains(found[i]));
        let s = choose|s: int| 0 <= s < cands.len() && cands[s] == found[i];
        assert(cands[s] == found[i]);
        assert(ps[i].index == found[i].index && ps[i].value == found[i].value);
    }
    lemma_modest_points_fit(ps);
}

/// A reference that the multipliers of at most a hundred can scale.
spec fn small_error(reference: Option<(int, int)>) -> bool {
    reference is Some ==> 0 <= reference->Some_0.0 <= 4951760157141521099596496896 && 0 < reference->Some_0.1
        <= 1125899906842624
}

proof fn lemma_small_error_scales(reference: Option<(int, int)>, m: i64)
    requires
        small_error(reference),
        m <= 100000,
    ensures
        crate::segmentation::scale_fits(reference, m),
{
    if reference is Some && m >= 0 {
        let r = reference->Some_0;
        lemma_product_bound(m as int, m as int, 100000, 100000);
        assert(m * m >= 0) by (nonlinear_arith);
        lemma_product_bound(r.0, m * m, 4951760157141521099596496896, 10000000000);
        lemma_product_bound(r.1, 1000000, 1125899906842624, 1000000);
    }
}

proof fn lemma_modest_run_fits(
    prices: Seq<i64>,
    config: TrendBreakConfig,
    start: int,
    last_ok: int,
    outliers: int,
    reference: Option<(int, int)>,
    i: int,
)
    requires
        modest(prices),
        modest_multipliers(config),
        small_error(reference),
    ensures
        run_fits(prices, config, start, last_ok, outliers, reference, i),
    decreases prices.len() - start, prices.len() - i,
{
    if 0 <= start <= last_ok < i <= prices.len() {
        if i == prices.len() {
            lemma_modest_line_fits(prices, start, i - start);
        } else {
            let w = prices.subrange(start, i + 1);
            assert forall|k: int| 0 <= k < w.len() implies -1048576 <= #[trigger] w[k] <= 1048576 by {
                assert(w[k] == prices[start + k]);
            }
            lemma_modest_window_fits(w);
            lemma_small_error_scales(reference, config.hard_rmse_multiplier);
            lemma_small_error_scales(reference, config.soft_rmse_multiplier);
            let q = stats_of(w);
            let class = class_of(q, reference, config);
            if class == PointClass::Conforming {
                lemma_modest_run_fits(prices, config, start, i, 0, next_reference(q), i + 1);
            } else if class == PointClass::SoftViolating && outliers < config.max_outliers {
                lemma_modest_run_fits(prices, config, start, last_ok, outliers + 1, reference, i + 1);
            } else {
                lemma_modest_line_fits(prices, start, last_ok - start + 1);
                lemma_modest_run_fits(prices, config, last_ok + 1, last_ok + 1, 0, None, last_ok + 2);
            }
        }
    }
}

/// A modest series can always be broken down: under thresholds with
/// multipliers of at most a hundred nothing overflows.
pub proof fn lemma_modest_series_is_representable(prices: Seq<i64>, config: TrendBreakConfig)
    requires
        modest(prices),
        modest_multipliers(config),
    ensures
        representable(prices, config),
{
    lemma_modest_run_fits(prices, config, 0, 0, 0, None, 1);
}

} // verus!
