use vstd::prelude::*;
use vstd::slice::slice_subrange;
use crate::config::{
    aggressive_thresholds, conservative_thresholds, default_thresholds, named_preset, select_config, selection,
    CustomParts, TrendBreakConfig,
};
use crate::error::TrendError;
use crate::quality::{assess, perfect, statistics_fit, stats_of, FitQuality, Stats};
use crate::ratio::{fits, Ratio};
use crate::regression::{fit_window, line_fits, line_through, window_points, TrendLine};
use crate::residuals::{lemma_line_through_points_on_a_line, lemma_window_on_a_line_is_perfect};

verus! {

/// How a point sits with the trend of the segment that it would extend.
#[derive(Clone, Copy, Debug, PartialEq, Eq, Structural)]
pub enum PointClass {
    /// Within every soft threshold.
    Conforming,
    /// Beyond a soft threshold, within every hard one.
    SoftViolating,
    /// Beyond a hard threshold.
    HardViolating,
}

/// One trend: the least-squares line through the prices from `start_index`
/// to `end_index`, both included.
#[derive(Clone, Copy, Debug, PartialEq, Eq, Structural)]
pub struct TrendSegment {
    pub start_index: usize,
    pub end_index: usize,
    pub line: TrendLine,
}

/// A trend as numbers: its first and last index, and the numerators and
/// the denominator of its line.
pub struct Trend {
    pub start: int,
    pub end: int,
    pub line: (int, int, int),
}

impl View for TrendSegment {
    type V = Trend;

    open spec fn view(&self) -> Trend {
        Trend { start: self.start_index as int, end: self.end_index as int, line: self.line.triple() }
    }
}

/// The segments as numbers.
pub open spec fn trends_of(segments: Seq<TrendSegment>) -> Seq<Trend> {
    Seq::new(segments.len(), |k: int| segments[k]@)
}

/// The fraction `f` is below `t` thousandths.
pub open spec fn below(f: (int, int), t: i64) -> bool {
    f.0 * 1000 < t * f.1
}

/// The fraction `f` is above `t` thousandths.
pub open spec fn above(f: (int, int), t: i64) -> bool {
    t * f.1 < f.0 * 1000
}

/// The RMSE is above `multiplier` thousandths of the reference RMSE. The
/// errors are mean squared errors, so a multiplier that is not negative is
/// squared. A negative multiple of the reference is exceeded unless both
/// errors are zero. Without a reference nothing exceeds it.
pub open spec fn error_exceeds(error: (int, int), reference: Option<(int, int)>, multiplier: i64) -> bool {
    match reference {
        Some(r) => if multiplier >= 0 {
            r.0 * (multiplier * multiplier) * error.1 < error.0 * (r.1 * 1000000)
        } else {
            error.0 > 0 || r.0 > 0
        },
        None => false,
    }
}

/// The fit breaks one of the four thresholds: the adjusted R squared is
/// undefined or below its minimum, the error exceeds the reference, or the
/// Durbin-Watson statistic is outside its band.
pub open spec fn violates(
    q: Stats,
    reference: Option<(int, int)>,
    adj_r_squared_minimum: i64,
    rmse_multiplier: i64,
    durbin_watson_min: i64,
    durbin_watson_max: i64,
) -> bool {
    ||| q.adjusted_r_squared is None
    ||| below(q.adjusted_r_squared->Some_0, adj_r_squared_minimum)
    ||| error_exceeds(q.mean_squared_error, reference, rmse_multiplier)
    ||| below(q.durbin_watson, durbin_watson_min)
    ||| above(q.durbin_watson, durbin_watson_max)
}

/// The class of a point by the fit of the segment with that point in it:
/// the hard thresholds are tried first, then the soft ones.
pub open spec fn class_of(q: Stats, reference: Option<(int, int)>, config: TrendBreakConfig) -> PointClass {
    if violates(
        q,
        reference,
        config.hard_adj_r_squared_minimum,
        config.hard_rmse_multiplier,
        config.hard_durbin_watson_min,
        config.hard_durbin_watson_max,
    ) {
        PointClass::HardViolating
    } else if violates(
        q,
        reference,
        config.soft_adj_r_squared_minimum,
        config.soft_rmse_multiplier,
        config.soft_durbin_watson_min,
        config.soft_durbin_watson_max,
    ) {
        PointClass::SoftViolating
    } else {
        PointClass::Conforming
    }
}

/// A reference error: not negative, over a positive denominator.
pub open spec fn is_error(e: (int, int)) -> bool {
    e.0 >= 0 && e.1 > 0
}

/// The reference scaled by a multiplier that is not negative fits in 128
/// bits.
pub open spec fn scale_fits(reference: Option<(int, int)>, multiplier: i64) -> bool {
    reference is Some && multiplier >= 0 ==> fits(reference->Some_0.1 * 1000000) && fits(
        reference->Some_0.0 * (multiplier * multiplier),
    )
}

/// The reference scaled by either multiplier fits.
pub open spec fn class_fits(reference: Option<(int, int)>, config: TrendBreakConfig) -> bool {
    scale_fits(reference, config.hard_rmse_multiplier) && scale_fits(reference, config.soft_rmse_multiplier)
}

/// The reference as numbers.
pub open spec fn pair_of(reference: Option<Ratio>) -> Option<(int, int)> {
    match reference {
        Some(r) => Some(r.pair()),
        None => None,
    }
}

/// Thresholds in order give the soft thresholds their meaning: whatever
/// breaks a hard threshold breaks the soft one of the same kind too.
pub proof fn lemma_hard_violation_is_soft_violation(
    q: Stats,
    reference: Option<(int, int)>,
    config: TrendBreakConfig,
)
    requires
        q.wf(),
        config.wf(),
        reference is Some ==> is_error(reference->Some_0),
        violates(
            q,
            reference,
            config.hard_adj_r_squared_minimum,
            config.hard_rmse_multiplier,
            config.hard_durbin_watson_min,
            config.hard_durbin_watson_max,
        ),
    ensures
        violates(
            q,
            reference,
            config.soft_adj_r_squared_minimum,
            config.soft_rmse_multiplier,
            config.soft_durbin_watson_min,
            config.soft_durbin_watson_max,
        ),
{
    let dw = q.durbin_watson;
    if q.adjusted_r_squared is Some {
        let a = q.adjusted_r_squared->Some_0;
        assert(config.hard_adj_r_squared_minimum * a.1 <= config.soft_adj_r_squared_minimum * a.1)
            by (nonlinear_arith)
            requires
                config.hard_adj_r_squared_minimum <= config.soft_adj_r_squared_minimum,
                a.1 > 0,
        ;
    }
    assert(config.hard_durbin_watson_min * dw.1 <= config.soft_durbin_watson_min * dw.1) by (nonlinear_arith)
        requires
            config.hard_durbin_watson_min <= config.soft_durbin_watson_min,
            dw.1 > 0,
    ;
    assert(config.soft_durbin_watson_max * dw.1 <= config.hard_durbin_watson_max * dw.1) by (nonlinear_arith)
        requires
            config.soft_durbin_watson_max <= config.hard_durbin_watson_max,
            dw.1 > 0,
    ;
    if reference is Some {
        let base = reference->Some_0;
        let e = q.mean_squared_error;
        let hard = config.hard_rmse_multiplier as int;
        let soft = config.soft_rmse_multiplier as int;
        if hard >= 0 {
            assert(hard * hard >= 0) by (nonlinear_arith);
            assert(base.0 * (hard * hard) >= 0) by (nonlinear_arith)
                requires
                    base.0 >= 0,
                    hard * hard >= 0,
            ;
            assert(base.0 * (hard * hard) * e.1 >= 0) by (nonlinear_arith)
                requires
                    base.0 * (hard * hard) >= 0,
                    e.1 > 0,
            ;
            if soft >= 0 {
                assert(soft * soft <= hard * hard) by (nonlinear_arith)
                    requires
                        0 <= soft <= hard,
                ;
                assert(base.0 * (soft * soft) <= base.0 * (hard * hard)) by (nonlinear_arith)
                    requires
                        soft * soft <= hard * hard,
                        base.0 >= 0,
                ;
                assert(base.0 * (soft * soft) * e.1 <= base.0 * (hard * hard) * e.1) by (nonlinear_arith)
                    requires
                        base.0 * (soft * soft) <= base.0 * (hard * hard),
                        e.1 > 0,
                ;
            } else if error_exceeds(e, reference, config.hard_rmse_multiplier) {
                assert(e.0 > 0) by (nonlinear_arith)
                    requires
                        e.0 * (base.1 * 1000000) > 0,
                        base.1 > 0,
                        e.0 >= 0,
                ;
            }
        }
    }
}

/// Whether the error exceeds the scaled reference, if the scaled
/// reference fits.
fn exceeds(error: &Ratio, reference: &Option<Ratio>, multiplier: i64) -> (r: Option<bool>)
    requires
        error.wf(),
        reference is Some ==> reference->Some_0.wf(),
    ensures
        r is Some == scale_fits(pair_of(*reference), multiplier),
        r is Some ==> r->Some_0 == error_exceeds(error.pair(), pair_of(*reference), multiplier),
{
    match reference {
        Some(base) => {
            if multiplier < 0 {
                return Some(error.num > 0 || base.num > 0);
            }
            let m: i128 = multiplier as i128;
            assert(m * m <= 85070591730234615865843651857942052864) by (nonlinear_arith)
                requires
                    0 <= m <= 9223372036854775807,
            ;
            assert(m * m >= 0) by (nonlinear_arith);
            let square: i128 = m * m;
            match (base.num.checked_mul(square), base.den.checked_mul(1000000)) {
                (Some(num), Some(den)) => {
                    let scaled = Ratio { num, den };
                    Some(scaled.is_less(error))
                },
                _ => None,
            }
        },
        None => Some(false),
    }
}

/// Whether the fit breaks one of four thresholds, if the scaled reference
/// fits.
fn breaks(
    q: &FitQuality,
    reference: &Option<Ratio>,
    adj_r_squared_minimum: i64,
    rmse_multiplier: i64,
    durbin_watson_min: i64,
    durbin_watson_max: i64,
) -> (r: Option<bool>)
    requires
        q@.wf(),
        reference is Some ==> reference->Some_0.wf(),
    ensures
        r is Some == scale_fits(pair_of(*reference), rmse_multiplier),
        r is Some ==> r->Some_0 == violates(
            q@,
            pair_of(*reference),
            adj_r_squared_minimum,
            rmse_multiplier,
            durbin_watson_min,
            durbin_watson_max,
        ),
{
    let over: bool = match exceeds(&q.mean_squared_error, reference, rmse_multiplier) {
        Some(b) => b,
        None => {
            return None;
        },
    };
    let low = Ratio { num: durbin_watson_min as i128, den: 1000 };
    let high = Ratio { num: durbin_watson_max as i128, den: 1000 };
    let least = Ratio { num: adj_r_squared_minimum as i128, den: 1000 };
    let unfit: bool = match q.adjusted_r_squared {
        Some(a) => a.is_less(&least),
        None => true,
    };
    Some(unfit || over || q.durbin_watson.is_less(&low) || high.is_less(&q.durbin_watson))
}

/// What `classify` owes its caller.
pub open spec fn class_result(
    q: Stats,
    reference: Option<(int, int)>,
    config: TrendBreakConfig,
    r: Result<PointClass, TrendError>,
) -> bool {
    if class_fits(reference, config) {
        r == Ok::<PointClass, TrendError>(class_of(q, reference, config))
    } else {
        r == Err::<PointClass, TrendError>(TrendError::Overflow)
    }
}

/// Classifies a point by the fit of the segment with that point in it.
/// `reference` is the mean squared error of the segment when it last
/// conformed, if it has one. Fails with `Overflow` where the reference
/// scaled by a multiplier does not fit in 128 bits.
pub fn classify(q: &FitQuality, reference: &Option<Ratio>, config: &TrendBreakConfig) -> (r: Result<
    PointClass,
    TrendError,
>)
    requires
        q@.wf(),
        reference is Some ==> reference->Some_0.wf(),
    ensures
        class_result(q@, pair_of(*reference), *config, r),
{
    let hard = breaks(
        q,
        reference,
        config.hard_adj_r_squared_minimum,
        config.hard_rmse_multiplier,
        config.hard_durbin_watson_min,
        config.hard_durbin_watson_max,
    );
    let soft = breaks(
        q,
        reference,
        config.soft_adj_r_squared_minimum,
        config.soft_rmse_multiplier,
        config.soft_durbin_watson_min,
        config.soft_durbin_watson_max,
    );
    match (hard, soft) {
        (Some(hard), Some(soft)) => {
            if hard {
                Ok(PointClass::HardViolating)
            } else if soft {
                Ok(PointClass::SoftViolating)
            } else {
                Ok(PointClass::Conforming)
            }
        },
        _ => Err(TrendError::Overflow),
    }
}

/// The segment over the prices from `start` to `end`, both included.
pub open spec fn segment(prices: Seq<i64>, start: int, end: int) -> Trend {
    Trend { start, end, line: line_through(window_points(prices, start, end - start + 1)) }
}

/// The reference that a conforming point leaves: the error of its fit,
/// once three points give the fit an error to speak of.
pub open spec fn next_reference(q: Stats) -> Option<(int, int)> {
    if q.points >= 3 {
        Some(q.mean_squared_error)
    } else {
        None
    }
}

/// The segments still to come when the segment in progress began at
/// `start`, last conformed at `last_ok`, has tolerated `outliers` soft
/// violations in a row since, and point `i` is next.
///
/// The point is classified by the fit over `start..=i`. A conforming point
/// extends the segment and clears the outliers. A soft violation within the
/// budget stays in the segment as an outlier. Any other violation closes the
/// segment at `last_ok`, and the next one begins right after it, with the
/// points since as its first. The end of the series closes the segment in
/// progress, outliers included.
pub open spec fn run(
    prices: Seq<i64>,
    config: TrendBreakConfig,
    start: int,
    last_ok: int,
    outliers: int,
    reference: Option<(int, int)>,
    i: int,
) -> Seq<Trend>
    decreases prices.len() - start, prices.len() - i,
{
    if !(0 <= start <= last_ok < i <= prices.len()) {
        Seq::empty()
    } else if i == prices.len() {
        seq![segment(prices, start, i - 1)]
    } else {
        let q = stats_of(prices.subrange(start, i + 1));
        let class = class_of(q, reference, config);
        if class == PointClass::Conforming {
            run(prices, config, start, i, 0, next_reference(q), i + 1)
        } else if class == PointClass::SoftViolating && outliers < config.max_outliers {
            run(prices, config, start, last_ok, outliers + 1, reference, i + 1)
        } else {
            seq![segment(prices, start, last_ok)] + run(
                prices,
                config,
                last_ok + 1,
                last_ok + 1,
                0,
                None,
                last_ok + 2,
            )
        }
    }
}

/// Every value that the segments still to come are formed from fits in
/// 128 bits: the statistics of each fit that `run` looks at, the reference
/// scaled for each, and the line of each segment that it closes.
pub open spec fn run_fits(
    prices: Seq<i64>,
    config: TrendBreakConfig,
    start: int,
    last_ok: int,
    outliers: int,
    reference: Option<(int, int)>,
    i: int,
) -> bool
    decreases prices.len() - start, prices.len() - i,
{
    if !(0 <= start <= last_ok < i <= prices.len()) {
        true
    } else if i == prices.len() {
        line_fits(window_points(prices, start, i - start))
    } else {
        let w = prices.subrange(start, i + 1);
        let q = stats_of(w);
        let class = class_of(q, reference, config);
        &&& statistics_fit(w)
        &&& class_fits(reference, config)
        &&& if class == PointClass::Conforming {
            run_fits(prices, config, start, i, 0, next_reference(q), i + 1)
        } else if class == PointClass::SoftViolating && outliers < config.max_outliers {
            run_fits(prices, config, start, last_ok, outliers + 1, reference, i + 1)
        } else {
            &&& line_fits(window_points(prices, start, last_ok - start + 1))
            &&& run_fits(prices, config, last_ok + 1, last_ok + 1, 0, None, last_ok + 2)
        }
    }
}

/// The trend segments of a series: the first segment begins with the first
/// point, which conforms by itself.
pub open spec fn trend_segments(prices: Seq<i64>, config: TrendBreakConfig) -> Seq<Trend> {
    run(prices, config, 0, 0, 0, None, 1)
}

/// The segmentation of the series can be done in 128 bits.
pub open spec fn representable(prices: Seq<i64>, config: TrendBreakConfig) -> bool {
    run_fits(prices, config, 0, 0, 0, None, 1)
}

/// The segments cover the indices from `first` to `n - 1` exactly once:
/// each ends no earlier than it begins, and each begins right after the one
/// before it ends.
pub open spec fn partitions(segs: Seq<Trend>, first: int, n: int) -> bool {
    &&& segs.len() >= 1
    &&& segs[0].start == first
    &&& segs.last().end == n - 1
    &&& forall|k: int| 0 <= k < segs.len() ==> (#[trigger] segs[k]).start <= segs[k].end
    &&& forall|k: int, l: int|
        0 <= k < segs.len() && l == k + 1 && l < segs.len() ==> (#[trigger] segs[l]).start == (
        #[trigger] segs[k]).end + 1
}

/// Each segment holds the least-squares line through its own prices.
pub open spec fn fitted(segs: Seq<Trend>, prices: Seq<i64>) -> bool {
    forall|k: int| 0 <= k < segs.len() ==> #[trigger] segs[k] == segment(prices, segs[k].start, segs[k].end)
}

proof fn lemma_run_partitions(
    prices: Seq<i64>,
    config: TrendBreakConfig,
    start: int,
    last_ok: int,
    outliers: int,
    reference: Option<(int, int)>,
    i: int,
)
    requires
        0 <= start <= last_ok < i <= prices.len(),
    ensures
        partitions(run(prices, config, start, last_ok, outliers, reference, i), start, prices.len() as int),
        fitted(run(prices, config, start, last_ok, outliers, reference, i), prices),
    decreases prices.len() - start, prices.len() - i,
{
    if i < prices.len() {
        let q = stats_of(prices.subrange(start, i + 1));
        let class = class_of(q, reference, config);
        if class == PointClass::Conforming {
            lemma_run_partitions(prices, config, start, i, 0, next_reference(q), i + 1);
        } else if class == PointClass::SoftViolating && outliers < config.max_outliers {
            lemma_run_partitions(prices, config, start, last_ok, outliers + 1, reference, i + 1);
        } else {
            lemma_run_partitions(prices, config, last_ok + 1, last_ok + 1, 0, None, last_ok + 2);
            let head = segment(prices, start, last_ok);
            let rest = run(prices, config, last_ok + 1, last_ok + 1, 0, None, last_ok + 2);
            let all = seq![head] + rest;
            assert(all == run(prices, config, start, last_ok, outliers, reference, i));
            assert(all[0] == head);
            assert forall|k: int| 1 <= k < all.len() implies all[k] == rest[k - 1] by {}
            assert(all.last() == rest.last());
            assert forall|k: int| 0 <= k < all.len() implies (#[trigger] all[k]).start <= all[k].end by {
                if k > 0 {
                    assert(all[k] == rest[k - 1]);
                }
            }
            assert forall|k: int, l: int| 0 <= k < all.len() && l == k + 1 && l < all.len() implies (
            #[trigger] all[l]).start == (#[trigger] all[k]).end + 1 by {
                assert(all[l] == rest[l - 1]);
                if k > 0 {
                    assert(all[k] == rest[k - 1]);
                }
            }
            assert forall|k: int| 0 <= k < all.len() implies #[trigger] all[k] == segment(
                prices,
                all[k].start,
                all[k].end,
            ) by {
                if k > 0 {
                    assert(all[k] == rest[k - 1]);
                }
            }
        }
    }
}

/// The trend segments of any series cover it exactly once, in ascending
/// order, with neither gap nor overlap, whatever the thresholds are, and
/// each holds the line through its own prices.
pub proof fn lemma_segments_partition(prices: Seq<i64>, config: TrendBreakConfig)
    requires
        0 < prices.len(),
    ensures
        partitions(trend_segments(prices, config), 0, prices.len() as int),
        fitted(trend_segments(prices, config), prices),
{
    lemma_run_partitions(prices, config, 0, 0, 0, None, 1);
}

/// Thresholds that a fit without residuals meets: no minimum of the
/// adjusted R squared is above 1, and both Durbin-Watson bands hold 2.
pub open spec fn admits_perfect_fits(config: TrendBreakConfig) -> bool {
    &&& config.soft_adj_r_squared_minimum <= 1000
    &&& config.hard_adj_r_squared_minimum <= 1000
    &&& config.soft_durbin_watson_min <= 2000 <= config.soft_durbin_watson_max
    &&& config.hard_durbin_watson_min <= 2000 <= config.hard_durbin_watson_max
}

/// The three presets admit perfect fits.
pub proof fn lemma_presets_admit_perfect_fits()
    ensures
        admits_perfect_fits(default_thresholds()),
        admits_perfect_fits(conservative_thresholds()),
        admits_perfect_fits(aggressive_thresholds()),
{
}

/// No reference, or the reference of a fit without residuals.
spec fn no_error(reference: Option<(int, int)>) -> bool {
    reference is Some ==> reference->Some_0 == (0int, 1int)
}

proof fn lemma_perfect_fit_conforms(w: Seq<i64>, reference: Option<(int, int)>, config: TrendBreakConfig)
    requires
        perfect(w),
        admits_perfect_fits(config),
        no_error(reference),
    ensures
        class_of(stats_of(w), reference, config) == PointClass::Conforming,
        no_error(next_reference(stats_of(w))),
{
    let q = stats_of(w);
    assert(q.adjusted_r_squared == Some((1int, 1int)));
    assert(q.mean_squared_error == (0int, 1int));
    assert(q.durbin_watson == (2int, 1int));
    assert forall|m: i64| !error_exceeds(q.mean_squared_error, reference, m) by {
        if reference is Some && m >= 0 {
            let base = reference->Some_0;
            let error = q.mean_squared_error;
            assert(base.0 * (m * m) * error.1 == 0) by (nonlinear_arith)
                requires
                    base.0 == 0,
            ;
            assert(error.0 * (base.1 * 1000000) == 0) by (nonlinear_arith)
                requires
                    error.0 == 0,
            ;
        }
    }
    assert forall|t: i64| t <= 1000 implies !below(q.adjusted_r_squared->Some_0, t) by {
        let a = q.adjusted_r_squared->Some_0;
        assert(a.0 * 1000 == 1000 && t * a.1 == t) by (nonlinear_arith)
            requires
                a.0 == 1,
                a.1 == 1,
        ;
    }
    assert forall|t: i64| t <= 2000 implies !below(q.durbin_watson, t) by {
        let d = q.durbin_watson;
        assert(d.0 * 1000 == 2000 && t * d.1 == t) by (nonlinear_arith)
            requires
                d.0 == 2,
                d.1 == 1,
        ;
    }
    assert forall|t: i64| 2000 <= t implies !above(q.durbin_watson, t) by {
        let d = q.durbin_watson;
        assert(d.0 * 1000 == 2000 && t * d.1 == t) by (nonlinear_arith)
            requires
                d.0 == 2,
                d.1 == 1,
        ;
    }
}

/// The reference that fits without residuals leave when point `i` is
/// next.
spec fn reference_of_perfect_fits(i: int) -> Option<(int, int)> {
    if i >= 3 {
        Some((0int, 1int))
    } else {
        None
    }
}

/// While the fits are perfect the first segment grows.
proof fn lemma_run_of_perfect_fits(prices: Seq<i64>, config: TrendBreakConfig, i: int, stop: int)
    requires
        1 <= i <= stop <= prices.len(),
        admits_perfect_fits(config),
        forall|k: int| i <= k < stop ==> perfect(#[trigger] prices.subrange(0, k + 1)),
    ensures
        run(prices, config, 0, i - 1, 0, reference_of_perfect_fits(i), i) == run(
            prices,
            config,
            0,
            stop - 1,
            0,
            reference_of_perfect_fits(stop),
            stop,
        ),
    decreases stop - i,
{
    if i < stop {
        let w = prices.subrange(0, i + 1);
        lemma_perfect_fit_conforms(w, reference_of_perfect_fits(i), config);
        assert(stats_of(w).points == i + 1);
        assert(next_reference(stats_of(w)) == reference_of_perfect_fits(i + 1));
        lemma_run_of_perfect_fits(prices, config, i + 1, stop);
    }
}

/// A series whose prices lie on a line is one segment from its first point
/// to its last, under any thresholds that admit perfect fits. The line of
/// the segment is the line of the prices, and the fit is perfect, with an
/// adjusted R squared of 1.
pub proof fn lemma_linear_series_is_one_segment(
    prices: Seq<i64>,
    config: TrendBreakConfig,
    intercept: int,
    slope: int,
)
    requires
        0 < prices.len() <= usize::MAX,
        admits_perfect_fits(config),
        forall|i: int| 0 <= i < prices.len() ==> #[trigger] prices[i] == intercept + slope * i,
    ensures
        trend_segments(prices, config) == seq![segment(prices, 0, prices.len() - 1)],
        perfect(prices),
        ({
            let line = line_through(window_points(prices, 0, prices.len() as int));
            &&& line.2 > 0
            &&& line.1 == intercept * line.2
            &&& prices.len() >= 2 ==> line.0 == slope * line.2
        }),
{
    let n = prices.len() as int;
    assert forall|k: int| 1 <= k < n implies perfect(#[trigger] prices.subrange(0, k + 1)) by {
        lemma_window_on_a_line_is_perfect(prices, 0, k + 1, intercept, slope);
    }
    lemma_run_of_perfect_fits(prices, config, 1, n);
    lemma_window_on_a_line_is_perfect(prices, 0, n, intercept, slope);
    assert(prices.subrange(0, n) =~= prices);
    let ps = window_points(prices, 0, n);
    lemma_line_through_points_on_a_line(ps, intercept, slope);
    crate::regression::lemma_spread_is_positive(ps);
    let line = line_through(ps);
    if n == 1 {
        assert(ps[0].value == prices[0]);
        assert(slope * 0 == 0);
        assert(intercept * 1 == intercept);
        assert(line == (0int, ps[0].value as int, 1int));
    } else {
        assert(crate::regression::indices_ascend(ps));
        assert(line == (
            crate::regression::co_spread(ps),
            crate::regression::intercept_over_spread(ps),
            crate::regression::index_spread(ps),
        ));
    }
}

/// Where a series leaves the line that its first three or more prices lie
/// on, the first trend ends: the first segment runs to the last price on
/// the line, and another follows. This holds under any thresholds that
/// admit perfect fits.
pub proof fn lemma_trend_breaks_where_the_line_is_left(
    prices: Seq<i64>,
    config: TrendBreakConfig,
    intercept: int,
    slope: int,
    turn: int,
)
    requires
        prices.len() <= usize::MAX,
        admits_perfect_fits(config),
        3 <= turn < prices.len(),
        forall|i: int| 0 <= i < turn ==> #[trigger] prices[i] == intercept + slope * i,
        prices[turn] != intercept + slope * turn,
    ensures
        trend_segments(prices, config).len() >= 2,
        trend_segments(prices, config)[0] == segment(prices, 0, turn - 1),
{
    assert forall|k: int| 1 <= k < turn implies perfect(#[trigger] prices.subrange(0, k + 1)) by {
        lemma_window_on_a_line_is_perfect(prices, 0, k + 1, intercept, slope);
    }
    lemma_run_of_perfect_fits(prices, config, 1, turn);
    let w = prices.subrange(0, turn + 1);
    crate::residuals::lemma_window_off_a_line_is_imperfect(prices, 0, turn + 1, intercept, slope);
    crate::quality::lemma_stats_are_well_formed(w);
    let q = stats_of(w);
    let error = q.mean_squared_error;
    let reference = reference_of_perfect_fits(turn);
    let m = config.hard_rmse_multiplier;
    assert(error.0 > 0);
    assert(error_exceeds(error, reference, m)) by {
        let base = reference->Some_0;
        assert(base.0 * (m * m) * error.1 == 0) by (nonlinear_arith)
            requires
                base.0 == 0,
        ;
        assert(error.0 * (base.1 * 1000000) > 0) by (nonlinear_arith)
            requires
                error.0 > 0,
                base.1 == 1,
        ;
    }
    assert(class_of(q, reference, config) == PointClass::HardViolating);
    lemma_run_partitions(prices, config, turn, turn, 0, None, turn + 1);
    let rest = run(prices, config, turn, turn, 0, None, turn + 1);
    assert(run(prices, config, 0, turn - 1, 0, reference, turn) == seq![segment(prices, 0, turn - 1)] + rest);
}

/// What `segment_trends` owes its caller.
pub open spec fn segments_result(
    prices: Seq<i64>,
    config: TrendBreakConfig,
    r: Result<Vec<TrendSegment>, TrendError>,
) -> bool {
    if !config.wf() {
        r is Err && r->Err_0 == TrendError::InvalidConfiguration
    } else if prices.len() == 0 {
        r is Err && r->Err_0 == TrendError::InvalidInput
    } else if !representable(prices, config) {
        r is Err && r->Err_0 == TrendError::Overflow
    } else {
        &&& r is Ok
        &&& trends_of(r->Ok_0@) == trend_segments(prices, config)
        &&& partitions(trends_of(r->Ok_0@), 0, prices.len() as int)
        &&& fitted(trends_of(r->Ok_0@), prices)
        &&& forall|k: int| 0 <= k < r->Ok_0@.len() ==> (#[trigger] r->Ok_0@[k]).line.wf()
    }
}

/// Breaks a series down into consecutive trend segments under the given
/// thresholds. Fails with `InvalidConfiguration` on thresholds out of
/// order, with `InvalidInput` on an empty series, and with `Overflow`
/// where a value that the segments are formed from does not fit in 128
/// bits.
pub fn segment_trends(prices: &[i64], config: &TrendBreakConfig) -> (r: Result<
    Vec<TrendSegment>,
    TrendError,
>)
    ensures
        segments_result(prices@, *config, r),
{
    if !config.is_valid() {
        return Err(TrendError::InvalidConfiguration);
    }
    let n: usize = prices.len();
    if n == 0 {
        return Err(TrendError::InvalidInput);
    }
    let mut segments: Vec<TrendSegment> = Vec::new();
    let mut start: usize = 0;
    let mut last_ok: usize = 0;
    let mut outliers: usize = 0;
    let mut reference: Option<Ratio> = None;
    let mut i: usize = 1;
    proof {
        assert(trends_of(segments@) =~= Seq::<Trend>::empty());
    }
    while i < n
        invariant
            0 <= start <= last_ok < i <= n,
            n == prices@.len(),
            config.wf(),
            reference is Some ==> reference->Some_0.wf(),
            outliers <= config.max_outliers,
            forall|k: int| 0 <= k < segments@.len() ==> (#[trigger] segments@[k]).line.wf(),
            representable(prices@, *config) == run_fits(
                prices@,
                *config,
                start as int,
                last_ok as int,
                outliers as int,
                pair_of(reference),
                i as int,
            ),
            trends_of(segments@) + run(
                prices@,
                *config,
                start as int,
                last_ok as int,
                outliers as int,
                pair_of(reference),
                i as int,
            ) == trend_segments(prices@, *config),
        decreases n - start, n - i,
    {
        let window = slice_subrange(prices, start, i + 1);
        let q: FitQuality = match assess(window) {
            Some(q) => q,
            None => {
                return Err(TrendError::Overflow);
            },
        };
        let class: PointClass = match classify(&q, &reference, config) {
            Ok(c) => c,
            Err(_) => {
                return Err(TrendError::Overflow);
            },
        };
        let ghost rest = run(
            prices@,
            *config,
            start as int,
            last_ok as int,
            outliers as int,
            pair_of(reference),
            i as int,
        );
        if class == PointClass::Conforming {
            outliers = 0;
            reference = if q.points >= 3 {
                Some(q.mean_squared_error)
            } else {
                None
            };
            last_ok = i;
            i += 1;
        } else if class == PointClass::SoftViolating && outliers < config.max_outliers {
            outliers += 1;
            i += 1;
        } else {
            let line: TrendLine = match fit_window(prices, start, last_ok) {
                Some(l) => l,
                None => {
                    return Err(TrendError::Overflow);
                },
            };
            let closed = TrendSegment { start_index: start, end_index: last_ok, line };
            proof {
                let next = run(prices@, *config, last_ok + 1, last_ok + 1, 0, None, last_ok + 2);
                assert(closed@ == segment(prices@, start as int, last_ok as int));
                assert(rest == seq![closed@] + next);
                assert(trends_of(segments@.push(closed)) =~= trends_of(segments@).push(closed@));
                assert(trends_of(segments@).push(closed@) + next =~= trends_of(segments@) + (seq![closed@]
                    + next));
            }
            segments.push(closed);
            start = last_ok + 1;
            last_ok = start;
            outliers = 0;
            reference = None;
            i = start + 1;
        }
    }
    let line: TrendLine = match fit_window(prices, start, n - 1) {
        Some(l) => l,
        None => {
            return Err(TrendError::Overflow);
        },
    };
    let closed = TrendSegment { start_index: start, end_index: n - 1, line };
    proof {
        assert(closed@ == segment(prices@, start as int, n - 1));
        assert(trends_of(segments@.push(closed)) =~= trends_of(segments@) + seq![closed@]);
        lemma_segments_partition(prices@, *config);
    }
    segments.push(closed);
    Ok(segments)
}

/// What `break_down_trends` owes its caller: the error of the choice of
/// thresholds if it has one, else what `segment_trends` owes under the
/// chosen thresholds.
pub open spec fn break_down_result(
    prices: Seq<i64>,
    config: Option<&str>,
    custom: CustomParts,
    r: Result<Vec<TrendSegment>, TrendError>,
) -> bool {
    match selection(named_preset(config), custom) {
        Err(e) => r is Err && r->Err_0 == e,
        Ok(choice) => match choice.resolved() {
            Err(e) => r is Err && r->Err_0 == e,
            Ok(thresholds) => segments_result(prices, thresholds, r),
        },
    }
}

/// Whatever the prices are, a preset's name together with any custom
/// value fails with `InvalidConfiguration`, and so do custom values short of
/// all nine without a name.
pub proof fn lemma_mixed_or_partial_choice_fails(
    prices: Seq<i64>,
    config: Option<&str>,
    custom: CustomParts,
    r: Result<Vec<TrendSegment>, TrendError>,
)
    requires
        break_down_result(prices, config, custom, r),
        (config is Some && !custom.none_given()) || (config is None && !custom.all_given()),
    ensures
        r is Err,
        r->Err_0 == TrendError::InvalidConfiguration,
{
}

/// Breaks a series down into consecutive trend segments. The thresholds
/// are chosen by a preset's name or by all nine custom values, never both.
pub fn break_down_trends(prices: &[i64], config: Option<&str>, custom: &CustomParts) -> (r: Result<
    Vec<TrendSegment>,
    TrendError,
>)
    ensures
        break_down_result(prices@, config, *custom, r),
{
    match select_config(config, custom) {
        Err(e) => Err(e),
        Ok(choice) => match choice.resolve() {
            Err(e) => Err(e),
            Ok(thresholds) => segment_trends(prices, &thresholds),
        },
    }
}

} // verus!
