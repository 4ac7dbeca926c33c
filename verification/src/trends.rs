use vstd::prelude::*;
use crate::error::TrendError;
use crate::extrema::{ascending, extrema_of, peaks, valleys, Extremum};
use crate::regression::{
    fit_window, lemma_spread_is_positive, line_fits, line_of, line_through, window_points, Point, TrendLine,
};

verus! {

/// What the trend functions owe their callers once the points are found:
/// `Overflow` where the line through them does not fit in 128 bits, else
/// the least-squares line through them.
pub open spec fn line_result(ps: Seq<Point>, r: Result<TrendLine, TrendError>) -> bool {
    if !line_fits(ps) {
        r == Err::<TrendLine, TrendError>(TrendError::Overflow)
    } else {
        r is Ok && r->Ok_0.triple() == line_through(ps) && r->Ok_0.wf()
    }
}

/// What `overall_trend` owes its caller.
pub open spec fn overall_result(prices: Seq<i64>, r: Result<TrendLine, TrendError>) -> bool {
    if prices.len() == 0 {
        r == Err::<TrendLine, TrendError>(TrendError::InvalidInput)
    } else if prices.len() < 2 {
        r == Err::<TrendLine, TrendError>(TrendError::InsufficientData)
    } else {
        line_result(window_points(prices, 0, prices.len() as int), r)
    }
}

/// The least-squares line through all prices of a series. Fails with
/// `InvalidInput` on an empty series, with `InsufficientData` on a single
/// price, and with `Overflow` where the line does not fit in 128 bits.
pub fn overall_trend(prices: &[i64]) -> (r: Result<TrendLine, TrendError>)
    ensures
        overall_result(prices@, r),
{
    let n: usize = prices.len();
    if n == 0 {
        return Err(TrendError::InvalidInput);
    }
    if n < 2 {
        return Err(TrendError::InsufficientData);
    }
    match fit_window(prices, 0, n - 1) {
        Some(line) => Ok(line),
        None => Err(TrendError::Overflow),
    }
}

/// The extrema as points to fit a line through.
pub open spec fn extremum_points(extrema: Seq<Extremum>) -> Seq<Point> {
    Seq::new(extrema.len(), |k: int| Point { index: extrema[k].index, value: extrema[k].value })
}

/// What `peak_trend` and `valley_trend` owe their callers. The extrema are
/// those that the detector reports with a distance of 1, which merges
/// none.
pub open spec fn extremum_trend_result(
    prices: Seq<i64>,
    period: usize,
    high: bool,
    r: Result<TrendLine, TrendError>,
) -> bool {
    if period == 0 || prices.len() == 0 {
        r == Err::<TrendLine, TrendError>(TrendError::InvalidInput)
    } else if extrema_of(prices, period as int, 1, high).len() < 2 {
        r == Err::<TrendLine, TrendError>(TrendError::InsufficientData)
    } else {
        line_result(extremum_points(extrema_of(prices, period as int, 1, high)), r)
    }
}

fn extremum_trend(prices: &[i64], period: usize, high: bool) -> (r: Result<TrendLine, TrendError>)
    ensures
        extremum_trend_result(prices@, period, high, r),
{
    if period == 0 || prices.len() == 0 {
        return Err(TrendError::InvalidInput);
    }
    let found = if high {
        peaks(prices, period, 1)
    } else {
        valleys(prices, period, 1)
    };
    let extrema: Vec<Extremum> = match found {
        Ok(v) => v,
        Err(e) => {
            return Err(e);
        },
    };
    let m: usize = extrema.len();
    if m < 2 {
        return Err(TrendError::InsufficientData);
    }
    let mut points: Vec<Point> = Vec::new();
    let mut k: usize = 0;
    while k < m
        invariant
            k <= m,
            m == extrema@.len(),
            points@ == extremum_points(extrema@.take(k as int)),
        decreases m - k,
    {
        points.push(Point { index: extrema[k].index, value: extrema[k].value });
        proof {
            assert(points@ =~= extremum_points(extrema@.take(k + 1)));
        }
        k += 1;
    }
    proof {
        assert(extrema@.take(m as int) =~= extrema@);
        assert(ascending(extrema@));
        lemma_spread_is_positive(points@);
    }
    match line_of(points.as_slice()) {
        Some(line) => Ok(line),
        None => Err(TrendError::Overflow),
    }
}

/// The least-squares line through the peaks of a series, found with the
/// given `period`. Fails with `InvalidInput` on a `period` of zero or an
/// empty series, with `InsufficientData` on fewer than two peaks, and with
/// `Overflow` where the line does not fit in 128 bits.
pub fn peak_trend(prices: &[i64], period: usize) -> (r: Result<TrendLine, TrendError>)
    ensures
        extremum_trend_result(prices@, period, true, r),
{
    extremum_trend(prices, period, true)
}

/// The least-squares line through the valleys of a series, as `peak_trend`
/// fits it through the peaks.
pub fn valley_trend(prices: &[i64], period: usize) -> (r: Result<TrendLine, TrendError>)
    ensures
        extremum_trend_result(prices@, period, false, r),
{
    extremum_trend(prices, period, false)
}

} // verus!
