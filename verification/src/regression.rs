use vstd::prelude::*;
use crate::error::TrendError;
use crate::ratio::fits;

verus! {

/// One observation: the price at an index of the series.
#[derive(Clone, Copy, Debug, PartialEq, Eq, Structural)]
pub struct Point {
    pub index: usize,
    pub value: i64,
}

/// The line `value = (slope_num * index + intercept_num) / den`.
#[derive(Clone, Copy, Debug, PartialEq, Eq, Structural)]
pub struct TrendLine {
    pub slope_num: i128,
    pub intercept_num: i128,
    pub den: i128,
}

impl TrendLine {
    /// A line has a positive denominator.
    pub open spec fn wf(self) -> bool {
        self.den > 0
    }

    /// The numerators of slope and intercept, and the denominator.
    pub open spec fn triple(self) -> (int, int, int) {
        (self.slope_num as int, self.intercept_num as int, self.den as int)
    }
}

/// The sum of the indices.
pub open spec fn sum_x(ps: Seq<Point>) -> int
    decreases ps.len(),
{
    if ps.len() == 0 {
        0
    } else {
        sum_x(ps.drop_last()) + ps.last().index
    }
}

/// The sum of the prices.
pub open spec fn sum_y(ps: Seq<Point>) -> int
    decreases ps.len(),
{
    if ps.len() == 0 {
        0
    } else {
        sum_y(ps.drop_last()) + ps.last().value
    }
}

/// The sum of the squared indices.
pub open spec fn sum_xx(ps: Seq<Point>) -> int
    decreases ps.len(),
{
    if ps.len() == 0 {
        0
    } else {
        sum_xx(ps.drop_last()) + ps.last().index * ps.last().index
    }
}

/// The sum of the products of index and price.
pub open spec fn sum_xy(ps: Seq<Point>) -> int
    decreases ps.len(),
{
    if ps.len() == 0 {
        0
    } else {
        sum_xy(ps.drop_last()) + ps.last().index * ps.last().value
    }
}

/// `n` squared times the variance of the indices: zero exactly when the
/// points share one index.
pub open spec fn index_spread(ps: Seq<Point>) -> int {
    ps.len() * sum_xx(ps) - sum_x(ps) * sum_x(ps)
}

/// `n` squared times the covariance of index and price.
pub open spec fn co_spread(ps: Seq<Point>) -> int {
    ps.len() * sum_xy(ps) - sum_x(ps) * sum_y(ps)
}

/// The numerator of the least-squares intercept over `index_spread`.
pub open spec fn intercept_over_spread(ps: Seq<Point>) -> int {
    sum_y(ps) * sum_xx(ps) - sum_x(ps) * sum_xy(ps)
}

/// The least-squares line through the points: slope `co_spread /
/// index_spread`, the ratio of covariance to variance, and the intercept that
/// puts the line through the mean point. One point alone gives the
/// horizontal line through it.
pub open spec fn line_through(ps: Seq<Point>) -> (int, int, int) {
    if ps.len() == 1 {
        (0, ps[0].value as int, 1)
    } else {
        (co_spread(ps), intercept_over_spread(ps), index_spread(ps))
    }
}

/// Every product of a point's index with itself and with its price fits.
pub open spec fn terms_fit(ps: Seq<Point>) -> bool {
    forall|j: int|
        0 <= j < ps.len() ==> fits((#[trigger] ps[j]).index * ps[j].index) && fits(ps[j].index * ps[j].value)
}

/// Every sum over the first points fits, however many are taken.
pub open spec fn sums_fit(ps: Seq<Point>) -> bool {
    forall|k: int|
        0 <= k <= ps.len() ==> {
            &&& fits(sum_x(#[trigger] ps.take(k)))
            &&& fits(sum_y(ps.take(k)))
            &&& fits(sum_xx(ps.take(k)))
            &&& fits(sum_xy(ps.take(k)))
        }
}

/// Every value that the line through two or more points is formed from
/// fits in 128 bits: the terms, the sums as they grow, the six products of
/// the sums, and the three numbers of the line. One point needs none of
/// them.
pub open spec fn line_fits(ps: Seq<Point>) -> bool {
    ps.len() <= 1 || {
        &&& terms_fit(ps)
        &&& sums_fit(ps)
        &&& fits(ps.len() * sum_xx(ps))
        &&& fits(sum_x(ps) * sum_x(ps))
        &&& fits(ps.len() * sum_xy(ps))
        &&& fits(sum_x(ps) * sum_y(ps))
        &&& fits(sum_y(ps) * sum_xx(ps))
        &&& fits(sum_x(ps) * sum_xy(ps))
        &&& fits(index_spread(ps))
        &&& fits(co_spread(ps))
        &&& fits(intercept_over_spread(ps))
    }
}

/// Which points have no line: none at all; those whose line does not fit
/// in 128 bits; and two or more that all stand on one index.
pub open spec fn fit_error(ps: Seq<Point>) -> Option<TrendError> {
    if ps.len() == 0 {
        Some(TrendError::InvalidInput)
    } else if !line_fits(ps) {
        Some(TrendError::Overflow)
    } else if ps.len() >= 2 && share_one_index(ps) {
        Some(TrendError::InsufficientData)
    } else {
        None
    }
}

/// What `fit_line` owes its caller.
pub open spec fn fit_result(ps: Seq<Point>, r: Result<TrendLine, TrendError>) -> bool {
    match fit_error(ps) {
        Some(e) => r == Err::<TrendLine, TrendError>(e),
        None => {
            &&& r is Ok
            &&& r->Ok_0.wf()
            &&& r->Ok_0.triple() == line_through(ps)
        },
    }
}

/// The indices ascend strictly along the points.
pub open spec fn indices_ascend(ps: Seq<Point>) -> bool {
    forall|i: int, j: int| 0 <= i < j < ps.len() ==> ps[i].index < ps[j].index
}

/// The sum of the squared distances of the indices from `x`.
spec fn distance_sum(ps: Seq<Point>, x: int) -> int {
    sum_xx(ps) - 2 * x * sum_x(ps) + ps.len() * (x * x)
}

/// Every point stands on index `x`.
spec fn all_on(ps: Seq<Point>, x: int) -> bool {
    forall|i: int| 0 <= i < ps.len() ==> (#[trigger] ps[i]).index == x
}

/// The points all stand on one index.
pub open spec fn share_one_index(ps: Seq<Point>) -> bool {
    forall|i: int, j: int| 0 <= i < ps.len() && 0 <= j < ps.len() ==> ps[i].index == ps[j].index
}

proof fn lemma_distance_sum(ps: Seq<Point>, x: int)
    ensures
        distance_sum(ps, x) >= 0,
        ps.len() > 0 && ps.last().index != x ==> distance_sum(ps, x) > 0,
        (distance_sum(ps, x) == 0) == all_on(ps, x),
    decreases ps.len(),
{
    if ps.len() > 0 {
        let rest = ps.drop_last();
        let t = ps.last().index as int;
        lemma_distance_sum(rest, x);
        assert(distance_sum(ps, x) == distance_sum(rest, x) + (t - x) * (t - x)) by (nonlinear_arith)
            requires
                sum_xx(ps) == sum_xx(rest) + t * t,
                sum_x(ps) == sum_x(rest) + t,
                ps.len() == rest.len() + 1,
                distance_sum(ps, x) == sum_xx(ps) - 2 * x * sum_x(ps) + ps.len() * (x * x),
                distance_sum(rest, x) == sum_xx(rest) - 2 * x * sum_x(rest) + rest.len() * (x * x),
        ;
        assert((t - x) * (t - x) >= 0) by (nonlinear_arith);
        if t != x {
            assert((t - x) * (t - x) > 0) by (nonlinear_arith)
                requires
                    t != x,
            ;
        }
        if all_on(rest, x) && t == x {
            assert forall|i: int| 0 <= i < ps.len() implies (#[trigger] ps[i]).index == x by {
                if i < rest.len() {
                    assert(rest[i] == ps[i]);
                }
            }
        }
        if all_on(ps, x) {
            assert(ps[ps.len() - 1].index == x);
            assert forall|i: int| 0 <= i < rest.len() implies (#[trigger] rest[i]).index == x by {
                assert(rest[i] == ps[i]);
            }
        }
    } else {
        assert(ps.len() * (x * x) == 0) by (nonlinear_arith)
            requires
                ps.len() == 0,
        ;
        assert(2 * x * 0 == 0);
    }
}

/// The spread of the indices is never negative, and positive for two or
/// more points on ascending indices: such points always have a line.
pub proof fn lemma_spread_is_positive(ps: Seq<Point>)
    ensures
        index_spread(ps) >= 0,
        ps.len() >= 2 && indices_ascend(ps) ==> index_spread(ps) > 0,
    decreases ps.len(),
{
    if ps.len() > 0 {
        let rest = ps.drop_last();
        let t = ps.last().index as int;
        lemma_spread_is_positive(rest);
        lemma_distance_sum(rest, t);
        assert(index_spread(ps) == index_spread(rest) + distance_sum(rest, t)) by (nonlinear_arith)
            requires
                sum_xx(ps) == sum_xx(rest) + t * t,
                sum_x(ps) == sum_x(rest) + t,
                ps.len() == rest.len() + 1,
                index_spread(ps) == ps.len() * sum_xx(ps) - sum_x(ps) * sum_x(ps),
                index_spread(rest) == rest.len() * sum_xx(rest) - sum_x(rest) * sum_x(rest),
                distance_sum(rest, t) == sum_xx(rest) - 2 * t * sum_x(rest) + rest.len() * (t * t),
        ;
        if ps.len() >= 2 && indices_ascend(ps) {
            assert(rest.last() == ps[ps.len() - 2]);
            assert(ps.last() == ps[ps.len() - 1]);
        }
    } else {
        assert(ps.len() * sum_xx(ps) == 0) by (nonlinear_arith)
            requires
                ps.len() == 0,
        ;
    }
}

/// The spread of the indices is zero exactly when the points all stand on
/// one index: only then do two or more points whose sums fit have no line.
pub proof fn lemma_spread_is_zero_on_one_index(ps: Seq<Point>)
    ensures
        index_spread(ps) >= 0,
        (index_spread(ps) == 0) == share_one_index(ps),
    decreases ps.len(),
{
    if ps.len() > 0 {
        let rest = ps.drop_last();
        let t = ps.last().index as int;
        lemma_spread_is_zero_on_one_index(rest);
        lemma_distance_sum(rest, t);
        assert(index_spread(ps) == index_spread(rest) + distance_sum(rest, t)) by (nonlinear_arith)
            requires
                sum_xx(ps) == sum_xx(rest) + t * t,
                sum_x(ps) == sum_x(rest) + t,
                ps.len() == rest.len() + 1,
                index_spread(ps) == ps.len() * sum_xx(ps) - sum_x(ps) * sum_x(ps),
                index_spread(rest) == rest.len() * sum_xx(rest) - sum_x(rest) * sum_x(rest),
                distance_sum(rest, t) == sum_xx(rest) - 2 * t * sum_x(rest) + rest.len() * (t * t),
        ;
        assert(ps[ps.len() - 1].index == t);
        if share_one_index(ps) {
            assert forall|i: int| 0 <= i < rest.len() implies (#[trigger] rest[i]).index == t by {
                assert(rest[i] == ps[i]);
            }
            assert forall|i: int, j: int| 0 <= i < rest.len() && 0 <= j < rest.len() implies rest[i].index
                == rest[j].index by {
                assert(rest[i] == ps[i] && rest[j] == ps[j]);
            }
        }
        if index_spread(ps) == 0 {
            assert(all_on(rest, t));
            assert forall|i: int, j: int| 0 <= i < ps.len() && 0 <= j < ps.len() implies ps[i].index
                == ps[j].index by {
                if i < rest.len() {
                    assert(rest[i] == ps[i]);
                }
                if j < rest.len() {
                    assert(rest[j] == ps[j]);
                }
            }
        }
    } else {
        assert(ps.len() * sum_xx(ps) == 0) by (nonlinear_arith)
            requires
                ps.len() == 0,
        ;
    }
}

/// The points of `len` consecutive prices from index `start` on.
pub open spec fn window_points(prices: Seq<i64>, start: int, len: int) -> Seq<Point> {
    Seq::new(len as nat, |k: int| Point { index: (start + k) as usize, value: prices[start + k] })
}

/// The least-squares line through two or more points, if it fits.
fn least_squares(points: &[Point]) -> (r: Option<TrendLine>)
    requires
        points@.len() >= 2,
    ensures
        r is Some == line_fits(points@),
        r is Some ==> r->Some_0.triple() == line_through(points@),
{
    let n: usize = points.len();
    let mut sx: i128 = 0;
    let mut sy: i128 = 0;
    let mut sxx: i128 = 0;
    let mut sxy: i128 = 0;
    let mut k: usize = 0;
    while k < n
        invariant
            k <= n,
            n == points@.len(),
            n >= 2,
            sx == sum_x(points@.take(k as int)),
            sy == sum_y(points@.take(k as int)),
            sxx == sum_xx(points@.take(k as int)),
            sxy == sum_xy(points@.take(k as int)),
            forall|j: int|
                0 <= j <= k ==> {
                    &&& fits(sum_x(#[trigger] points@.take(j)))
                    &&& fits(sum_y(points@.take(j)))
                    &&& fits(sum_xx(points@.take(j)))
                    &&& fits(sum_xy(points@.take(j)))
                },
            forall|j: int|
                0 <= j < k ==> fits((#[trigger] points@[j]).index * points@[j].index) && fits(
                    points@[j].index * points@[j].value,
                ),
        decreases n - k,
    {
        let p = points[k];
        let x: i128 = p.index as i128;
        let y: i128 = p.value as i128;
        proof {
            assert(points@.take(k + 1).drop_last() =~= points@.take(k as int));
            assert(points@.take(k + 1).last() == p);
        }
        let xx: i128 = match x.checked_mul(x) {
            Some(v) => v,
            None => {
                return None;
            },
        };
        let xy: i128 = match x.checked_mul(y) {
            Some(v) => v,
            None => {
                return None;
            },
        };
        let next_x: Option<i128> = sx.checked_add(x);
        let next_y: Option<i128> = sy.checked_add(y);
        let next_xx: Option<i128> = sxx.checked_add(xx);
        let next_xy: Option<i128> = sxy.checked_add(xy);
        match (next_x, next_y, next_xx, next_xy) {
            (Some(a), Some(b), Some(c), Some(d)) => {
                sx = a;
                sy = b;
                sxx = c;
                sxy = d;
            },
            _ => {
                return None;
            },
        }
        k += 1;
    }
    proof {
        assert(points@.take(n as int) =~= points@);
    }
    let count: i128 = n as i128;
    let a: Option<i128> = count.checked_mul(sxx);
    let b: Option<i128> = sx.checked_mul(sx);
    let c: Option<i128> = count.checked_mul(sxy);
    let d: Option<i128> = sx.checked_mul(sy);
    let e: Option<i128> = sy.checked_mul(sxx);
    let f: Option<i128> = sx.checked_mul(sxy);
    match (a, b, c, d, e, f) {
        (Some(a), Some(b), Some(c), Some(d), Some(e), Some(f)) => {
            match (a.checked_sub(b), c.checked_sub(d), e.checked_sub(f)) {
                (Some(den), Some(slope_num), Some(intercept_num)) => Some(
                    TrendLine { slope_num, intercept_num, den },
                ),
                _ => None,
            }
        },
        _ => None,
    }
}

/// The least-squares line through one or more points, if it fits.
pub(crate) fn line_of(points: &[Point]) -> (r: Option<TrendLine>)
    requires
        points@.len() >= 1,
    ensures
        r is Some == line_fits(points@),
        r is Some ==> r->Some_0.triple() == line_through(points@),
{
    if points.len() == 1 {
        Some(TrendLine { slope_num: 0, intercept_num: points[0].value as i128, den: 1 })
    } else {
        least_squares(points)
    }
}

/// Fits the least-squares line through `points`. Fails with `InvalidInput`
/// on no points, with `Overflow` where the line does not fit in 128 bits,
/// and with `InsufficientData` when two or more points all stand on one
/// index.
pub fn fit_line(points: &[Point]) -> (r: Result<TrendLine, TrendError>)
    ensures
        fit_result(points@, r),
{
    if points.len() == 0 {
        return Err(TrendError::InvalidInput);
    }
    match line_of(points) {
        None => Err(TrendError::Overflow),
        Some(line) => {
            proof {
                lemma_spread_is_zero_on_one_index(points@);
            }
            if line.den <= 0 {
                Err(TrendError::InsufficientData)
            } else {
                Ok(line)
            }
        },
    }
}

/// The least-squares line through the prices from `start` to `end`, both
/// included, if it fits.
pub(crate) fn fit_window(prices: &[i64], start: usize, end: usize) -> (r: Option<TrendLine>)
    requires
        start <= end < prices@.len(),
    ensures
        r is Some == line_fits(window_points(prices@, start as int, end - start + 1)),
        r is Some ==> r->Some_0.triple() == line_through(window_points(prices@, start as int, end - start + 1))
            && r->Some_0.wf(),
{
    let mut points: Vec<Point> = Vec::new();
    let mut i: usize = start;
    while i <= end
        invariant
            start <= i <= end + 1,
            end < prices@.len(),
            points@ == window_points(prices@, start as int, i - start),
        decreases end + 1 - i,
    {
        points.push(Point { index: i, value: prices[i] });
        proof {
            assert(points@ =~= window_points(prices@, start as int, i + 1 - start));
        }
        i += 1;
    }
    proof {
        lemma_spread_is_positive(points@);
    }
    line_of(points.as_slice())
}

} // verus!
