use vstd::prelude::*;
use crate::quality::{
    lemma_short_window_is_perfect, lever, lever_sum, perfect, price_sum, residual, rough_sum, roughness, spread,
    spread_sum, square_sum,
};
use crate::regression::{
    co_spread, index_spread, intercept_over_spread, lemma_spread_is_positive, sum_x, sum_xx, sum_xy, sum_y,
    window_points, Point,
};

verus! {

/// The normal equations of least squares, over the five sums of the
/// points: the residuals sum to zero, and so do their products with the
/// indices.
proof fn lemma_normal_equations(n: int, sx: int, sy: int, sxx: int, sxy: int)
    ensures
        ({
            let d = n * sxx - sx * sx;
            let c = n * sxy - sx * sy;
            let i = sy * sxx - sx * sxy;
            &&& c * sxx + i * sx == d * sxy
            &&& c * sx + n * i == d * sy
        }),
{
    let d = n * sxx - sx * sx;
    let c = n * sxy - sx * sy;
    let i = sy * sxx - sx * sxy;
    assert(c * sxx == n * (sxy * sxx) - sx * (sy * sxx)) by (nonlinear_arith)
        requires
            c == n * sxy - sx * sy,
    ;
    assert(i * sx == sx * (sy * sxx) - (sx * sx) * sxy) by (nonlinear_arith)
        requires
            i == sy * sxx - sx * sxy,
    ;
    assert(d * sxy == n * (sxy * sxx) - (sx * sx) * sxy) by (nonlinear_arith)
        requires
            d == n * sxx - sx * sx,
    ;
    assert(c * sx == n * (sxy * sx) - (sx * sx) * sy) by (nonlinear_arith)
        requires
            c == n * sxy - sx * sy,
    ;
    assert(n * i == n * (sy * sxx) - n * (sxy * sx)) by (nonlinear_arith)
        requires
            i == sy * sxx - sx * sxy,
    ;
    assert(d * sy == n * (sy * sxx) - (sx * sx) * sy) by (nonlinear_arith)
        requires
            d == n * sxx - sx * sx,
    ;
}

/// With the normal equations, the sum of the squared residuals times `n`
/// is the spread of the indices times what the prices vary by more than
/// the line explains.
proof fn lemma_residual_algebra(n: int, sx: int, sy: int, sxx: int, sxy: int, syy: int, r2: int)
    requires
        ({
            let d = n * sxx - sx * sx;
            let c = n * sxy - sx * sy;
            let i = sy * sxx - sx * sxy;
            r2 == (d * d) * syy + (c * c) * sxx + n * (i * i) - 2 * ((d * c) * sxy) - 2 * ((d * i) * sy) + 2 * ((c
                * i) * sx)
        }),
    ensures
        ({
            let d = n * sxx - sx * sx;
            let c = n * sxy - sx * sy;
            let t = n * syy - sy * sy;
            n * r2 == d * (t * d - c * c)
        }),
{
    let d = n * sxx - sx * sx;
    let c = n * sxy - sx * sy;
    let i = sy * sxx - sx * sxy;
    let t = n * syy - sy * sy;
    lemma_normal_equations(n, sx, sy, sxx, sxy);
    assert((c * c) * sxx + (c * i) * sx == c * (d * sxy)) by (nonlinear_arith)
        requires
            c * sxx + i * sx == d * sxy,
    ;
    assert((c * i) * sx + n * (i * i) == i * (d * sy)) by (nonlinear_arith)
        requires
            c * sx + n * i == d * sy,
    ;
    assert(c * (d * sxy) == (d * c) * sxy) by (nonlinear_arith);
    assert(i * (d * sy) == (d * i) * sy) by (nonlinear_arith);
    let ga = d * syy;
    let gb = c * sxy;
    let gc = i * sy;
    let g = ga - gb - gc;
    assert(d * g == d * ga - d * gb - d * gc) by (nonlinear_arith)
        requires
            g == ga - gb - gc,
    ;
    assert(d * ga == (d * d) * syy) by (nonlinear_arith)
        requires
            ga == d * syy,
    ;
    assert(d * gb == (d * c) * sxy) by (nonlinear_arith)
        requires
            gb == c * sxy,
    ;
    assert(d * gc == (d * i) * sy) by (nonlinear_arith)
        requires
            gc == i * sy,
    ;
    assert(r2 == d * g);
    assert(n * g == n * ga - n * gb - n * gc) by (nonlinear_arith)
        requires
            g == ga - gb - gc,
    ;
    assert(n * ga == d * (n * syy)) by (nonlinear_arith)
        requires
            ga == d * syy,
    ;
    assert(n * gb == c * (n * sxy)) by (nonlinear_arith)
        requires
            gb == c * sxy,
    ;
    assert(n * gc == (n * i) * sy) by (nonlinear_arith)
        requires
            gc == i * sy,
    ;
    assert((n * i) * sy == d * (sy * sy) - c * (sx * sy)) by (nonlinear_arith)
        requires
            n * i == d * sy - c * sx,
    ;
    assert(t * d == d * (n * syy) - d * (sy * sy)) by (nonlinear_arith)
        requires
            t == n * syy - sy * sy,
    ;
    assert(c * c == c * (n * sxy) - c * (sx * sy)) by (nonlinear_arith)
        requires
            c == n * sxy - sx * sy,
    ;
    assert(n * g == t * d - c * c);
    assert(n * r2 == d * (t * d - c * c)) by (nonlinear_arith)
        requires
            r2 == d * g,
            n * g == t * d - c * c,
    ;
}

/// The sum of the squared prices.
pub open spec fn sum_yy(ps: Seq<Point>) -> int
    decreases ps.len(),
{
    if ps.len() == 0 {
        0
    } else {
        sum_yy(ps.drop_last()) + ps.last().value * ps.last().value
    }
}

/// `n` squared times the variance of the prices.
pub open spec fn price_spread(ps: Seq<Point>) -> int {
    ps.len() * sum_yy(ps) - sum_y(ps) * sum_y(ps)
}

/// The residual of point `p` against the least-squares line through `ps`,
/// times the spread of the indices: the price less what the line gives at
/// the index.
pub open spec fn line_residual(ps: Seq<Point>, p: Point) -> int {
    index_spread(ps) * p.value - co_spread(ps) * p.index - intercept_over_spread(ps)
}

/// The sum of the squared residuals of the first `k` points.
pub open spec fn squared_residual_sum(ps: Seq<Point>, k: int) -> int
    decreases k,
{
    if k <= 0 {
        0
    } else {
        squared_residual_sum(ps, k - 1) + line_residual(ps, ps[k - 1]) * line_residual(ps, ps[k - 1])
    }
}

/// The sum of the squared residuals, term by term, over the sums of the
/// first `k` points.
proof fn lemma_squared_residuals_by_sums(ps: Seq<Point>, k: int)
    requires
        0 <= k <= ps.len(),
    ensures
        ({
            let d = index_spread(ps);
            let c = co_spread(ps);
            let i = intercept_over_spread(ps);
            let f = ps.take(k);
            squared_residual_sum(ps, k) == (d * d) * sum_yy(f) + (c * c) * sum_xx(f) + k * (i * i) - 2 * ((d
                * c) * sum_xy(f)) - 2 * ((d * i) * sum_y(f)) + 2 * ((c * i) * sum_x(f))
        }),
    decreases k,
{
    let d = index_spread(ps);
    let c = co_spread(ps);
    let i = intercept_over_spread(ps);
    if k > 0 {
        lemma_squared_residuals_by_sums(ps, k - 1);
        let f = ps.take(k);
        let e = ps.take(k - 1);
        assert(f.drop_last() =~= e);
        assert(f.last() == ps[k - 1]);
        let x = ps[k - 1].index as int;
        let y = ps[k - 1].value as int;
        let r = line_residual(ps, ps[k - 1]);
        let p = d * y;
        let q = c * x;
        assert(r == p - q - i);
        assert(r * r == p * p + q * q + i * i - 2 * (p * q) - 2 * (p * i) + 2 * (q * i)) by (nonlinear_arith)
            requires
                r == p - q - i,
        ;
        assert(p * p == (d * d) * (y * y)) by (nonlinear_arith)
            requires
                p == d * y,
        ;
        assert(q * q == (c * c) * (x * x)) by (nonlinear_arith)
            requires
                q == c * x,
        ;
        assert(p * q == (d * c) * (x * y)) by (nonlinear_arith)
            requires
                p == d * y,
                q == c * x,
        ;
        assert(p * i == (d * i) * y) by (nonlinear_arith)
            requires
                p == d * y,
        ;
        assert(q * i == (c * i) * x) by (nonlinear_arith)
            requires
                q == c * x,
        ;
        assert((d * d) * (sum_yy(e) + y * y) == (d * d) * sum_yy(e) + (d * d) * (y * y)) by (nonlinear_arith);
        assert((c * c) * (sum_xx(e) + x * x) == (c * c) * sum_xx(e) + (c * c) * (x * x)) by (nonlinear_arith);
        assert((d * c) * (sum_xy(e) + x * y) == (d * c) * sum_xy(e) + (d * c) * (x * y)) by (nonlinear_arith);
        assert((d * i) * (sum_y(e) + y) == (d * i) * sum_y(e) + (d * i) * y) by (nonlinear_arith);
        assert((c * i) * (sum_x(e) + x) == (c * i) * sum_x(e) + (c * i) * x) by (nonlinear_arith);
        assert(k * (i * i) == (k - 1) * (i * i) + i * i) by (nonlinear_arith);
    } else {
        let f = ps.take(0);
        assert(f.len() == 0);
        assert((d * d) * 0 == 0);
        assert((c * c) * 0 == 0);
        assert((d * c) * 0 == 0);
        assert((d * i) * 0 == 0);
        assert((c * i) * 0 == 0);
        assert(0 * (i * i) == 0);
    }
}

/// The sum of the squared residuals of the least-squares line is what the
/// variance of the prices exceeds the squared covariance over the variance
/// of the indices by: with `d` for `index_spread`, `n` times the sum is
/// `d * (price_spread * d - co_spread * co_spread)`.
pub proof fn lemma_squared_residuals(ps: Seq<Point>)
    ensures
        ps.len() * squared_residual_sum(ps, ps.len() as int) == index_spread(ps) * (price_spread(ps)
            * index_spread(ps) - co_spread(ps) * co_spread(ps)),
{
    let n = ps.len() as int;
    lemma_squared_residuals_by_sums(ps, n);
    assert(ps.take(n) =~= ps);
    lemma_residual_algebra(
        n,
        sum_x(ps),
        sum_y(ps),
        sum_xx(ps),
        sum_xy(ps),
        sum_yy(ps),
        squared_residual_sum(ps, n),
    );
}

/// The sum of the squared changes of the residual from each of the first
/// `k` points to the next.
pub open spec fn squared_step_sum(ps: Seq<Point>, k: int) -> int
    decreases k,
{
    if k <= 1 {
        0
    } else {
        let t = line_residual(ps, ps[k - 1]) - line_residual(ps, ps[k - 2]);
        squared_step_sum(ps, k - 1) + t * t
    }
}

/// The sum of the first `k` places.
spec fn place_sum(k: int) -> int
    decreases k,
{
    if k <= 0 {
        0
    } else {
        place_sum(k - 1) + (k - 1)
    }
}

/// The sum of the squares of the first `k` places.
spec fn place_square_sum(k: int) -> int
    decreases k,
{
    if k <= 0 {
        0
    } else {
        place_square_sum(k - 1) + (k - 1) * (k - 1)
    }
}

/// The sum over the first `k` places of the place times its price.
spec fn place_price_sum(w: Seq<i64>, k: int) -> int
    decreases k,
{
    if k <= 0 {
        0
    } else {
        place_price_sum(w, k - 1) + (k - 1) * w[k - 1]
    }
}

/// The sums of a window's points by the sums over its places.
proof fn lemma_point_sums(prices: Seq<i64>, start: int, len: int, k: int)
    requires
        0 <= start,
        0 <= k <= len,
        start + len <= prices.len() <= usize::MAX,
    ensures
        ({
            let ps = window_points(prices, start, k);
            let w = prices.subrange(start, start + len);
            &&& sum_x(ps) == k * start + place_sum(k)
            &&& sum_y(ps) == price_sum(w, k)
            &&& sum_xx(ps) == k * (start * start) + 2 * (start * place_sum(k)) + place_square_sum(k)
            &&& sum_xy(ps) == start * price_sum(w, k) + place_price_sum(w, k)
            &&& sum_yy(ps) == square_sum(w, k)
        }),
    decreases k,
{
    let ps = window_points(prices, start, k);
    let w = prices.subrange(start, start + len);
    if k > 0 {
        lemma_point_sums(prices, start, len, k - 1);
        let before = window_points(prices, start, k - 1);
        assert(ps.drop_last() =~= before);
        let j = k - 1;
        let y = w[j] as int;
        assert(ps.last().index == start + j);
        assert(ps.last().value == y);
        let x = start + j;
        assert(x * x == start * start + 2 * (start * j) + j * j) by (nonlinear_arith)
            requires
                x == start + j,
        ;
        assert(x * y == start * y + j * y) by (nonlinear_arith)
            requires
                x == start + j,
        ;
        assert(k * (start * start) == j * (start * start) + start * start) by (nonlinear_arith)
            requires
                k == j + 1,
        ;
        assert(k * start == j * start + start) by (nonlinear_arith)
            requires
                k == j + 1,
        ;
        assert(start * (place_sum(j) + j) == start * place_sum(j) + start * j) by (nonlinear_arith);
        assert(start * (price_sum(w, j) + y) == start * price_sum(w, j) + start * y) by (nonlinear_arith);
    } else {
        assert(0 * start == 0);
        assert(0 * (start * start) == 0);
        assert(start * 0 == 0);
    }
}

/// The centred sums of a window by the sums over its places.
proof fn lemma_centred_sums(w: Seq<i64>, k: int)
    requires
        0 <= k <= w.len(),
    ensures
        2 * place_sum(k) == k * (k - 1),
        spread_sum(w.len() as int, k) == 4 * place_square_sum(k) - 4 * ((w.len() - 1) * place_sum(k)) + k * ((
            w.len() - 1) * (w.len() - 1)),
        lever_sum(w, k) == 2 * place_price_sum(w, k) - (w.len() - 1) * price_sum(w, k),
    decreases k,
{
    let m = w.len() - 1;
    if k > 0 {
        lemma_centred_sums(w, k - 1);
        let j = k - 1;
        let y = w[j] as int;
        let u = 2 * j - m;
        assert(k * (k - 1) == j * (j - 1) + 2 * j) by (nonlinear_arith)
            requires
                k == j + 1,
        ;
        assert(u * u == 4 * (j * j) - 4 * (m * j) + m * m) by (nonlinear_arith)
            requires
                u == 2 * j - m,
        ;
        assert(u * y == 2 * (j * y) - m * y) by (nonlinear_arith)
            requires
                u == 2 * j - m,
        ;
        assert(m * (place_sum(j) + j) == m * place_sum(j) + m * j) by (nonlinear_arith);
        assert(m * (price_sum(w, j) + y) == m * price_sum(w, j) + m * y) by (nonlinear_arith);
        assert(k * (m * m) == j * (m * m) + m * m) by (nonlinear_arith)
            requires
                k == j + 1,
        ;
    } else {
        assert(0 * (0 - 1) == 0);
        assert(m * 0 == 0);
        assert(0 * (m * m) == 0);
    }
}

/// The statistics of a window are those of the residuals of its
/// least-squares line. With `ps` for the points of the window, `w` for its
/// prices and `d` for the spread of the indices of `ps`:
/// the slope `co_spread / d` is `2 * lever / spread`;
/// the sum of the squared residuals, which `squared_residual_sum` holds
/// times `d * d`, is `residual / (len * spread)`;
/// and the sum of the squared changes of the residual, which
/// `squared_step_sum` holds times `d * d`, is `roughness / (len * spread *
/// spread)`.
pub proof fn lemma_statistics_are_of_the_line(prices: Seq<i64>, start: int, len: int)
    requires
        0 <= start,
        0 < len,
        start + len <= prices.len() <= usize::MAX,
    ensures
        ({
            let ps = window_points(prices, start, len);
            let w = prices.subrange(start, start + len);
            &&& 4 * index_spread(ps) == len * spread(w)
            &&& 2 * co_spread(ps) == len * lever(w)
            &&& 4 * squared_residual_sum(ps, len) == index_spread(ps) * residual(w)
            &&& 16 * squared_step_sum(ps, len) == len * roughness(w)
        }),
{
    let ps = window_points(prices, start, len);
    let w = prices.subrange(start, start + len);
    let n = len;
    assert(w.len() == n);
    lemma_point_sums(prices, start, len, len);
    lemma_centred_sums(w, len);
    let a = start;
    let j1 = place_sum(n);
    let j2 = place_square_sum(n);
    let jy = place_price_sum(w, n);
    let sy = price_sum(w, n);
    let d = index_spread(ps);
    let c = co_spread(ps);
    let u = spread(w);
    let l = lever(w);
    let m = n - 1;
    // The spread of the indices does not depend on where the window begins.
    let sx = n * a + j1;
    let sxx = n * (a * a) + 2 * (a * j1) + j2;
    assert(n * sxx == n * (n * (a * a)) + 2 * (n * (a * j1)) + n * j2) by (nonlinear_arith)
        requires
            sxx == n * (a * a) + 2 * (a * j1) + j2,
    ;
    assert(sx * sx == n * (n * (a * a)) + 2 * (n * (a * j1)) + j1 * j1) by (nonlinear_arith)
        requires
            sx == n * a + j1,
    ;
    assert(d == n * j2 - j1 * j1);
    assert(n * m == 2 * j1) by (nonlinear_arith)
        requires
            2 * j1 == n * (n - 1),
            m == n - 1,
    ;
    assert(n * (m * j1) == 2 * (j1 * j1)) by (nonlinear_arith)
        requires
            n * m == 2 * j1,
    ;
    assert(n * (n * (m * m)) == 4 * (j1 * j1)) by (nonlinear_arith)
        requires
            n * m == 2 * j1,
    ;
    assert(n * u == 4 * (n * j2) - 4 * (n * (m * j1)) + n * (n * (m * m))) by (nonlinear_arith)
        requires
            u == 4 * j2 - 4 * (m * j1) + n * (m * m),
    ;
    assert(4 * d == n * u);
    // Nor does the covariance.
    let sxy = a * sy + jy;
    assert(n * sxy == n * (a * sy) + n * jy) by (nonlinear_arith)
        requires
            sxy == a * sy + jy,
    ;
    assert(sx * sy == n * (a * sy) + j1 * sy) by (nonlinear_arith)
        requires
            sx == n * a + j1,
    ;
    assert(c == n * jy - j1 * sy);
    assert(n * l == 2 * (n * jy) - (n * m) * sy) by (nonlinear_arith)
        requires
            l == 2 * jy - m * sy,
    ;
    assert((n * m) * sy == 2 * (j1 * sy)) by (nonlinear_arith)
        requires
            n * m == 2 * j1,
    ;
    assert(2 * c == n * l);
    // The squared residuals.
    lemma_squared_residuals(ps);
    let r2 = squared_residual_sum(ps, n);
    let t = n * square_sum(w, n) - sy * sy;
    assert(price_spread(ps) == t);
    let e = t * d - c * c;
    assert(n * r2 == d * e);
    assert(residual(w) == t * u - n * (l * l));
    assert(4 * e == n * residual(w)) by {
        assert(t * (n * u) == n * (t * u)) by (nonlinear_arith);
        assert(4 * (t * d) == t * (4 * d)) by (nonlinear_arith);
        assert((2 * c) * (2 * c) == 4 * (c * c)) by (nonlinear_arith);
        assert((n * l) * (n * l) == n * (n * (l * l))) by (nonlinear_arith);
        assert(n * (t * u - n * (l * l)) == n * (t * u) - n * (n * (l * l))) by (nonlinear_arith);
    }
    assert(n * (4 * r2) == n * (d * residual(w))) by (nonlinear_arith)
        requires
            n * r2 == d * e,
            4 * e == n * residual(w),
    ;
    assert(4 * r2 == d * residual(w)) by (nonlinear_arith)
        requires
            n * (4 * r2) == n * (d * residual(w)),
            n > 0,
    ;
    // The squared changes of the residual.
    lemma_squared_steps(prices, start, len, len);
    assert(roughness(w) == n * rough_sum(w, n, u, l));
    assert(n * (n * rough_sum(w, n, u, l)) == (n * n) * rough_sum(w, n, u, l)) by (nonlinear_arith);
}

/// The fractions that `quality` gives for a window with residuals are those
/// of its least-squares line: the mean squared error is the sum of the
/// squared residuals over `len`; the Durbin-Watson statistic is the sum of
/// the squared changes of the residual over the sum of the squared
/// residuals; and the residual is to the total sum of squares as the sum of
/// the squared residuals is to the sum of the squared distances of the
/// prices from their mean. Each equation is multiplied out.
pub proof fn lemma_fractions_are_of_the_line(prices: Seq<i64>, start: int, len: int)
    requires
        0 <= start,
        0 < len,
        start + len <= prices.len() <= usize::MAX,
        !perfect(prices.subrange(start, start + len)),
    ensures
        ({
            let ps = window_points(prices, start, len);
            let w = prices.subrange(start, start + len);
            let d = index_spread(ps);
            let squares = squared_residual_sum(ps, len);
            let steps = squared_step_sum(ps, len);
            &&& crate::quality::mean_squared_error(w).0 * (len * (d * d)) == crate::quality::mean_squared_error(
                w,
            ).1 * squares
            &&& crate::quality::durbin_watson(w).0 * squares == crate::quality::durbin_watson(w).1 * steps
            &&& residual(w) * ((d * d) * price_spread(ps)) == crate::quality::total(w) * (len * squares)
        }),
{
    let ps = window_points(prices, start, len);
    let w = prices.subrange(start, start + len);
    let n = len;
    let d = index_spread(ps);
    let r2 = squared_residual_sum(ps, len);
    let st = squared_step_sum(ps, len);
    let u = spread(w);
    let res = residual(w);
    let rough = roughness(w);
    let t = price_spread(ps);
    lemma_statistics_are_of_the_line(prices, start, len);
    lemma_point_sums(prices, start, len, len);
    assert(w.len() == n);
    assert(crate::quality::total(w) == t * u);
    // The mean squared error.
    assert((n * n * u) * r2 == n * ((n * u) * r2)) by (nonlinear_arith);
    assert((n * u) * r2 == d * (4 * r2)) by (nonlinear_arith)
        requires
            4 * d == n * u,
    ;
    assert(d * (d * res) == (d * d) * res) by (nonlinear_arith);
    assert(res * (n * (d * d)) == n * ((d * d) * res)) by (nonlinear_arith);
    // The Durbin-Watson statistic.
    assert(16 * (rough * r2) == (4 * rough) * (4 * r2)) by (nonlinear_arith);
    assert((4 * rough) * (d * res) == (rough * res) * (4 * d)) by (nonlinear_arith);
    assert((rough * res) * (n * u) == (u * res) * (n * rough)) by (nonlinear_arith);
    assert((u * res) * (16 * st) == 16 * ((u * res) * st)) by (nonlinear_arith);
    // The residual against the total.
    assert((t * u) * (n * r2) == t * ((n * u) * r2)) by (nonlinear_arith);
    assert(t * ((d * d) * res) == res * ((d * d) * t)) by (nonlinear_arith);
}

/// Four times the change of the residual from one point of a window to the
/// next is `len` times the term of `rough_sum`.
proof fn lemma_squared_steps(prices: Seq<i64>, start: int, len: int, k: int)
    requires
        0 <= start,
        0 < len,
        0 <= k <= len,
        start + len <= prices.len() <= usize::MAX,
        4 * index_spread(window_points(prices, start, len)) == len * spread(prices.subrange(start, start + len)),
        2 * co_spread(window_points(prices, start, len)) == len * lever(prices.subrange(start, start + len)),
    ensures
        ({
            let ps = window_points(prices, start, len);
            let w = prices.subrange(start, start + len);
            16 * squared_step_sum(ps, k) == (len * len) * rough_sum(w, k, spread(w), lever(w))
        }),
    decreases k,
{
    let ps = window_points(prices, start, len);
    let w = prices.subrange(start, start + len);
    let u = spread(w);
    let l = lever(w);
    let d = index_spread(ps);
    let c = co_spread(ps);
    let n = len;
    if k > 1 {
        lemma_squared_steps(prices, start, len, k - 1);
        let y1 = w[k - 1] as int;
        let y0 = w[k - 2] as int;
        assert(ps[k - 1].value == y1 && ps[k - 2].value == y0);
        let x1 = ps[k - 1].index as int;
        let x0 = ps[k - 2].index as int;
        assert(x1 == x0 + 1);
        let step = y1 - y0;
        let t = line_residual(ps, ps[k - 1]) - line_residual(ps, ps[k - 2]);
        assert(d * y1 - d * y0 == d * step) by (nonlinear_arith)
            requires
                step == y1 - y0,
        ;
        assert(c * x1 == c * x0 + c) by (nonlinear_arith)
            requires
                x1 == x0 + 1,
        ;
        assert(t == d * step - c);
        let g = u * step - 2 * l;
        assert((4 * d) * step == 4 * (d * step)) by (nonlinear_arith);
        assert((n * u) * step == n * (u * step)) by (nonlinear_arith);
        assert(n * g == n * (u * step) - 2 * (n * l)) by (nonlinear_arith)
            requires
                g == u * step - 2 * l,
        ;
        assert(4 * t == n * g);
        assert(16 * (t * t) == (n * n) * (g * g)) by (nonlinear_arith)
            requires
                4 * t == n * g,
        ;
        assert((n * n) * (rough_sum(w, k - 1, u, l) + g * g) == (n * n) * rough_sum(w, k - 1, u, l) + (n * n)
            * (g * g)) by (nonlinear_arith);
    } else {
        assert((n * n) * 0 == 0);
    }
}

/// Every point lies on the line `value = intercept + slope * index`.
pub open spec fn on_a_line(ps: Seq<Point>, intercept: int, slope: int) -> bool {
    forall|j: int| 0 <= j < ps.len() ==> (#[trigger] ps[j]).value == intercept + slope * ps[j].index
}

proof fn lemma_sums_on_a_line(ps: Seq<Point>, intercept: int, slope: int)
    requires
        on_a_line(ps, intercept, slope),
    ensures
        sum_y(ps) == ps.len() * intercept + slope * sum_x(ps),
        sum_xy(ps) == intercept * sum_x(ps) + slope * sum_xx(ps),
    decreases ps.len(),
{
    if ps.len() > 0 {
        let rest = ps.drop_last();
        assert forall|j: int| 0 <= j < rest.len() implies (#[trigger] rest[j]).value == intercept + slope
            * rest[j].index by {
            assert(rest[j] == ps[j]);
        }
        lemma_sums_on_a_line(rest, intercept, slope);
        let x = ps.last().index as int;
        let y = ps.last().value as int;
        assert(ps[ps.len() - 1].value == y);
        assert(y == intercept + slope * x);
        assert(ps.len() * intercept == rest.len() * intercept + intercept) by (nonlinear_arith)
            requires
                ps.len() == rest.len() + 1,
        ;
        assert(slope * (sum_x(rest) + x) == slope * sum_x(rest) + slope * x) by (nonlinear_arith);
        assert(x * y == intercept * x + slope * (x * x)) by (nonlinear_arith)
            requires
                y == intercept + slope * x,
        ;
        assert(intercept * (sum_x(rest) + x) == intercept * sum_x(rest) + intercept * x) by (nonlinear_arith);
        assert(slope * (sum_xx(rest) + x * x) == slope * sum_xx(rest) + slope * (x * x)) by (nonlinear_arith);
    } else {
        assert(0 * intercept == 0);
        assert(slope * 0 == 0);
        assert(intercept * 0 == 0);
    }
}

/// The least-squares line through points that lie on a line is that line,
/// and it leaves no residual.
pub proof fn lemma_line_through_points_on_a_line(ps: Seq<Point>, intercept: int, slope: int)
    requires
        on_a_line(ps, intercept, slope),
    ensures
        co_spread(ps) == slope * index_spread(ps),
        intercept_over_spread(ps) == intercept * index_spread(ps),
        forall|j: int| 0 <= j < ps.len() ==> line_residual(ps, #[trigger] ps[j]) == 0,
        forall|k: int| 0 <= k <= ps.len() ==> squared_residual_sum(ps, k) == 0,
{
    lemma_sums_on_a_line(ps, intercept, slope);
    let n = ps.len() as int;
    let sx = sum_x(ps);
    let sxx = sum_xx(ps);
    let sy = sum_y(ps);
    let sxy = sum_xy(ps);
    let d = index_spread(ps);
    let c = co_spread(ps);
    let i = intercept_over_spread(ps);
    assert(n * sxy == intercept * (n * sx) + slope * (n * sxx)) by (nonlinear_arith)
        requires
            sxy == intercept * sx + slope * sxx,
    ;
    assert(sx * sy == intercept * (n * sx) + slope * (sx * sx)) by (nonlinear_arith)
        requires
            sy == n * intercept + slope * sx,
    ;
    assert(slope * d == slope * (n * sxx) - slope * (sx * sx)) by (nonlinear_arith)
        requires
            d == n * sxx - sx * sx,
    ;
    assert(c == slope * d);
    assert(sy * sxx == intercept * (n * sxx) + slope * (sx * sxx)) by (nonlinear_arith)
        requires
            sy == n * intercept + slope * sx,
    ;
    assert(sx * sxy == intercept * (sx * sx) + slope * (sx * sxx)) by (nonlinear_arith)
        requires
            sxy == intercept * sx + slope * sxx,
    ;
    assert(intercept * d == intercept * (n * sxx) - intercept * (sx * sx)) by (nonlinear_arith)
        requires
            d == n * sxx - sx * sx,
    ;
    assert(i == intercept * d);
    assert forall|j: int| 0 <= j < ps.len() implies line_residual(ps, #[trigger] ps[j]) == 0 by {
        let x = ps[j].index as int;
        let y = ps[j].value as int;
        assert(d * y == intercept * d + (slope * d) * x) by (nonlinear_arith)
            requires
                y == intercept + slope * x,
        ;
    }
    assert forall|k: int| 0 <= k <= ps.len() implies squared_residual_sum(ps, k) == 0 by {
        lemma_no_residuals(ps, k);
    }
}

proof fn lemma_no_residuals(ps: Seq<Point>, k: int)
    requires
        0 <= k <= ps.len(),
        forall|j: int| 0 <= j < ps.len() ==> line_residual(ps, #[trigger] ps[j]) == 0,
    ensures
        squared_residual_sum(ps, k) == 0,
    decreases k,
{
    if k > 0 {
        lemma_no_residuals(ps, k - 1);
        assert(line_residual(ps, ps[k - 1]) == 0);
    }
}

/// A window of prices that lie on a line fits perfectly.
pub proof fn lemma_window_on_a_line_is_perfect(
    prices: Seq<i64>,
    start: int,
    len: int,
    intercept: int,
    slope: int,
)
    requires
        0 <= start,
        0 < len,
        start + len <= prices.len() <= usize::MAX,
        forall|i: int| start <= i < start + len ==> #[trigger] prices[i] == intercept + slope * i,
    ensures
        perfect(prices.subrange(start, start + len)),
        on_a_line(window_points(prices, start, len), intercept, slope),
{
    let ps = window_points(prices, start, len);
    let w = prices.subrange(start, start + len);
    assert forall|j: int| 0 <= j < ps.len() implies (#[trigger] ps[j]).value == intercept + slope
        * ps[j].index by {
        assert(ps[j].value == prices[start + j]);
    }
    if len <= 2 {
        lemma_short_window_is_perfect(w);
    } else {
        lemma_line_through_points_on_a_line(ps, intercept, slope);
        lemma_statistics_are_of_the_line(prices, start, len);
        lemma_spread_is_positive(ps);
        assert(squared_residual_sum(ps, len) == 0);
        let d = index_spread(ps);
        let r = residual(w);
        assert(r == 0) by (nonlinear_arith)
            requires
                d * r == 0,
                d > 0,
        ;
    }
}

proof fn lemma_zero_sum_has_zero_terms(ps: Seq<Point>, k: int)
    requires
        0 <= k <= ps.len(),
    ensures
        squared_residual_sum(ps, k) >= 0,
        squared_residual_sum(ps, k) == 0 ==> forall|j: int|
            0 <= j < k ==> line_residual(ps, #[trigger] ps[j]) == 0,
    decreases k,
{
    if k > 0 {
        lemma_zero_sum_has_zero_terms(ps, k - 1);
        let r = line_residual(ps, ps[k - 1]);
        assert(r * r >= 0) by (nonlinear_arith);
        if r != 0 {
            assert(r * r > 0) by (nonlinear_arith)
                requires
                    r != 0,
            ;
        }
    }
}

/// A window of three or more prices of which all but the last lie on a
/// line, and the last does not, has no perfect fit.
pub proof fn lemma_window_off_a_line_is_imperfect(
    prices: Seq<i64>,
    start: int,
    len: int,
    intercept: int,
    slope: int,
)
    requires
        0 <= start,
        3 <= len,
        start + len <= prices.len() <= usize::MAX,
        forall|i: int| start <= i < start + len - 1 ==> #[trigger] prices[i] == intercept + slope * i,
        prices[start + len - 1] != intercept + slope * (start + len - 1),
    ensures
        !perfect(prices.subrange(start, start + len)),
{
    let ps = window_points(prices, start, len);
    let w = prices.subrange(start, start + len);
    if perfect(w) {
        lemma_statistics_are_of_the_line(prices, start, len);
        lemma_spread_is_positive(ps);
        let d = index_spread(ps);
        let c = co_spread(ps);
        let i = intercept_over_spread(ps);
        assert(d * residual(w) == 0) by (nonlinear_arith)
            requires
                residual(w) == 0,
        ;
        lemma_zero_sum_has_zero_terms(ps, len);
        let x0 = start;
        let y0 = prices[start] as int;
        let y1 = prices[start + 1] as int;
        let last = start + len - 1;
        let yl = prices[last] as int;
        assert(ps[0].index == x0 && ps[0].value == y0);
        assert(ps[1].index == x0 + 1 && ps[1].value == y1);
        assert(ps[len - 1].index == last && ps[len - 1].value == yl);
        assert(line_residual(ps, ps[0]) == 0);
        assert(line_residual(ps, ps[1]) == 0);
        assert(line_residual(ps, ps[len - 1]) == 0);
        assert(y0 == intercept + slope * x0);
        assert(y1 == intercept + slope * (x0 + 1));
        assert(slope * (x0 + 1) == slope * x0 + slope) by (nonlinear_arith);
        assert(y1 == y0 + slope);
        assert(c * (x0 + 1) == c * x0 + c) by (nonlinear_arith);
        assert(d * y1 == d * y0 + d * slope) by (nonlinear_arith)
            requires
                y1 == y0 + slope,
        ;
        assert(c == d * slope);
        let gap = last - x0;
        assert(c * last == c * x0 + c * gap) by (nonlinear_arith)
            requires
                last == x0 + gap,
        ;
        assert(d * yl == d * y0 + c * gap);
        assert(c * gap == d * (slope * gap)) by (nonlinear_arith)
            requires
                c == d * slope,
        ;
        assert(d * y0 + d * (slope * gap) == d * (y0 + slope * gap)) by (nonlinear_arith);
        assert(slope * last == slope * x0 + slope * gap) by (nonlinear_arith)
            requires
                last == x0 + gap,
        ;
        let on = intercept + slope * last;
        assert(on == y0 + slope * gap);
        assert(d * yl == d * on);
        assert(yl == on) by (nonlinear_arith)
            requires
                d * yl == d * on,
                d > 0,
        ;
    }
}

} // verus!
