use vstd::prelude::*;
use crate::error::TrendError;
use crate::ratio::{fits, Ratio};

verus! {

/// How well the least-squares line fits a window of consecutive prices:
/// each statistic as an exact fraction.
#[derive(Clone, Copy, Debug)]
pub struct FitQuality {
    /// The number of points in the window.
    pub points: usize,
    /// The adjusted coefficient of determination; `None` where it is
    /// undefined: an imperfect fit with no degree of freedom left.
    pub adjusted_r_squared: Option<Ratio>,
    /// The mean squared residual, the square of the RMSE.
    pub mean_squared_error: Ratio,
    /// The Durbin-Watson statistic of the residuals.
    pub durbin_watson: Ratio,
}

/// The statistics of a fit as numbers: each fraction as its numerator and
/// its denominator.
pub struct Stats {
    pub points: int,
    pub adjusted_r_squared: Option<(int, int)>,
    pub mean_squared_error: (int, int),
    pub durbin_watson: (int, int),
}

impl Stats {
    /// The denominators are positive, and the error is not negative.
    pub open spec fn wf(self) -> bool {
        &&& self.adjusted_r_squared is Some ==> self.adjusted_r_squared->Some_0.1 > 0
        &&& self.mean_squared_error.0 >= 0
        &&& self.mean_squared_error.1 > 0
        &&& self.durbin_watson.1 > 0
    }
}

impl View for FitQuality {
    type V = Stats;

    open spec fn view(&self) -> Stats {
        Stats {
            points: self.points as int,
            adjusted_r_squared: match self.adjusted_r_squared {
                Some(a) => Some(a.pair()),
                None => None,
            },
            mean_squared_error: self.mean_squared_error.pair(),
            durbin_watson: self.durbin_watson.pair(),
        }
    }
}

/// Twice the distance of place `k` from the middle of a window of `n`
/// points.
pub open spec fn centred(n: int, k: int) -> int {
    2 * k - (n - 1)
}

/// The sum of the first `k` prices.
pub open spec fn price_sum(w: Seq<i64>, k: int) -> int
    decreases k,
{
    if k <= 0 {
        0
    } else {
        price_sum(w, k - 1) + w[k - 1]
    }
}

/// The sum of the squares of the first `k` prices.
pub open spec fn square_sum(w: Seq<i64>, k: int) -> int
    decreases k,
{
    if k <= 0 {
        0
    } else {
        square_sum(w, k - 1) + w[k - 1] * w[k - 1]
    }
}

/// The sum over the first `k` places of the centred place times its price.
pub open spec fn lever_sum(w: Seq<i64>, k: int) -> int
    decreases k,
{
    if k <= 0 {
        0
    } else {
        lever_sum(w, k - 1) + centred(w.len() as int, k - 1) * w[k - 1]
    }
}

/// The sum over the first `k` places of the squared centred place.
pub open spec fn spread_sum(n: int, k: int) -> int
    decreases k,
{
    if k <= 0 {
        0
    } else {
        spread_sum(n, k - 1) + centred(n, k - 1) * centred(n, k - 1)
    }
}

/// With slope `2 * lever / spread`, the residual changes from one place to
/// the next by `(spread * step - 2 * lever) / spread`, where `step` is the
/// change of the price. This is the sum of the squared numerators over the
/// first `k` places.
pub open spec fn rough_sum(w: Seq<i64>, k: int, spread: int, lever: int) -> int
    decreases k,
{
    if k <= 1 {
        0
    } else {
        let t = spread * (w[k - 1] - w[k - 2]) - 2 * lever;
        rough_sum(w, k - 1, spread, lever) + t * t
    }
}

/// Four times the sum of squared distances of the places from their mean.
pub open spec fn spread(w: Seq<i64>) -> int {
    spread_sum(w.len() as int, w.len() as int)
}

/// Twice the sum of the products of a place's distance from the mean place
/// and its price. The least-squares slope is `2 * lever / spread`.
pub open spec fn lever(w: Seq<i64>) -> int {
    lever_sum(w, w.len() as int)
}

/// `n * spread` times the total sum of squares of the prices about their
/// mean.
pub open spec fn total(w: Seq<i64>) -> int {
    let n = w.len() as int;
    (n * square_sum(w, n) - price_sum(w, n) * price_sum(w, n)) * spread(w)
}

/// `n * spread` times the sum of squared residuals: the total sum of
/// squares less what the line explains.
pub open spec fn residual(w: Seq<i64>) -> int {
    total(w) - w.len() * (lever(w) * lever(w))
}

/// `n * spread * spread` times the sum of squared changes of the residual.
pub open spec fn roughness(w: Seq<i64>) -> int {
    w.len() * rough_sum(w, w.len() as int, spread(w), lever(w))
}

/// The line leaves no residual.
pub open spec fn perfect(w: Seq<i64>) -> bool {
    residual(w) == 0
}

/// `1 - (1 - R^2) * (n - 1) / (n - 2)`, where `1 - R^2` is the residual
/// over the total sum of squares. A perfect fit has 1 whatever `n` is. An
/// imperfect one has none where `n - 2` is not positive.
pub open spec fn adjusted_r_squared(w: Seq<i64>) -> Option<(int, int)> {
    let n = w.len() as int;
    if perfect(w) {
        Some((1, 1))
    } else if n <= 2 {
        None
    } else {
        Some((total(w) * (n - 2) - residual(w) * (n - 1), total(w) * (n - 2)))
    }
}

/// The sum of squared residuals over `n`.
pub open spec fn mean_squared_error(w: Seq<i64>) -> (int, int) {
    let n = w.len() as int;
    if perfect(w) {
        (0, 1)
    } else {
        (residual(w), n * n * spread(w))
    }
}

/// The sum of squared changes of the residual over the sum of squared
/// residuals. Without residuals it is 2, the value of no autocorrelation.
pub open spec fn durbin_watson(w: Seq<i64>) -> (int, int) {
    if perfect(w) {
        (2, 1)
    } else {
        (roughness(w), spread(w) * residual(w))
    }
}

/// The statistics of window `w`.
pub open spec fn stats_of(w: Seq<i64>) -> Stats {
    Stats {
        points: w.len() as int,
        adjusted_r_squared: adjusted_r_squared(w),
        mean_squared_error: mean_squared_error(w),
        durbin_watson: durbin_watson(w),
    }
}

/// The sums over the first `k` prices fit, and so do the terms that the
/// last of these prices adds to them.
pub open spec fn sums_fit_at(w: Seq<i64>, k: int) -> bool {
    &&& fits(price_sum(w, k))
    &&& fits(square_sum(w, k))
    &&& fits(lever_sum(w, k))
    &&& fits(spread_sum(w.len() as int, k))
    &&& k >= 1 ==> {
        &&& fits(w[k - 1] * w[k - 1])
        &&& fits(centred(w.len() as int, k - 1) * w[k - 1])
        &&& fits(centred(w.len() as int, k - 1) * centred(w.len() as int, k - 1))
    }
}

/// The products that total and residual are made of fit.
pub open spec fn products_fit(w: Seq<i64>) -> bool {
    let n = w.len() as int;
    &&& fits(n * square_sum(w, n))
    &&& fits(price_sum(w, n) * price_sum(w, n))
    &&& fits(n * square_sum(w, n) - price_sum(w, n) * price_sum(w, n))
    &&& fits(total(w))
    &&& fits(lever(w) * lever(w))
    &&& fits(n * (lever(w) * lever(w)))
}

/// The term that the step to price `k - 1` adds to `rough_sum`.
pub open spec fn step_term(w: Seq<i64>, k: int) -> int {
    spread(w) * (w[k - 1] - w[k - 2]) - 2 * lever(w)
}

/// The sum of the squared steps over the first `k` prices fits, and so
/// does what the last step adds to it.
pub open spec fn steps_fit_at(w: Seq<i64>, k: int) -> bool {
    &&& fits(rough_sum(w, k, spread(w), lever(w)))
    &&& k >= 2 ==> {
        &&& fits(spread(w) * (w[k - 1] - w[k - 2]))
        &&& fits(step_term(w, k))
        &&& fits(step_term(w, k) * step_term(w, k))
    }
}

/// The numbers of the three fractions of an imperfect fit fit.
pub open spec fn fractions_fit(w: Seq<i64>) -> bool {
    let n = w.len() as int;
    &&& fits(2 * lever(w))
    &&& forall|k: int| 0 <= k <= n ==> #[trigger] steps_fit_at(w, k)
    &&& fits(roughness(w))
    &&& fits(spread(w) * residual(w))
    &&& fits(n * n)
    &&& fits(n * n * spread(w))
    &&& fits(total(w) * (n - 2))
    &&& fits(residual(w) * (n - 1))
    &&& fits(total(w) * (n - 2) - residual(w) * (n - 1))
}

/// Every value that the statistics of the window are formed from fits in
/// 128 bits: the terms, the sums as they grow, the products, and, where the
/// fit is not perfect, the numbers of the fractions.
pub open spec fn statistics_fit(w: Seq<i64>) -> bool {
    &&& forall|k: int| 0 <= k <= w.len() ==> #[trigger] sums_fit_at(w, k)
    &&& products_fit(w)
    &&& perfect(w) || fractions_fit(w)
}

/// What `fit_quality` owes its caller.
pub open spec fn quality_result(w: Seq<i64>, r: Result<FitQuality, TrendError>) -> bool {
    if w.len() == 0 {
        r is Err && r->Err_0 == TrendError::InvalidInput
    } else if !statistics_fit(w) {
        r is Err && r->Err_0 == TrendError::Overflow
    } else {
        r is Ok && r->Ok_0@ == stats_of(w) && r->Ok_0@.wf()
    }
}

/// The sum of the products of the first `k` members of two sequences.
spec fn dot(a: Seq<int>, b: Seq<int>, k: int) -> int
    decreases k,
{
    if k <= 0 {
        0
    } else {
        dot(a, b, k - 1) + a[k - 1] * b[k - 1]
    }
}

/// The inequality of Cauchy and Schwarz: the square of a sum of products
/// is at most the product of the sums of squares.
proof fn lemma_dot_products(a: Seq<int>, b: Seq<int>, k: int)
    ensures
        dot(a, a, k) >= 0,
        dot(b, b, k) >= 0,
        dot(a, a, k) * dot(b, b, k) - dot(a, b, k) * dot(a, b, k) >= 0,
    decreases k,
{
    if k > 0 {
        lemma_dot_products(a, b, k - 1);
        let aa = dot(a, a, k - 1);
        let bb = dot(b, b, k - 1);
        let ab = dot(a, b, k - 1);
        let x = a[k - 1];
        let y = b[k - 1];
        let xx = x * x;
        let yy = y * y;
        let xy = x * y;
        assert(xx >= 0) by (nonlinear_arith)
            requires
                xx == x * x,
        ;
        assert(yy >= 0) by (nonlinear_arith)
            requires
                yy == y * y,
        ;
        let gain = aa * yy + bb * xx - 2 * (ab * xy);
        assert(gain >= 0) by {
            if aa == 0 {
                assert(ab == 0) by (nonlinear_arith)
                    requires
                        aa * bb - ab * ab >= 0,
                        aa == 0,
                ;
                assert(gain == bb * xx) by (nonlinear_arith)
                    requires
                        gain == aa * yy + bb * xx - 2 * (ab * xy),
                        aa == 0,
                        ab == 0,
                ;
                assert(bb * xx >= 0) by (nonlinear_arith)
                    requires
                        bb >= 0,
                        xx >= 0,
                ;
            } else {
                let d = aa * y - ab * x;
                let p = aa * y;
                let q = ab * x;
                assert(d * d == p * p - 2 * (p * q) + q * q) by (nonlinear_arith)
                    requires
                        d == p - q,
                ;
                assert(p * p == aa * (aa * yy)) by (nonlinear_arith)
                    requires
                        p == aa * y,
                        yy == y * y,
                ;
                assert(p * q == aa * (ab * xy)) by (nonlinear_arith)
                    requires
                        p == aa * y,
                        q == ab * x,
                        xy == x * y,
                ;
                assert(q * q == (ab * ab) * xx) by (nonlinear_arith)
                    requires
                        q == ab * x,
                        xx == x * x,
                ;
                assert(aa * gain == aa * (aa * yy) + aa * (bb * xx) - 2 * (aa * (ab * xy))) by (nonlinear_arith)
                    requires
                        gain == aa * yy + bb * xx - 2 * (ab * xy),
                ;
                assert((aa * bb - ab * ab) * xx == aa * (bb * xx) - (ab * ab) * xx) by (nonlinear_arith);
                assert(aa * gain == d * d + (aa * bb - ab * ab) * xx);
                assert(d * d >= 0) by (nonlinear_arith);
                assert((aa * bb - ab * ab) * xx >= 0) by (nonlinear_arith)
                    requires
                        aa * bb - ab * ab >= 0,
                        xx >= 0,
                ;
                assert(gain >= 0) by (nonlinear_arith)
                    requires
                        aa * gain >= 0,
                        aa > 0,
                ;
            }
        }
        assert(xx * yy == xy * xy) by (nonlinear_arith)
            requires
                xx == x * x,
                yy == y * y,
                xy == x * y,
        ;
        assert((aa + xx) * (bb + yy) == aa * bb + aa * yy + bb * xx + xx * yy) by (nonlinear_arith);
        assert((ab + xy) * (ab + xy) == ab * ab + 2 * (ab * xy) + xy * xy) by (nonlinear_arith);
    }
}

/// `n` times each price's distance from the mean price.
spec fn lifted(w: Seq<i64>) -> Seq<int> {
    Seq::new(w.len(), |j: int| w.len() * w[j] - price_sum(w, w.len() as int))
}

/// The centred places of a window.
spec fn places(w: Seq<i64>) -> Seq<int> {
    Seq::new(w.len(), |j: int| centred(w.len() as int, j))
}

/// The dot products of the lifted prices and the centred places, by the
/// sums that the statistics are made of.
proof fn lemma_dots_by_sums(w: Seq<i64>, k: int)
    requires
        0 <= k <= w.len(),
    ensures
        dot(places(w), places(w), k) == spread_sum(w.len() as int, k),
        dot(lifted(w), places(w), k) == w.len() * lever_sum(w, k) - price_sum(w, w.len() as int) * (k * (k
            - w.len())),
        dot(lifted(w), lifted(w), k) == w.len() * w.len() * square_sum(w, k) - 2 * w.len() * price_sum(
            w,
            w.len() as int,
        ) * price_sum(w, k) + k * (price_sum(w, w.len() as int) * price_sum(w, w.len() as int)),
    decreases k,
{
    if k > 0 {
        lemma_dots_by_sums(w, k - 1);
        let n = w.len() as int;
        let s = price_sum(w, n);
        let y = w[k - 1] as int;
        let u = centred(n, k - 1);
        assert(lifted(w)[k - 1] == n * y - s);
        assert(places(w)[k - 1] == u);
        assert(dot(lifted(w), places(w), k) == dot(lifted(w), places(w), k - 1) + (n * y - s) * u);
        assert(dot(lifted(w), lifted(w), k) == dot(lifted(w), lifted(w), k - 1) + (n * y - s) * (n * y - s));
        assert((n * y - s) * u == n * (u * y) - s * u) by (nonlinear_arith);
        assert(n * (lever_sum(w, k - 1) + u * y) == n * lever_sum(w, k - 1) + n * (u * y)) by (nonlinear_arith);
        assert(s * (k * (k - n)) == s * ((k - 1) * (k - 1 - n)) + s * u) by (nonlinear_arith)
            requires
                u == 2 * (k - 1) - (n - 1),
        ;
        assert((n * y - s) * (n * y - s) == n * n * (y * y) - 2 * n * s * y + s * s) by (nonlinear_arith);
        assert(n * n * (square_sum(w, k - 1) + y * y) == n * n * square_sum(w, k - 1) + n * n * (y * y))
            by (nonlinear_arith);
        assert(2 * n * s * (price_sum(w, k - 1) + y) == 2 * n * s * price_sum(w, k - 1) + 2 * n * s * y)
            by (nonlinear_arith);
        assert(k * (s * s) == (k - 1) * (s * s) + s * s) by (nonlinear_arith);
    } else {
        assert(k * (k - w.len()) == 0) by (nonlinear_arith)
            requires
                k == 0,
        ;
        let s = price_sum(w, w.len() as int);
        assert(s * 0 == 0);
        assert(w.len() * w.len() * 0 == 0);
        assert(2 * w.len() * s * 0 == 0);
        assert(k * (s * s) == 0) by (nonlinear_arith)
            requires
                k == 0,
        ;
    }
}

/// Neither the total sum of squares nor the residual is ever negative.
pub proof fn lemma_residual_is_not_negative(w: Seq<i64>)
    ensures
        total(w) >= 0,
        residual(w) >= 0,
        residual(w) <= total(w),
        spread(w) >= 0,
{
    let n = w.len() as int;
    let s = price_sum(w, n);
    let t = n * square_sum(w, n) - s * s;
    let u = spread(w);
    let l = lever(w);
    assert(l * l >= 0) by (nonlinear_arith);
    assert(n * (l * l) >= 0) by (nonlinear_arith)
        requires
            n >= 0,
            l * l >= 0,
    ;
    if n == 0 {
        assert(t == 0) by (nonlinear_arith)
            requires
                t == n * square_sum(w, n) - s * s,
                n == 0,
                s == 0,
        ;
        assert(t * u == 0) by (nonlinear_arith)
            requires
                t == 0,
        ;
        assert(n * (l * l) == 0) by (nonlinear_arith)
            requires
                n == 0,
        ;
    } else {
        lemma_dots_by_sums(w, n);
        lemma_dot_products(lifted(w), places(w), n);
        let aa = dot(lifted(w), lifted(w), n);
        let ab = dot(lifted(w), places(w), n);
        assert(n * (n - n) == 0) by (nonlinear_arith);
        assert(s * 0 == 0);
        assert(ab == n * l);
        assert(aa == n * t) by (nonlinear_arith)
            requires
                aa == n * n * square_sum(w, n) - 2 * n * s * s + n * (s * s),
                t == n * square_sum(w, n) - s * s,
        ;
        assert(t >= 0) by (nonlinear_arith)
            requires
                n * t >= 0,
                n > 0,
        ;
        assert(u >= 0);
        assert(t * u >= 0) by (nonlinear_arith)
            requires
                t >= 0,
                u >= 0,
        ;
        assert(n * (t * u - n * (l * l)) == aa * u - ab * ab) by (nonlinear_arith)
            requires
                aa == n * t,
                ab == n * l,
        ;
        assert(t * u - n * (l * l) >= 0) by (nonlinear_arith)
            requires
                n * (t * u - n * (l * l)) >= 0,
                n > 0,
        ;
    }
}

/// A line through one or two points passes through them: a window of at
/// most two prices always fits perfectly.
pub proof fn lemma_short_window_is_perfect(w: Seq<i64>)
    requires
        w.len() <= 2,
    ensures
        perfect(w),
{
    reveal_with_fuel(price_sum, 3);
    reveal_with_fuel(square_sum, 3);
    reveal_with_fuel(lever_sum, 3);
    reveal_with_fuel(spread_sum, 3);
    let n = w.len() as int;
    let s = price_sum(w, n);
    let q = square_sum(w, n);
    let u = spread(w);
    let l = lever(w);
    if n == 2 {
        let a = w[0] as int;
        let b = w[1] as int;
        assert(s == a + b);
        assert(q == a * a + b * b);
        let c0 = centred(2, 0);
        let c1 = centred(2, 1);
        assert(c0 == -1 && c1 == 1);
        assert(l == c0 * a + c1 * b);
        assert(u == c0 * c0 + c1 * c1);
        assert(c0 * a == -a && c1 * b == b && c0 * c0 == 1 && c1 * c1 == 1) by (nonlinear_arith)
            requires
                c0 == -1,
                c1 == 1,
        ;
        assert(u == 2);
        assert(l == b - a);
        let ll = l * l;
        assert(ll == b * b - 2 * (a * b) + a * a) by (nonlinear_arith)
            requires
                ll == l * l,
                l == b - a,
        ;
        assert(s * s == a * a + 2 * (a * b) + b * b) by (nonlinear_arith)
            requires
                s == a + b,
        ;
        assert(total(w) == (2 * q - s * s) * 2);
        assert(residual(w) == (2 * q - s * s) * 2 - 2 * ll);
    } else if n == 1 {
        let a = w[0] as int;
        let c0 = centred(1, 0);
        assert(c0 == 0);
        assert(l == c0 * a);
        assert(u == c0 * c0);
        assert(c0 * a == 0 && c0 * c0 == 0) by (nonlinear_arith)
            requires
                c0 == 0,
        ;
        assert((1 * q - s * s) * u == 0) by (nonlinear_arith)
            requires
                u == 0,
        ;
        assert(1 * (l * l) == 0) by (nonlinear_arith)
            requires
                l == 0,
        ;
    } else {
        assert((0 * q - s * s) * u == 0) by (nonlinear_arith)
            requires
                s == 0,
        ;
        assert(0 * (l * l) == 0);
    }
}

/// The least-squares fit of a window always has an adjusted R squared:
/// where `n - 2` is not positive the fit is perfect.
pub proof fn lemma_adjusted_r_squared_is_defined(w: Seq<i64>)
    ensures
        adjusted_r_squared(w) is Some,
{
    if w.len() <= 2 {
        lemma_short_window_is_perfect(w);
    }
}

/// The statistics of a window are well formed.
pub proof fn lemma_stats_are_well_formed(w: Seq<i64>)
    requires
        w.len() >= 1,
    ensures
        stats_of(w).wf(),
        !perfect(w) ==> w.len() > 2 && spread(w) > 0 && residual(w) > 0 && total(w) > 0,
{
    lemma_residual_is_not_negative(w);
    if !perfect(w) {
        let n = w.len() as int;
        let u = spread(w);
        let r = residual(w);
        let t = total(w);
        let l = lever(w);
        if w.len() <= 2 {
            lemma_short_window_is_perfect(w);
        }
        if u == 0 {
            assert(t == 0) by (nonlinear_arith)
                requires
                    t == (n * square_sum(w, n) - price_sum(w, n) * price_sum(w, n)) * u,
                    u == 0,
            ;
            assert(l * l >= 0) by (nonlinear_arith);
            assert(n * (l * l) >= 0) by (nonlinear_arith)
                requires
                    n >= 0,
                    l * l >= 0,
            ;
        }
        assert(n * n > 0) by (nonlinear_arith)
            requires
                n > 0,
        ;
        assert(n * n * u > 0) by (nonlinear_arith)
            requires
                n * n > 0,
                u > 0,
        ;
        assert(u * r > 0) by (nonlinear_arith)
            requires
                u > 0,
                r > 0,
        ;
        assert(t * (n - 2) > 0) by (nonlinear_arith)
            requires
                t > 0,
                n - 2 > 0,
        ;
    }
}

/// Computes the statistics of the least-squares fit over a window of
/// consecutive prices. Fails with `InvalidInput` on an empty window, and
/// with `Overflow` where a value that the statistics are formed from does
/// not fit in 128 bits.
pub fn fit_quality(window: &[i64]) -> (r: Result<FitQuality, TrendError>)
    ensures
        quality_result(window@, r),
{
    if window.len() == 0 {
        return Err(TrendError::InvalidInput);
    }
    match assess(window) {
        Some(q) => Ok(q),
        None => Err(TrendError::Overflow),
    }
}

/// The sums of a window, if they fit: of the prices, of their squares, of
/// the centred places times the prices, and of the squared centred places.
fn window_sums(window: &[i64]) -> (r: Option<(i128, i128, i128, i128)>)
    requires
        window@.len() >= 1,
    ensures
        r is Some == (forall|k: int| 0 <= k <= window@.len() ==> #[trigger] sums_fit_at(window@, k)),
        r is Some ==> {
            let n = window@.len() as int;
            &&& r->Some_0.0 == price_sum(window@, n)
            &&& r->Some_0.1 == square_sum(window@, n)
            &&& r->Some_0.2 == lever_sum(window@, n)
            &&& r->Some_0.3 == spread_sum(n, n)
        },
{
    let n: usize = window.len();
    let count: i128 = n as i128;
    let mut sv: i128 = 0;
    let mut svv: i128 = 0;
    let mut lv: i128 = 0;
    let mut sp: i128 = 0;
    let mut k: usize = 0;
    assert(sums_fit_at(window@, 0));
    while k < n
        invariant
            k <= n,
            n == window@.len(),
            count == n,
            sv == price_sum(window@, k as int),
            svv == square_sum(window@, k as int),
            lv == lever_sum(window@, k as int),
            sp == spread_sum(n as int, k as int),
            forall|j: int| 0 <= j <= k ==> #[trigger] sums_fit_at(window@, j),
        decreases n - k,
    {
        let y: i128 = window[k] as i128;
        let u: i128 = 2 * (k as i128) - (count - 1);
        assert(u == centred(n as int, k as int));
        let terms = (y.checked_mul(y), u.checked_mul(y), u.checked_mul(u));
        match terms {
            (Some(yy), Some(uy), Some(uu)) => {
                let sums = (sv.checked_add(y), svv.checked_add(yy), lv.checked_add(uy), sp.checked_add(uu));
                match sums {
                    (Some(a), Some(b), Some(c), Some(d)) => {
                        sv = a;
                        svv = b;
                        lv = c;
                        sp = d;
                        assert(sums_fit_at(window@, k + 1));
                    },
                    _ => {
                        assert(!sums_fit_at(window@, k + 1));
                        return None;
                    },
                }
            },
            _ => {
                assert(!sums_fit_at(window@, k + 1));
                return None;
            },
        }
        k += 1;
    }
    Some((sv, svv, lv, sp))
}

/// The sum of the squared steps of the residual, if it fits.
fn step_sum(window: &[i64], sp: i128, lv2: i128) -> (r: Option<i128>)
    requires
        window@.len() >= 1,
        sp == spread(window@),
        lv2 == 2 * lever(window@),
    ensures
        r is Some == (forall|k: int| 0 <= k <= window@.len() ==> #[trigger] steps_fit_at(window@, k)),
        r is Some ==> r->Some_0 == rough_sum(window@, window@.len() as int, spread(window@), lever(window@)),
{
    let n: usize = window.len();
    let mut rs: i128 = 0;
    let mut j: usize = 1;
    assert(steps_fit_at(window@, 0));
    assert(steps_fit_at(window@, 1));
    while j < n
        invariant
            1 <= j <= n,
            n == window@.len(),
            sp == spread(window@),
            lv2 == 2 * lever(window@),
            rs == rough_sum(window@, j as int, spread(window@), lever(window@)),
            forall|k: int| 0 <= k <= j ==> #[trigger] steps_fit_at(window@, k),
        decreases n - j,
    {
        let step: i128 = (window[j] as i128) - (window[j - 1] as i128);
        let t: Option<i128> = match sp.checked_mul(step) {
            Some(v) => v.checked_sub(lv2),
            None => None,
        };
        let next: Option<i128> = match t {
            Some(t) => match t.checked_mul(t) {
                Some(tt) => rs.checked_add(tt),
                None => None,
            },
            None => None,
        };
        match next {
            Some(v) => {
                rs = v;
                assert(steps_fit_at(window@, j + 1));
            },
            None => {
                assert(!steps_fit_at(window@, j + 1));
                return None;
            },
        }
        j += 1;
    }
    Some(rs)
}

/// The statistics of a window, if they fit.
pub(crate) fn assess(window: &[i64]) -> (r: Option<FitQuality>)
    requires
        window@.len() >= 1,
    ensures
        r is Some == statistics_fit(window@),
        r is Some ==> r->Some_0@ == stats_of(window@) && r->Some_0@.wf(),
{
    let n: usize = window.len();
    let count: i128 = n as i128;
    let (sv, svv, lv, sp) = match window_sums(window) {
        Some(s) => s,
        None => {
            return None;
        },
    };
    proof {
        lemma_stats_are_well_formed(window@);
        lemma_residual_is_not_negative(window@);
    }
    let ll: Option<i128> = lv.checked_mul(lv);
    let nll: Option<i128> = match ll {
        Some(v) => count.checked_mul(v),
        None => None,
    };
    let t: Option<i128> = match (count.checked_mul(svv), sv.checked_mul(sv)) {
        (Some(a), Some(b)) => a.checked_sub(b),
        _ => None,
    };
    let tot: Option<i128> = match t {
        Some(t) => t.checked_mul(sp),
        None => None,
    };
    let (tot, res): (i128, i128) = match (tot, nll) {
        (Some(tot), Some(nll)) => (tot, tot - nll),
        _ => {
            assert(!products_fit(window@));
            return None;
        },
    };
    assert(products_fit(window@));
    if res == 0 {
        return Some(
            FitQuality {
                points: n,
                adjusted_r_squared: Some(Ratio { num: 1, den: 1 }),
                mean_squared_error: Ratio { num: 0, den: 1 },
                durbin_watson: Ratio { num: 2, den: 1 },
            },
        );
    }
    let lv2: i128 = match lv.checked_mul(2) {
        Some(v) => v,
        None => {
            assert(!fits(2 * lever(window@)));
            return None;
        },
    };
    let rs: i128 = match step_sum(window, sp, lv2) {
        Some(v) => v,
        None => {
            return None;
        },
    };
    let rough: Option<i128> = count.checked_mul(rs);
    let dw_den: Option<i128> = sp.checked_mul(res);
    let mse_den: Option<i128> = match count.checked_mul(count) {
        Some(v) => v.checked_mul(sp),
        None => None,
    };
    let adj_den: Option<i128> = tot.checked_mul(count - 2);
    let adj_num: Option<i128> = match (adj_den, res.checked_mul(count - 1)) {
        (Some(a), Some(b)) => a.checked_sub(b),
        _ => None,
    };
    match (rough, dw_den, mse_den, adj_den, adj_num) {
        (Some(rough), Some(dw_den), Some(mse_den), Some(adj_den), Some(adj_num)) => Some(
            FitQuality {
                points: n,
                adjusted_r_squared: Some(Ratio { num: adj_num, den: adj_den }),
                mean_squared_error: Ratio { num: res, den: mse_den },
                durbin_watson: Ratio { num: rough, den: dw_den },
            },
        ),
        _ => {
            assert(!fractions_fit(window@));
            None
        },
    }
}

} // verus!
