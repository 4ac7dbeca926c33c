use chart_trends::error::TrendError;
use chart_trends::ratio::Ratio;
use chart_trends::regression::{fit_line, Point, TrendLine};
use chart_trends::trends::{overall_trend, peak_trend, valley_trend};

fn slope(line: &TrendLine) -> f64 {
    line.slope_num as f64 / line.den as f64
}

fn intercept(line: &TrendLine) -> f64 {
    line.intercept_num as f64 / line.den as f64
}

fn pt(index: usize, value: i64) -> Point {
    Point { index, value }
}

#[test]
fn flat_series_has_a_flat_trend() {
    let line = overall_trend(&[5, 5, 5, 5]).unwrap();
    assert!(line.den > 0);
    assert_eq!(line.slope_num, 0);
    assert_eq!(line.intercept_num, 5 * line.den);
    assert!(slope(&line).abs() < 1e-12);
    assert!((intercept(&line) - 5.0).abs() < 1e-12);
}

#[test]
fn overall_trend_exact_fraction() {
    // n = 5, sums: x 10, y 506, xx 30, xy 1011.
    let line = overall_trend(&[100, 102, 103, 101, 100]).unwrap();
    assert_eq!(line, TrendLine { slope_num: -5, intercept_num: 5070, den: 50 });
    assert!((slope(&line) + 0.1).abs() < 1e-12);
    assert!((intercept(&line) - 101.4).abs() < 1e-12);
}

#[test]
fn overall_trend_refusals() {
    assert_eq!(overall_trend(&[]), Err(TrendError::InvalidInput));
    assert_eq!(overall_trend(&[7]), Err(TrendError::InsufficientData));
}

#[test]
fn large_prices_and_long_series_have_a_trend() {
    let line = overall_trend(&[2000000, 2000001, 2000002]).unwrap();
    assert_eq!(line, TrendLine { slope_num: 6, intercept_num: 12000000, den: 6 });
    let line = overall_trend(&[7, 1048577]).unwrap();
    assert_eq!(line, TrendLine { slope_num: 1048570, intercept_num: 7, den: 1 });
    let line = overall_trend(&[i64::MIN, i64::MAX]).unwrap();
    assert_eq!(line.den, 1);
    assert_eq!(line.slope_num, (i64::MAX as i128) - (i64::MIN as i128));
    assert_eq!(line.intercept_num, i64::MIN as i128);
    let long: Vec<i64> = (0..5000).map(|i| 3 * i + 1000000007).collect();
    let line = overall_trend(&long).unwrap();
    assert_eq!(line.slope_num, 3 * line.den);
    assert_eq!(line.intercept_num, 1000000007 * line.den);
}

#[test]
fn a_line_beyond_128_bits_overflows() {
    let huge = vec![i64::MAX; 100000];
    assert_eq!(overall_trend(&huge), Err(TrendError::Overflow));
    let fewer = vec![i64::MAX; 1000];
    assert!(overall_trend(&fewer).is_ok());
    assert_eq!(fit_line(&[pt(usize::MAX, 1), pt(0, 1)]), Err(TrendError::Overflow));
    assert_eq!(fit_line(&[pt(usize::MAX, i64::MAX)]), Ok(TrendLine { slope_num: 0, intercept_num: i64::MAX as i128, den: 1 }));
}

#[test]
fn line_through_scattered_points() {
    // y = 2x + 1 on indices 1, 4, 9.
    let line = fit_line(&[pt(1, 3), pt(4, 9), pt(9, 19)]).unwrap();
    assert_eq!(line, TrendLine { slope_num: 196, intercept_num: 98, den: 98 });
}

#[test]
fn one_point_gives_a_horizontal_line() {
    let line = fit_line(&[pt(7, 42)]).unwrap();
    assert_eq!(line, TrendLine { slope_num: 0, intercept_num: 42, den: 1 });
}

#[test]
fn fit_line_refusals() {
    assert_eq!(fit_line(&[]), Err(TrendError::InvalidInput));
    assert_eq!(fit_line(&[pt(3, 1), pt(3, 2)]), Err(TrendError::InsufficientData));
    assert_eq!(fit_line(&[pt(3, 1), pt(3, 2), pt(3, 9)]), Err(TrendError::InsufficientData));
    assert!(fit_line(&[pt(1024, 1), pt(5000000, 1048577)]).is_ok());
}

#[test]
fn alternating_prices_have_a_trend() {
    let mut prices = Vec::new();
    for i in 0..1024 {
        prices.push(if i % 2 == 0 { 1048576 } else { -1048576 });
    }
    let line = overall_trend(&prices).unwrap();
    assert!(line.den > 0);
    // 1024^2 * (1024^2 - 1) / 12
    assert_eq!(line.den, 91625881600);
}

#[test]
fn peak_trend_through_rising_peaks() {
    // Peaks at 1 (3), 3 (4), 5 (5): slope 1/2, intercept 5/2.
    let line = peak_trend(&[1, 3, 1, 4, 1, 5, 1], 1).unwrap();
    assert_eq!(line.slope_num * 2, line.den);
    assert_eq!(line.intercept_num * 2, 5 * line.den);
    assert_eq!(line, TrendLine { slope_num: 12, intercept_num: 60, den: 24 });
}

#[test]
fn valley_trend_through_falling_valleys() {
    // Valleys at 1 (3), 3 (2), 5 (1): slope -1/2, intercept 7/2.
    let line = valley_trend(&[9, 3, 9, 2, 9, 1, 9], 1).unwrap();
    assert_eq!(line, TrendLine { slope_num: -12, intercept_num: 84, den: 24 });
}

#[test]
fn extremum_trend_refusals() {
    assert_eq!(peak_trend(&[1, 3, 1], 0), Err(TrendError::InvalidInput));
    assert_eq!(peak_trend(&[], 1), Err(TrendError::InvalidInput));
    assert_eq!(peak_trend(&[1, 3, 1], 1), Err(TrendError::InsufficientData));
    assert_eq!(valley_trend(&[1, 2, 3, 4, 5], 1), Err(TrendError::InsufficientData));
    assert_eq!(valley_trend(&[1, 2000000, 3], 1), Err(TrendError::InsufficientData));
    let line = peak_trend(&[1, 3000000, 1, 4000000, 1, 5000000, 1], 1).unwrap();
    assert_eq!(line, TrendLine { slope_num: 12000000, intercept_num: 60000000, den: 24 });
}

#[test]
fn ratios_compare_exactly() {
    let r = |num: i128, den: i128| Ratio { num, den };
    assert!(r(1, 3).is_less(&r(1, 2)));
    assert!(!r(1, 2).is_less(&r(1, 3)));
    assert!(!r(2, 4).is_less(&r(1, 2)));
    assert!(r(-1, 2).is_less(&r(-1, 3)));
    assert!(!r(-1, 3).is_less(&r(-1, 2)));
    assert!(r(-1, 2).is_less(&r(0, 5)));
    assert!(!r(0, 5).is_less(&r(-1, 2)));
    assert!(r(0, 1).is_less(&r(1, i128::MAX)));
    assert!(r(i128::MIN, 1).is_less(&r(i128::MIN + 1, 1)));
    assert!(!r(i128::MIN, 3).is_less(&r(i128::MIN, 2)));
    // Cross products far beyond 128 bits.
    let big = 1i128 << 120;
    assert!(r(big, big + 1).is_less(&r(big + 1, big + 2)));
    assert!(!r(big + 1, big + 2).is_less(&r(big, big + 1)));
    assert!(!r(big, big + 1).is_less(&r(big, big + 1)));
    assert!(r(355, 113).is_less(&r(22, 7)));
}
