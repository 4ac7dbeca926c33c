use chart_trends::config::TrendBreakConfig;
use chart_trends::error::TrendError;
use chart_trends::quality::{fit_quality, FitQuality};
use chart_trends::ratio::Ratio;
use chart_trends::segmentation::{classify, PointClass};

fn r(num: i128, den: i128) -> Ratio {
    Ratio { num, den }
}

fn pair(x: &Ratio) -> (i128, i128) {
    (x.num, x.den)
}

fn value(x: &Ratio) -> f64 {
    x.num as f64 / x.den as f64
}

fn quality(adj: Option<Ratio>, mse: Ratio, dw: Ratio) -> FitQuality {
    FitQuality { points: 5, adjusted_r_squared: adj, mean_squared_error: mse, durbin_watson: dw }
}

#[test]
fn statistics_of_a_small_window() {
    // Fitted values 1.1, 2.2, 3.3, 4.4; residuals -0.1, 0.8, -1.3, 0.6.
    let q = fit_quality(&[1, 3, 2, 5]).unwrap();
    assert_eq!(q.points, 4);
    assert_eq!(pair(&q.adjusted_r_squared.unwrap()), (752, 1400));
    assert_eq!(pair(&q.mean_squared_error), (216, 320));
    assert_eq!(pair(&q.durbin_watson), (14128, 4320));
    assert!((value(&q.mean_squared_error) - 0.675).abs() < 1e-12);
    assert!((value(&q.durbin_watson) - 8.83 / 2.7).abs() < 1e-12);
    assert!((value(&q.adjusted_r_squared.unwrap()) - (1.0 - (2.7 / 8.75) * 1.5)).abs() < 1e-12);
}

#[test]
fn statistics_of_three_points() {
    let q = fit_quality(&[100, 102, 103]).unwrap();
    assert_eq!(pair(&q.adjusted_r_squared.unwrap()), (104, 112));
    assert_eq!(pair(&q.mean_squared_error), (4, 72));
    assert_eq!(pair(&q.durbin_watson), (96, 32));
}

#[test]
fn adjusted_r_squared_can_be_negative() {
    let q = fit_quality(&[100, 102, 103, 101]).unwrap();
    assert_eq!(pair(&q.adjusted_r_squared.unwrap()), (-208, 800));
    assert_eq!(pair(&q.mean_squared_error), (336, 320));
    assert_eq!(pair(&q.durbin_watson), (13888, 6720));
}

#[test]
fn perfect_fit_statistics() {
    for window in [vec![7], vec![3, 9], vec![1, 2, 3, 4, 5], vec![5, 5, 5, 5], vec![9, 6, 3, 0, -3]] {
        let q = fit_quality(&window).unwrap();
        assert_eq!(q.points, window.len());
        assert_eq!(pair(&q.adjusted_r_squared.unwrap()), (1, 1));
        assert_eq!(pair(&q.mean_squared_error), (0, 1));
        assert_eq!(pair(&q.durbin_watson), (2, 1));
    }
}

#[test]
fn linear_series_fits_perfectly() {
    let prices: Vec<i64> = (1..=100).collect();
    let q = fit_quality(&prices).unwrap();
    assert_eq!(pair(&q.adjusted_r_squared.unwrap()), (1, 1));
}

#[test]
fn quality_refusals() {
    assert!(matches!(fit_quality(&[]), Err(TrendError::InvalidInput)));
    assert!(matches!(fit_quality(&[i64::MAX, i64::MAX]), Err(TrendError::Overflow)));
    assert!(matches!(fit_quality(&[i64::MIN, 0, i64::MIN]), Err(TrendError::Overflow)));
    assert!(fit_quality(&[i64::MAX]).is_ok());
    assert!(fit_quality(&[1, 1048577]).is_ok());
    assert!(fit_quality(&vec![0i64; 1025]).is_ok());
}

#[test]
fn statistics_of_large_prices() {
    // The small window of above, lifted by two million: the same residuals.
    let q = fit_quality(&[2000001, 2000003, 2000002, 2000005]).unwrap();
    assert_eq!(pair(&q.adjusted_r_squared.unwrap()), (752, 1400));
    assert_eq!(pair(&q.mean_squared_error), (216, 320));
    assert_eq!(pair(&q.durbin_watson), (14128, 4320));
}

#[test]
fn long_alternating_window() {
    let mut prices = Vec::new();
    for i in 0..1024 {
        prices.push(if i % 2 == 0 { 1048576 } else { -1048576 });
    }
    let q = fit_quality(&prices).unwrap();
    assert!(q.mean_squared_error.den > 0 && q.mean_squared_error.num > 0);
    assert!(q.durbin_watson.den > 0 && q.durbin_watson.num > 0);
    // Alternating prices: strong negative autocorrelation, close to 4.
    assert!(value(&q.durbin_watson) > 3.9 && value(&q.durbin_watson) < 4.0);
    assert!((value(&q.mean_squared_error).sqrt() - 1048576.0).abs() < 2000.0);
    let mut ramp = Vec::new();
    for i in 0..1024 {
        ramp.push(-1048576 + 2048 * i + (i % 2));
    }
    let q = fit_quality(&ramp).unwrap();
    assert!(value(&q.adjusted_r_squared.unwrap()) > 0.999999);
}

#[test]
fn classes_by_adjusted_r_squared() {
    let config = TrendBreakConfig::default();
    let good = quality(Some(r(1, 2)), r(1, 1), r(2, 1));
    let weak = quality(Some(r(1, 5)), r(1, 1), r(2, 1));
    let poor = quality(Some(r(1, 25)), r(1, 1), r(2, 1));
    let negative = quality(Some(r(-1, 5)), r(1, 1), r(2, 1));
    let undefined = quality(None, r(1, 1), r(2, 1));
    assert_eq!(classify(&good, &None, &config), Ok(PointClass::Conforming));
    assert_eq!(classify(&weak, &None, &config), Ok(PointClass::SoftViolating));
    assert_eq!(classify(&poor, &None, &config), Ok(PointClass::HardViolating));
    assert_eq!(classify(&negative, &None, &config), Ok(PointClass::HardViolating));
    assert_eq!(classify(&undefined, &None, &config), Ok(PointClass::HardViolating));
    // The minimum itself conforms.
    let at_soft = quality(Some(r(1, 4)), r(1, 1), r(2, 1));
    let at_hard = quality(Some(r(1, 20)), r(1, 1), r(2, 1));
    assert_eq!(classify(&at_soft, &None, &config), Ok(PointClass::Conforming));
    assert_eq!(classify(&at_hard, &None, &config), Ok(PointClass::SoftViolating));
}

#[test]
fn classes_by_error_against_the_reference() {
    let config = TrendBreakConfig::default();
    let reference = Some(r(100, 1));
    // RMSE 10 is the reference: 13 and 20 are the thresholds, 169 and 400 their squares.
    let q = |mse: Ratio| quality(Some(r(1, 1)), mse, r(2, 1));
    assert_eq!(classify(&q(r(169, 1)), &reference, &config), Ok(PointClass::Conforming));
    assert_eq!(classify(&q(r(170, 1)), &reference, &config), Ok(PointClass::SoftViolating));
    assert_eq!(classify(&q(r(400, 1)), &reference, &config), Ok(PointClass::SoftViolating));
    assert_eq!(classify(&q(r(401, 1)), &reference, &config), Ok(PointClass::HardViolating));
    assert_eq!(classify(&q(r(401, 1)), &None, &config), Ok(PointClass::Conforming));
    // Against a reference of zero any error is a hard violation.
    assert_eq!(classify(&q(r(1, 1000)), &Some(r(0, 1)), &config), Ok(PointClass::HardViolating));
    assert_eq!(classify(&q(r(0, 1)), &Some(r(0, 1)), &config), Ok(PointClass::Conforming));
}

#[test]
fn classes_by_durbin_watson() {
    let config = TrendBreakConfig::default();
    let q = |dw: Ratio| quality(Some(r(1, 1)), r(0, 1), dw);
    assert_eq!(classify(&q(r(1, 1)), &None, &config), Ok(PointClass::Conforming));
    assert_eq!(classify(&q(r(3, 1)), &None, &config), Ok(PointClass::Conforming));
    assert_eq!(classify(&q(r(999, 1000)), &None, &config), Ok(PointClass::SoftViolating));
    assert_eq!(classify(&q(r(7, 10)), &None, &config), Ok(PointClass::SoftViolating));
    assert_eq!(classify(&q(r(699, 1000)), &None, &config), Ok(PointClass::HardViolating));
    assert_eq!(classify(&q(r(3001, 1000)), &None, &config), Ok(PointClass::SoftViolating));
    assert_eq!(classify(&q(r(33, 10)), &None, &config), Ok(PointClass::SoftViolating));
    assert_eq!(classify(&q(r(3301, 1000)), &None, &config), Ok(PointClass::HardViolating));
}

#[test]
fn negative_multiplier_is_exceeded_by_any_error() {
    let mut config = TrendBreakConfig::default();
    config.soft_rmse_multiplier = -5;
    let q = |mse: Ratio| quality(Some(r(1, 1)), mse, r(2, 1));
    assert_eq!(classify(&q(r(1, 1000)), &Some(r(0, 1)), &config), Ok(PointClass::HardViolating));
    config.hard_rmse_multiplier = 1000000;
    assert_eq!(classify(&q(r(1, 1000)), &Some(r(1, 1)), &config), Ok(PointClass::SoftViolating));
    assert_eq!(classify(&q(r(0, 1)), &Some(r(1, 1)), &config), Ok(PointClass::SoftViolating));
    assert_eq!(classify(&q(r(0, 1)), &Some(r(0, 1)), &config), Ok(PointClass::Conforming));
    assert_eq!(classify(&q(r(1, 1)), &None, &config), Ok(PointClass::Conforming));
}

#[test]
fn reference_beyond_128_bits_overflows() {
    let mut config = TrendBreakConfig::default();
    let q = quality(Some(r(1, 1)), r(1, 1), r(2, 1));
    let reference = Some(r(1i128 << 100, 1));
    assert_eq!(classify(&q, &reference, &config), Ok(PointClass::Conforming));
    config.hard_rmse_multiplier = i64::MAX;
    assert_eq!(classify(&q, &reference, &config), Err(TrendError::Overflow));
    assert_eq!(classify(&q, &None, &config), Ok(PointClass::Conforming));
    assert_eq!(classify(&q, &Some(r(1, 1)), &config), Ok(PointClass::Conforming));
}
