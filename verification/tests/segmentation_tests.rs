use chart_trends::config::{CustomParts, PyTrendBreakConfig, TrendBreakConfig};
use chart_trends::error::TrendError;
use chart_trends::regression::TrendLine;
use chart_trends::segmentation::{break_down_trends, segment_trends, TrendSegment};

fn seg(start_index: usize, end_index: usize, slope_num: i128, intercept_num: i128, den: i128) -> TrendSegment {
    TrendSegment { start_index, end_index, line: TrendLine { slope_num, intercept_num, den } }
}

fn slope(s: &TrendSegment) -> f64 {
    s.line.slope_num as f64 / s.line.den as f64
}

fn intercept(s: &TrendSegment) -> f64 {
    s.line.intercept_num as f64 / s.line.den as f64
}

fn covers_exactly_once(segments: &[TrendSegment], n: usize) {
    assert!(!segments.is_empty());
    assert_eq!(segments[0].start_index, 0);
    assert_eq!(segments[segments.len() - 1].end_index, n - 1);
    for s in segments {
        assert!(s.start_index <= s.end_index);
        assert!(s.line.den > 0);
    }
    for pair in segments.windows(2) {
        assert_eq!(pair[1].start_index, pair[0].end_index + 1);
    }
}

fn noisy() -> Vec<i64> {
    vec![100, 102, 103, 101, 99, 99, 102, 103, 106, 107, 105, 104, 101, 97, 100]
}

#[test]
fn linear_series_is_one_segment() {
    let prices: Vec<i64> = (1..=100).collect();
    let segments = break_down_trends(&prices, Some("default"), &CustomParts::empty()).unwrap();
    assert_eq!(segments.len(), 1);
    assert_eq!(segments[0].start_index, 0);
    assert_eq!(segments[0].end_index, 99);
    assert!((slope(&segments[0]) - 1.0).abs() < 1e-12);
    assert!((intercept(&segments[0]) - 1.0).abs() < 1e-12);
    assert_eq!(segments, vec![seg(0, 99, 8332500, 8332500, 8332500)]);
}

#[test]
fn slope_reversal_breaks_the_trend() {
    let mut prices: Vec<i64> = (0..50).collect();
    for i in 50..100 {
        prices.push(100 - i);
    }
    let segments = break_down_trends(&prices, Some("default"), &CustomParts::empty()).unwrap();
    assert!(segments.len() >= 2);
    covers_exactly_once(&segments, 100);
    let boundary = segments[0].end_index;
    assert!(boundary >= 48 && boundary <= 52);
    assert!(slope(&segments[0]) > 0.9);
    assert!(slope(&segments[1]) < -0.9);
    assert_eq!(segments, vec![seg(0, 50, 563550, 0, 563550), seg(51, 99, -480200, 48020000, 480200)]);
}

#[test]
fn noisy_series_under_the_default_preset() {
    let segments = break_down_trends(&noisy(), Some("default"), &CustomParts::empty()).unwrap();
    assert_eq!(
        segments,
        vec![
            seg(0, 2, 9, 601, 6),
            seg(3, 5, -6, 622, 6),
            seg(6, 8, 12, 538, 6),
            seg(9, 11, -9, 722, 6),
            seg(12, 13, -4, 149, 1),
            seg(14, 14, 0, 100, 1),
        ]
    );
    covers_exactly_once(&segments, 15);
}

#[test]
fn noisy_series_under_the_conservative_preset() {
    let segments = break_down_trends(&noisy(), Some("Conservative"), &CustomParts::empty()).unwrap();
    assert_eq!(
        segments,
        vec![
            seg(0, 1, 2, 100, 1),
            seg(2, 4, -12, 642, 6),
            seg(5, 6, 3, 84, 1),
            seg(7, 8, 3, 82, 1),
            seg(9, 14, -186, 12884, 105),
        ]
    );
    covers_exactly_once(&segments, 15);
}

#[test]
fn moderate_is_default() {
    let a = break_down_trends(&noisy(), Some("moderate"), &CustomParts::empty()).unwrap();
    let b = break_down_trends(&noisy(), Some("default"), &CustomParts::empty()).unwrap();
    assert_eq!(a, b);
    let c = segment_trends(&noisy(), &TrendBreakConfig::default()).unwrap();
    assert_eq!(a, c);
}

#[test]
fn custom_values_choose_the_thresholds() {
    let parts = CustomParts {
        max_outliers: Some(2),
        soft_adj_r_squared_minimum: Some(400),
        hard_adj_r_squared_minimum: Some(200),
        soft_rmse_multiplier: Some(1500),
        hard_rmse_multiplier: Some(2500),
        soft_durbin_watson_min: Some(1200),
        soft_durbin_watson_max: Some(2800),
        hard_durbin_watson_min: Some(900),
        hard_durbin_watson_max: Some(3100),
    };
    let custom = break_down_trends(&noisy(), None, &parts).unwrap();
    let preset = break_down_trends(&noisy(), Some("conservative"), &CustomParts::empty()).unwrap();
    assert_eq!(custom, preset);
}

#[test]
fn segments_cover_every_series_exactly_once() {
    let mut state: u64 = 12345;
    let presets = [
        PyTrendBreakConfig::Default,
        PyTrendBreakConfig::Conservative,
        PyTrendBreakConfig::Aggressive,
        PyTrendBreakConfig::custom(5, 900, -900, 1000, 100000, 1900, 2100, 0, 4000),
    ];
    for round in 0..40 {
        let n = 1 + (round * 7) % 60;
        let mut prices = Vec::new();
        let mut level: i64 = 1000;
        for _ in 0..n {
            state = state.wrapping_mul(6364136223846793005).wrapping_add(1442695040888963407);
            level += ((state >> 33) % 21) as i64 - 10;
            prices.push(level);
        }
        for preset in presets {
            let thresholds = preset.resolve().unwrap();
            let segments = segment_trends(&prices, &thresholds).unwrap();
            covers_exactly_once(&segments, n);
        }
    }
}

#[test]
fn single_price_is_one_flat_segment() {
    let segments = break_down_trends(&[42], Some("default"), &CustomParts::empty()).unwrap();
    assert_eq!(segments, vec![seg(0, 0, 0, 42, 1)]);
}

#[test]
fn two_prices_are_one_segment() {
    let segments = break_down_trends(&[3, 9], Some("aggressive"), &CustomParts::empty()).unwrap();
    assert_eq!(segments, vec![seg(0, 1, 6, 3, 1)]);
}

fn tolerant(max_outliers: usize) -> TrendBreakConfig {
    // Only an adjusted R squared below 0.99 is a violation, and a soft one.
    PyTrendBreakConfig::custom(max_outliers, 990, -100000, 100000, 100000, -100000, 100000, -100000, 100000)
        .resolve()
        .unwrap()
}

#[test]
fn trailing_outliers_stay_in_the_last_segment() {
    // Eight points near a line, then three soft violations within a budget of three.
    let prices = [0, 10, 21, 30, 40, 50, 61, 70, 60, 80, 70];
    let segments = segment_trends(&prices, &tolerant(3)).unwrap();
    assert_eq!(segments, vec![seg(0, 10, 9328, 7480, 1210)]);
}

#[test]
fn exhausted_outlier_budget_breaks_after_the_last_conforming_point() {
    // The same prices with a budget of two: the third violation closes the
    // segment at index 7, and the next one begins at 8 with the outliers.
    let prices = [0, 10, 21, 30, 40, 50, 61, 70, 60, 80, 70];
    let segments = segment_trends(&prices, &tolerant(2)).unwrap();
    assert_eq!(segments, vec![seg(0, 7, 3368, 56, 336), seg(8, 10, 30, 150, 6)]);
    covers_exactly_once(&segments, 11);
}

#[test]
fn no_budget_breaks_at_the_first_soft_violation() {
    let prices = [0, 10, 21, 30, 40, 50, 61, 70, 60, 55, 50, 45];
    let segments = segment_trends(&prices, &tolerant(0)).unwrap();
    assert_eq!(segments, vec![seg(0, 7, 3368, 56, 336), seg(8, 11, -100, 2000, 20)]);
}

#[test]
fn segmentation_refusals() {
    let good = TrendBreakConfig::default();
    assert_eq!(segment_trends(&[], &good), Err(TrendError::InvalidInput));
    assert_eq!(segment_trends(&[i64::MAX, i64::MAX, 0], &good), Err(TrendError::Overflow));
    assert_eq!(segment_trends(&[0, i64::MIN, i64::MAX], &good), Err(TrendError::Overflow));
    let mut bad = good;
    bad.soft_adj_r_squared_minimum = bad.hard_adj_r_squared_minimum;
    assert_eq!(segment_trends(&[1, 2, 3], &bad), Err(TrendError::InvalidConfiguration));
    assert_eq!(segment_trends(&[], &bad), Err(TrendError::InvalidConfiguration));
    let parts = CustomParts {
        max_outliers: Some(1),
        soft_adj_r_squared_minimum: Some(50),
        hard_adj_r_squared_minimum: Some(250),
        soft_rmse_multiplier: Some(1200),
        hard_rmse_multiplier: Some(1800),
        soft_durbin_watson_min: Some(1000),
        soft_durbin_watson_max: Some(3000),
        hard_durbin_watson_min: Some(500),
        hard_durbin_watson_max: Some(3500),
    };
    assert_eq!(break_down_trends(&[1, 2, 3], None, &parts), Err(TrendError::InvalidConfiguration));
}

#[test]
fn large_prices_are_segmented() {
    let good = TrendBreakConfig::default();
    assert_eq!(
        segment_trends(&[2000000, 2000001, 2000002], &good),
        Ok(vec![seg(0, 2, 6, 12000000, 6)])
    );
    assert_eq!(segment_trends(&[1, 2, 1048577], &good), Ok(vec![seg(0, 2, 3145728, -1048568, 6)]));
    let flat = vec![1i64; 1025];
    let segments = segment_trends(&flat, &good).unwrap();
    assert_eq!(segments.len(), 1);
    assert_eq!((segments[0].start_index, segments[0].end_index), (0, 1024));
    // The noisy series lifted by three billion: the same trends, higher.
    let lifted: Vec<i64> = noisy().iter().map(|p| p + 3000000000).collect();
    let low = segment_trends(&noisy(), &good).unwrap();
    let high = segment_trends(&lifted, &good).unwrap();
    assert_eq!(low.len(), high.len());
    for (a, b) in low.iter().zip(high.iter()) {
        assert_eq!((a.start_index, a.end_index), (b.start_index, b.end_index));
        assert_eq!(a.line.slope_num * b.line.den, b.line.slope_num * a.line.den);
        assert_eq!(
            (a.line.intercept_num + 3000000000 * a.line.den) * b.line.den,
            b.line.intercept_num * a.line.den
        );
    }
}

#[test]
fn long_series_is_segmented() {
    let mut prices = Vec::new();
    for i in 0..5000i64 {
        prices.push(if (i / 50) % 2 == 0 { (i % 50) * 1000 + 7000000 } else { 7050000 - (i % 50) * 1000 });
    }
    let segments = segment_trends(&prices, &TrendBreakConfig::default()).unwrap();
    covers_exactly_once(&segments, 5000);
    assert!(segments.len() >= 100);
}

#[test]
fn series_of_1024_is_segmented() {
    let mut prices = Vec::new();
    for i in 0..1024i64 {
        prices.push(if (i / 64) % 2 == 0 { (i % 64) * 1000 } else { 64000 - (i % 64) * 1000 });
    }
    let segments = segment_trends(&prices, &TrendBreakConfig::default()).unwrap();
    covers_exactly_once(&segments, 1024);
    assert!(segments.len() >= 16);
}
