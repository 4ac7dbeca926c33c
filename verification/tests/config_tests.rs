use chart_trends::config::{select_config, CustomParts, PyTrendBreakConfig, TrendBreakConfig};
use chart_trends::error::TrendError;
use chart_trends::models::{PyConstantModelType, PyDeviationModel, PyMovingAverageType, PyPosition};
use chart_trends::segmentation::break_down_trends;

fn all_nine() -> CustomParts {
    CustomParts {
        max_outliers: Some(1),
        soft_adj_r_squared_minimum: Some(250),
        hard_adj_r_squared_minimum: Some(50),
        soft_rmse_multiplier: Some(1200),
        hard_rmse_multiplier: Some(1800),
        soft_durbin_watson_min: Some(1000),
        soft_durbin_watson_max: Some(3000),
        hard_durbin_watson_min: Some(500),
        hard_durbin_watson_max: Some(3500),
    }
}

#[test]
fn presets_by_name() {
    assert_eq!(PyTrendBreakConfig::from_string("default"), Ok(PyTrendBreakConfig::Default));
    assert_eq!(PyTrendBreakConfig::from_string("conservative"), Ok(PyTrendBreakConfig::Conservative));
    assert_eq!(PyTrendBreakConfig::from_string("moderate"), Ok(PyTrendBreakConfig::Moderate));
    assert_eq!(PyTrendBreakConfig::from_string("aggressive"), Ok(PyTrendBreakConfig::Aggressive));
    assert_eq!(PyTrendBreakConfig::from_string("bold"), Err(TrendError::InvalidConfiguration));
    assert_eq!(PyTrendBreakConfig::from_string(""), Err(TrendError::InvalidConfiguration));
}

#[test]
fn preset_names_ignore_case() {
    assert_eq!(PyTrendBreakConfig::from_string("DEFAULT"), Ok(PyTrendBreakConfig::Default));
    assert_eq!(PyTrendBreakConfig::from_string("Aggressive"), Ok(PyTrendBreakConfig::Aggressive));
    assert_eq!(PyTrendBreakConfig::from_lowercase("DEFAULT"), Err(TrendError::InvalidConfiguration));
    assert_eq!(PyTrendBreakConfig::from_lowercase("default"), Ok(PyTrendBreakConfig::Default));
}

#[test]
fn preset_thresholds() {
    let d = PyTrendBreakConfig::Default.resolve().unwrap();
    assert_eq!(d, TrendBreakConfig::default());
    assert_eq!(
        d,
        TrendBreakConfig {
            max_outliers: 1,
            soft_adj_r_squared_minimum: 250,
            hard_adj_r_squared_minimum: 50,
            soft_rmse_multiplier: 1300,
            hard_rmse_multiplier: 2000,
            soft_durbin_watson_min: 1000,
            soft_durbin_watson_max: 3000,
            hard_durbin_watson_min: 700,
            hard_durbin_watson_max: 3300,
        }
    );
    assert_eq!(PyTrendBreakConfig::Moderate.resolve().unwrap(), d);
    let c = PyTrendBreakConfig::Conservative.resolve().unwrap();
    assert_eq!(
        c,
        TrendBreakConfig {
            max_outliers: 2,
            soft_adj_r_squared_minimum: 400,
            hard_adj_r_squared_minimum: 200,
            soft_rmse_multiplier: 1500,
            hard_rmse_multiplier: 2500,
            soft_durbin_watson_min: 1200,
            soft_durbin_watson_max: 2800,
            hard_durbin_watson_min: 900,
            hard_durbin_watson_max: 3100,
        }
    );
    let a = PyTrendBreakConfig::Aggressive.resolve().unwrap();
    assert_eq!(
        a,
        TrendBreakConfig {
            max_outliers: 0,
            soft_adj_r_squared_minimum: 100,
            hard_adj_r_squared_minimum: 10,
            soft_rmse_multiplier: 1100,
            hard_rmse_multiplier: 1500,
            soft_durbin_watson_min: 800,
            soft_durbin_watson_max: 3200,
            hard_durbin_watson_min: 500,
            hard_durbin_watson_max: 3500,
        }
    );
    assert!(d.is_valid() && c.is_valid() && a.is_valid());
}

#[test]
fn custom_choice_resolves_to_its_values() {
    let choice = PyTrendBreakConfig::custom(3, 300, 100, 1200, 1800, 1000, 3000, 500, 3500);
    let t = choice.resolve().unwrap();
    assert_eq!(t.max_outliers, 3);
    assert_eq!(t.soft_adj_r_squared_minimum, 300);
    assert_eq!(t.hard_adj_r_squared_minimum, 100);
    assert_eq!(t.soft_rmse_multiplier, 1200);
    assert_eq!(t.hard_rmse_multiplier, 1800);
    assert_eq!(t.soft_durbin_watson_min, 1000);
    assert_eq!(t.soft_durbin_watson_max, 3000);
    assert_eq!(t.hard_durbin_watson_min, 500);
    assert_eq!(t.hard_durbin_watson_max, 3500);
}

#[test]
fn thresholds_out_of_order_are_refused() {
    let bad = [
        PyTrendBreakConfig::custom(1, 50, 50, 1200, 1800, 1000, 3000, 500, 3500),
        PyTrendBreakConfig::custom(1, 40, 50, 1200, 1800, 1000, 3000, 500, 3500),
        PyTrendBreakConfig::custom(1, 250, 50, 1900, 1800, 1000, 3000, 500, 3500),
        PyTrendBreakConfig::custom(1, 250, 50, 1200, 1800, 400, 3000, 500, 3500),
        PyTrendBreakConfig::custom(1, 250, 50, 1200, 1800, 1000, 3600, 500, 3500),
        PyTrendBreakConfig::custom(1, 250, 50, 1200, 1800, 3100, 3000, 500, 3500),
    ];
    for choice in bad {
        assert_eq!(choice.resolve(), Err(TrendError::InvalidConfiguration));
    }
    let edge = PyTrendBreakConfig::custom(0, 51, 50, 0, 0, 500, 500, 500, 500);
    assert!(edge.resolve().is_ok());
}

#[test]
fn thresholds_in_order_are_accepted_whatever_their_size() {
    let good = [
        PyTrendBreakConfig::custom(1, 250, 50, 1200, 100001, 1000, 3000, 500, 3500),
        PyTrendBreakConfig::custom(1, 250, 50, 1200, i64::MAX, 1000, 3000, 500, 3500),
        PyTrendBreakConfig::custom(1, 250, 50, -1, 1800, 1000, 3000, 500, 3500),
        PyTrendBreakConfig::custom(usize::MAX, i64::MAX, i64::MIN, i64::MIN, i64::MAX, 0, 0, i64::MIN, i64::MAX),
    ];
    for choice in good {
        assert!(choice.resolve().is_ok());
    }
}

#[test]
fn a_name_alone_selects_a_preset() {
    assert_eq!(select_config(Some("Moderate"), &CustomParts::empty()), Ok(PyTrendBreakConfig::Moderate));
    assert_eq!(select_config(Some("nope"), &CustomParts::empty()), Err(TrendError::InvalidConfiguration));
}

#[test]
fn nine_values_alone_select_a_custom_choice() {
    assert_eq!(
        select_config(None, &all_nine()),
        Ok(PyTrendBreakConfig::custom(1, 250, 50, 1200, 1800, 1000, 3000, 500, 3500))
    );
}

#[test]
fn preset_with_custom_value_is_refused() {
    let mut one = CustomParts::empty();
    one.max_outliers = Some(2);
    assert_eq!(select_config(Some("default"), &one), Err(TrendError::InvalidConfiguration));
    assert_eq!(select_config(Some("default"), &all_nine()), Err(TrendError::InvalidConfiguration));
    let prices = vec![1, 2, 3, 4, 5];
    assert_eq!(break_down_trends(&prices, Some("default"), &one), Err(TrendError::InvalidConfiguration));
    assert_eq!(
        break_down_trends(&prices, Some("default"), &all_nine()),
        Err(TrendError::InvalidConfiguration)
    );
    let mut last = CustomParts::empty();
    last.hard_durbin_watson_max = Some(3500);
    assert_eq!(break_down_trends(&prices, Some("aggressive"), &last), Err(TrendError::InvalidConfiguration));
}

#[test]
fn partial_custom_values_are_refused() {
    let prices = vec![1, 2, 3, 4, 5];
    assert_eq!(break_down_trends(&prices, None, &CustomParts::empty()), Err(TrendError::InvalidConfiguration));
    let fields: [fn(&mut CustomParts); 9] = [
        |c| c.max_outliers = None,
        |c| c.soft_adj_r_squared_minimum = None,
        |c| c.hard_adj_r_squared_minimum = None,
        |c| c.soft_rmse_multiplier = None,
        |c| c.hard_rmse_multiplier = None,
        |c| c.soft_durbin_watson_min = None,
        |c| c.soft_durbin_watson_max = None,
        |c| c.hard_durbin_watson_min = None,
        |c| c.hard_durbin_watson_max = None,
    ];
    for clear in fields {
        let mut parts = all_nine();
        clear(&mut parts);
        assert!(!parts.is_empty());
        assert_eq!(parts.complete(), None);
        assert_eq!(select_config(None, &parts), Err(TrendError::InvalidConfiguration));
        assert_eq!(break_down_trends(&prices, None, &parts), Err(TrendError::InvalidConfiguration));
    }
    assert!(break_down_trends(&prices, None, &all_nine()).is_ok());
    assert!(CustomParts::empty().is_empty());
}

#[test]
fn unknown_preset_is_refused_before_the_prices_are_read() {
    assert_eq!(break_down_trends(&[], Some("nope"), &CustomParts::empty()), Err(TrendError::InvalidConfiguration));
    assert_eq!(break_down_trends(&[], Some("default"), &CustomParts::empty()), Err(TrendError::InvalidInput));
}

#[test]
fn constant_model_names() {
    let cases = [
        ("simple", PyConstantModelType::SimpleMovingAverage),
        ("ma", PyConstantModelType::SimpleMovingAverage),
        ("simple_moving_average", PyConstantModelType::SimpleMovingAverage),
        ("smoothed", PyConstantModelType::SmoothedMovingAverage),
        ("sma", PyConstantModelType::SmoothedMovingAverage),
        ("smoothed_moving_average", PyConstantModelType::SmoothedMovingAverage),
        ("exponential", PyConstantModelType::ExponentialMovingAverage),
        ("ema", PyConstantModelType::ExponentialMovingAverage),
        ("exponential_moving_average", PyConstantModelType::ExponentialMovingAverage),
        ("median", PyConstantModelType::SimpleMovingMedian),
        ("smm", PyConstantModelType::SimpleMovingMedian),
        ("simple_moving_median", PyConstantModelType::SimpleMovingMedian),
        ("mode", PyConstantModelType::SimpleMovingMode),
        ("simple_moving_mode", PyConstantModelType::SimpleMovingMode),
        ("EMA", PyConstantModelType::ExponentialMovingAverage),
    ];
    for (name, expected) in cases {
        assert_eq!(PyConstantModelType::from_string(name), Ok(expected));
    }
    assert_eq!(PyConstantModelType::from_string("average"), Err(TrendError::InvalidConfiguration));
    assert_eq!(PyConstantModelType::from_lowercase("EMA"), Err(TrendError::InvalidConfiguration));
}

#[test]
fn deviation_model_names() {
    let cases = [
        ("standard", PyDeviationModel::StandardDeviation),
        ("std", PyDeviationModel::StandardDeviation),
        ("standard_deviation", PyDeviationModel::StandardDeviation),
        ("mean", PyDeviationModel::MeanAbsoluteDeviation),
        ("mean_absolute_deviation", PyDeviationModel::MeanAbsoluteDeviation),
        ("median", PyDeviationModel::MedianAbsoluteDeviation),
        ("median_absolute_deviation", PyDeviationModel::MedianAbsoluteDeviation),
        ("mode", PyDeviationModel::ModeAbsoluteDeviation),
        ("mode_absolute_deviation", PyDeviationModel::ModeAbsoluteDeviation),
        ("ulcer", PyDeviationModel::UlcerIndex),
        ("ulcer_index", PyDeviationModel::UlcerIndex),
        ("Ulcer_Index", PyDeviationModel::UlcerIndex),
    ];
    for (name, expected) in cases {
        assert_eq!(PyDeviationModel::from_string(name), Ok(expected));
    }
    assert_eq!(PyDeviationModel::from_string("sma"), Err(TrendError::InvalidConfiguration));
    assert_eq!(PyDeviationModel::from_lowercase("STD"), Err(TrendError::InvalidConfiguration));
}

#[test]
fn moving_average_names() {
    assert_eq!(PyMovingAverageType::from_string("simple"), Ok(PyMovingAverageType::Simple));
    assert_eq!(PyMovingAverageType::from_string("Smoothed"), Ok(PyMovingAverageType::Smoothed));
    assert_eq!(PyMovingAverageType::from_string("EXPONENTIAL"), Ok(PyMovingAverageType::Exponential));
    assert_eq!(PyMovingAverageType::from_string("ema"), Err(TrendError::InvalidConfiguration));
    assert_eq!(PyMovingAverageType::from_lowercase("Simple"), Err(TrendError::InvalidConfiguration));
}

#[test]
fn position_names() {
    assert_eq!(PyPosition::from_string("long"), Ok(PyPosition::Long));
    assert_eq!(PyPosition::from_string("SHORT"), Ok(PyPosition::Short));
    assert_eq!(PyPosition::from_string("flat"), Err(TrendError::InvalidConfiguration));
    assert_eq!(PyPosition::from_lowercase("Long"), Err(TrendError::InvalidConfiguration));
}

#[test]
fn thresholds_from_a_choice() {
    assert_eq!(TrendBreakConfig::from(PyTrendBreakConfig::Default), TrendBreakConfig::default());
    assert_eq!(TrendBreakConfig::from(PyTrendBreakConfig::Moderate), TrendBreakConfig::default());
    let conservative: TrendBreakConfig = PyTrendBreakConfig::Conservative.into();
    assert_eq!(conservative.max_outliers, 2);
    let aggressive: TrendBreakConfig = PyTrendBreakConfig::Aggressive.into();
    assert_eq!(aggressive.hard_adj_r_squared_minimum, 10);
    // Thresholds out of order are handed over as they are, and refused where they are used.
    let unordered = TrendBreakConfig::from(PyTrendBreakConfig::custom(7, 1, 2, 3, 4, 5, 6, 7, 8));
    assert_eq!(unordered.max_outliers, 7);
    assert_eq!(unordered.soft_adj_r_squared_minimum, 1);
    assert_eq!(unordered.hard_durbin_watson_max, 8);
    assert!(!unordered.is_valid());
}
