use vstd::prelude::*;
use crate::error::TrendError;
use crate::text::{lowercase, same_text, to_lowercase};

verus! {

/// How the central value of a window of prices is taken.
#[derive(Clone, Copy, Debug, PartialEq, Eq, Structural)]
pub enum PyConstantModelType {
    SimpleMovingAverage,
    SmoothedMovingAverage,
    ExponentialMovingAverage,
    SimpleMovingMedian,
    SimpleMovingMode,
}

/// The variant that a lowercase name stands for; a name that stands for
/// none is `InvalidConfiguration`.
pub open spec fn constant_model_named(name: Seq<char>) -> Result<PyConstantModelType, TrendError> {
    if name == "simple"@ || name == "ma"@ || name == "simple_moving_average"@ {
        Ok(PyConstantModelType::SimpleMovingAverage)
    } else if name == "smoothed"@ || name == "sma"@ || name == "smoothed_moving_average"@ {
        Ok(PyConstantModelType::SmoothedMovingAverage)
    } else if name == "exponential"@ || name == "ema"@ || name == "exponential_moving_average"@ {
        Ok(PyConstantModelType::ExponentialMovingAverage)
    } else if name == "median"@ || name == "smm"@ || name == "simple_moving_median"@ {
        Ok(PyConstantModelType::SimpleMovingMedian)
    } else if name == "mode"@ || name == "simple_moving_mode"@ {
        Ok(PyConstantModelType::SimpleMovingMode)
    } else {
        Err(TrendError::InvalidConfiguration)
    }
}

impl PyConstantModelType {
    /// Reads a name that is already in lowercase.
    pub fn from_lowercase(name: &str) -> (r: Result<Self, TrendError>)
        ensures
            r == constant_model_named(name@),
    {
        if same_text(name, "simple") || same_text(name, "ma") || same_text(name, "simple_moving_average") {
            Ok(PyConstantModelType::SimpleMovingAverage)
        } else if same_text(name, "smoothed") || same_text(name, "sma") || same_text(name, "smoothed_moving_average") {
            Ok(PyConstantModelType::SmoothedMovingAverage)
        } else if same_text(name, "exponential") || same_text(name, "ema") || same_text(name, "exponential_moving_average") {
            Ok(PyConstantModelType::ExponentialMovingAverage)
        } else if same_text(name, "median") || same_text(name, "smm") || same_text(name, "simple_moving_median") {
            Ok(PyConstantModelType::SimpleMovingMedian)
        } else if same_text(name, "mode") || same_text(name, "simple_moving_mode") {
            Ok(PyConstantModelType::SimpleMovingMode)
        } else {
            Err(TrendError::InvalidConfiguration)
        }
    }

    /// Reads a name, whatever its case.
    pub fn from_string(s: &str) -> (r: Result<Self, TrendError>)
        ensures
            r == constant_model_named(lowercase(s@)),
    {
        let lowered: String = to_lowercase(s);
        Self::from_lowercase(lowered.as_str())
    }
}

/// How the dispersion of a window of prices is measured.
#[derive(Clone, Copy, Debug, PartialEq, Eq, Structural)]
pub enum PyDeviationModel {
    StandardDeviation,
    MeanAbsoluteDeviation,
    MedianAbsoluteDeviation,
    ModeAbsoluteDeviation,
    UlcerIndex,
}

/// The variant that a lowercase name stands for; a name that stands for
/// none is `InvalidConfiguration`.
pub open spec fn deviation_model_named(name: Seq<char>) -> Result<PyDeviationModel, TrendError> {
    if name == "standard"@ || name == "std"@ || name == "standard_deviation"@ {
        Ok(PyDeviationModel::StandardDeviation)
    } else if name == "mean"@ || name == "mean_absolute_deviation"@ {
        Ok(PyDeviationModel::MeanAbsoluteDeviation)
    } else if name == "median"@ || name == "median_absolute_deviation"@ {
        Ok(PyDeviationModel::MedianAbsoluteDeviation)
    } else if name == "mode"@ || name == "mode_absolute_deviation"@ {
        Ok(PyDeviationModel::ModeAbsoluteDeviation)
    } else if name == "ulcer"@ || name == "ulcer_index"@ {
        Ok(PyDeviationModel::UlcerIndex)
    } else {
        Err(TrendError::InvalidConfiguration)
    }
}

impl PyDeviationModel {
    /// Reads a name that is already in lowercase.
    pub fn from_lowercase(name: &str) -> (r: Result<Self, TrendError>)
        ensures
            r == deviation_model_named(name@),
    {
        if same_text(name, "standard") || same_text(name, "std") || same_text(name, "standard_deviation") {
            Ok(PyDeviationModel::StandardDeviation)
        } else if same_text(name, "mean") || same_text(name, "mean_absolute_deviation") {
            Ok(PyDeviationModel::MeanAbsoluteDeviation)
        } else if same_text(name, "median") || same_text(name, "median_absolute_deviation") {
            Ok(PyDeviationModel::MedianAbsoluteDeviation)
        } else if same_text(name, "mode") || same_text(name, "mode_absolute_deviation") {
            Ok(PyDeviationModel::ModeAbsoluteDeviation)
        } else if same_text(name, "ulcer") || same_text(name, "ulcer_index") {
            Ok(PyDeviationModel::UlcerIndex)
        } else {
            Err(TrendError::InvalidConfiguration)
        }
    }

    /// Reads a name, whatever its case.
    pub fn from_string(s: &str) -> (r: Result<Self, TrendError>)
        ensures
            r == deviation_model_named(lowercase(s@)),
    {
        let lowered: String = to_lowercase(s);
        Self::from_lowercase(lowered.as_str())
    }
}

/// How a moving average weighs its prices.
#[derive(Clone, Copy, Debug, PartialEq, Eq, Structural)]
pub enum PyMovingAverageType {
    Simple,
    Smoothed,
    Exponential,
}

/// The variant that a lowercase name stands for; a name that stands for
/// none is `InvalidConfiguration`.
pub open spec fn moving_average_named(name: Seq<char>) -> Result<PyMovingAverageType, TrendError> {
    if name == "simple"@ {
        Ok(PyMovingAverageType::Simple)
    } else if name == "smoothed"@ {
        Ok(PyMovingAverageType::Smoothed)
    } else if name == "exponential"@ {
        Ok(PyMovingAverageType::Exponential)
    } else {
        Err(TrendError::InvalidConfiguration)
    }
}

impl PyMovingAverageType {
    /// Reads a name that is already in lowercase.
    pub fn from_lowercase(name: &str) -> (r: Result<Self, TrendError>)
        ensures
            r == moving_average_named(name@),
    {
        if same_text(name, "simple") {
            Ok(PyMovingAverageType::Simple)
        } else if same_text(name, "smoothed") {
            Ok(PyMovingAverageType::Smoothed)
        } else if same_text(name, "exponential") {
            Ok(PyMovingAverageType::Exponential)
        } else {
            Err(TrendError::InvalidConfiguration)
        }
    }

    /// Reads a name, whatever its case.
    pub fn from_string(s: &str) -> (r: Result<Self, TrendError>)
        ensures
            r == moving_average_named(lowercase(s@)),
    {
        let lowered: String = to_lowercase(s);
        Self::from_lowercase(lowered.as_str())
    }
}

/// The side of a trade.
#[derive(Clone, Copy, Debug, PartialEq, Eq, Structural)]
pub enum PyPosition {
    Long,
    Short,
}

/// The variant that a lowercase name stands for; a name that stands for
/// none is `InvalidConfiguration`.
pub open spec fn position_named(name: Seq<char>) -> Result<PyPosition, TrendError> {
    if name == "long"@ {
        Ok(PyPosition::Long)
    } else if name == "short"@ {
        Ok(PyPosition::Short)
    } else {
        Err(TrendError::InvalidConfiguration)
    }
}

impl PyPosition {
    /// Reads a name that is already in lowercase.
    pub fn from_lowercase(name: &str) -> (r: Result<Self, TrendError>)
        ensures
            r == position_named(name@),
    {
        if same_text(name, "long") {
            Ok(PyPosition::Long)
        } else if same_text(name, "short") {
            Ok(PyPosition::Short)
        } else {
            Err(TrendError::InvalidConfiguration)
        }
    }

    /// Reads a name, whatever its case.
    pub fn from_string(s: &str) -> (r: Result<Self, TrendError>)
        ensures
            r == position_named(lowercase(s@)),
    {
        let lowered: String = to_lowercase(s);
        Self::from_lowercase(lowered.as_str())
    }
}

} // verus!
