use vstd::prelude::*;
use crate::error::TrendError;
use crate::text::{lowercase, same_text, to_lowercase};

verus! {

/// The nine thresholds of the segmentation. All but `max_outliers` are in
/// thousandths: 250 stands for 0.25.
#[derive(Clone, Copy, Debug, PartialEq, Eq, Structural)]
pub struct TrendBreakConfig {
    /// How many soft violations in a row a segment tolerates.
    pub max_outliers: usize,
    /// An adjusted R squared below this is a soft violation.
    pub soft_adj_r_squared_minimum: i64,
    /// An adjusted R squared below this is a hard violation.
    pub hard_adj_r_squared_minimum: i64,
    /// An RMSE above this many times the reference is a soft violation.
    pub soft_rmse_multiplier: i64,
    /// An RMSE above this many times the reference is a hard violation.
    pub hard_rmse_multiplier: i64,
    /// A Durbin-Watson statistic below this is a soft violation.
    pub soft_durbin_watson_min: i64,
    /// A Durbin-Watson statistic above this is a soft violation.
    pub soft_durbin_watson_max: i64,
    /// A Durbin-Watson statistic below this is a hard violation.
    pub hard_durbin_watson_min: i64,
    /// A Durbin-Watson statistic above this is a hard violation.
    pub hard_durbin_watson_max: i64,
}

impl TrendBreakConfig {
    /// A soft threshold warns before the hard one breaks: the soft minimum
    /// of the adjusted R squared lies above the hard one, the soft
    /// multiplier is no greater than the hard one, and the soft
    /// Durbin-Watson band lies inside the hard band.
    pub open spec fn wf(self) -> bool {
        &&& self.hard_adj_r_squared_minimum < self.soft_adj_r_squared_minimum
        &&& self.soft_rmse_multiplier <= self.hard_rmse_multiplier
        &&& self.hard_durbin_watson_min <= self.soft_durbin_watson_min
        &&& self.soft_durbin_watson_min <= self.soft_durbin_watson_max
        &&& self.soft_durbin_watson_max <= self.hard_durbin_watson_max
    }

    /// Decides `wf`.
    pub fn is_valid(&self) -> (r: bool)
        ensures
            r == self.wf(),
    {
        self.hard_adj_r_squared_minimum < self.soft_adj_r_squared_minimum
            && self.soft_rmse_multiplier <= self.hard_rmse_multiplier
            && self.hard_durbin_watson_min <= self.soft_durbin_watson_min
            && self.soft_durbin_watson_min <= self.soft_durbin_watson_max
            && self.soft_durbin_watson_max <= self.hard_durbin_watson_max
    }
}

/// The thresholds of the preset `default`, which `moderate` shares.
pub open spec fn default_thresholds() -> TrendBreakConfig {
    TrendBreakConfig {
        max_outliers: 1,
        soft_adj_r_squared_minimum: 250,
        hard_adj_r_squared_minimum: 50,
        soft_rmse_multiplier: 1300,
        hard_rmse_multiplier: 2000,
        soft_durbin_watson_min: 1000,
        soft_durbin_watson_max: 3000,
        hard_durbin_watson_min: 700,
        hard_durbin_watson_max: 3300,
    }
}

/// The thresholds of the preset `conservative`.
pub open spec fn conservative_thresholds() -> TrendBreakConfig {
    TrendBreakConfig {
        max_outliers: 2,
        soft_adj_r_squared_minimum: 400,
        hard_adj_r_squared_minimum: 200,
        soft_rmse_multiplier: 1500,
        hard_rmse_multiplier: 2500,
        soft_durbin_watson_min: 1200,
        soft_durbin_watson_max: 2800,
        hard_durbin_watson_min: 900,
        hard_durbin_watson_max: 3100,
    }
}

/// The thresholds of the preset `aggressive`.
pub open spec fn aggressive_thresholds() -> TrendBreakConfig {
    TrendBreakConfig {
        max_outliers: 0,
        soft_adj_r_squared_minimum: 100,
        hard_adj_r_squared_minimum: 10,
        soft_rmse_multiplier: 1100,
        hard_rmse_multiplier: 1500,
        soft_durbin_watson_min: 800,
        soft_durbin_watson_max: 3200,
        hard_durbin_watson_min: 500,
        hard_durbin_watson_max: 3500,
    }
}

impl Default for TrendBreakConfig {
    fn default() -> (r: Self)
        ensures
            r == default_thresholds(),
    {
        TrendBreakConfig {
            max_outliers: 1,
            soft_adj_r_squared_minimum: 250,
            hard_adj_r_squared_minimum: 50,
            soft_rmse_multiplier: 1300,
            hard_rmse_multiplier: 2000,
            soft_durbin_watson_min: 1000,
            soft_durbin_watson_max: 3000,
            hard_durbin_watson_min: 700,
            hard_durbin_watson_max: 3300,
        }
    }
}

/// A choice of thresholds: one of four presets, or all nine values.
#[derive(Clone, Copy, Debug, PartialEq, Eq, Structural)]
pub enum PyTrendBreakConfig {
    Default,
    Conservative,
    Moderate,
    Aggressive,
    Custom {
        max_outliers: usize,
        soft_adj_r_squared_minimum: i64,
        hard_adj_r_squared_minimum: i64,
        soft_rmse_multiplier: i64,
        hard_rmse_multiplier: i64,
        soft_durbin_watson_min: i64,
        soft_durbin_watson_max: i64,
        hard_durbin_watson_min: i64,
        hard_durbin_watson_max: i64,
    },
}

/// The preset that a lowercase name stands for.
pub open spec fn preset_named(name: Seq<char>) -> Option<PyTrendBreakConfig> {
    if name == "default"@ {
        Some(PyTrendBreakConfig::Default)
    } else if name == "conservative"@ {
        Some(PyTrendBreakConfig::Conservative)
    } else if name == "moderate"@ {
        Some(PyTrendBreakConfig::Moderate)
    } else if name == "aggressive"@ {
        Some(PyTrendBreakConfig::Aggressive)
    } else {
        None
    }
}

/// A preset's name gives the preset, any other text
/// `InvalidConfiguration`.
pub open spec fn preset_or_error(name: Seq<char>) -> Result<PyTrendBreakConfig, TrendError> {
    match preset_named(name) {
        Some(p) => Ok(p),
        None => Err(TrendError::InvalidConfiguration),
    }
}

impl PyTrendBreakConfig {
    /// The thresholds that the choice stands for.
    pub open spec fn thresholds(self) -> TrendBreakConfig {
        match self {
            PyTrendBreakConfig::Default => default_thresholds(),
            PyTrendBreakConfig::Conservative => conservative_thresholds(),
            PyTrendBreakConfig::Moderate => default_thresholds(),
            PyTrendBreakConfig::Aggressive => aggressive_thresholds(),
            PyTrendBreakConfig::Custom {
                max_outliers,
                soft_adj_r_squared_minimum,
                hard_adj_r_squared_minimum,
                soft_rmse_multiplier,
                hard_rmse_multiplier,
                soft_durbin_watson_min,
                soft_durbin_watson_max,
                hard_durbin_watson_min,
                hard_durbin_watson_max,
            } => TrendBreakConfig {
                max_outliers,
                soft_adj_r_squared_minimum,
                hard_adj_r_squared_minimum,
                soft_rmse_multiplier,
                hard_rmse_multiplier,
                soft_durbin_watson_min,
                soft_durbin_watson_max,
                hard_durbin_watson_min,
                hard_durbin_watson_max,
            },
        }
    }

    /// Reads a preset's name, already in lowercase.
    pub fn from_lowercase(name: &str) -> (r: Result<Self, TrendError>)
        ensures
            r == preset_or_error(name@),
    {
        if same_text(name, "default") {
            Ok(PyTrendBreakConfig::Default)
        } else if same_text(name, "conservative") {
            Ok(PyTrendBreakConfig::Conservative)
        } else if same_text(name, "moderate") {
            Ok(PyTrendBreakConfig::Moderate)
        } else if same_text(name, "aggressive") {
            Ok(PyTrendBreakConfig::Aggressive)
        } else {
            Err(TrendError::InvalidConfiguration)
        }
    }

    /// Reads a preset's name, whatever its case.
    pub fn from_string(s: &str) -> (r: Result<Self, TrendError>)
        ensures
            r == preset_or_error(lowercase(s@)),
    {
        let lowered: String = to_lowercase(s);
        Self::from_lowercase(lowered.as_str())
    }

    /// A custom choice of all nine thresholds.
    pub fn custom(
        max_outliers: usize,
        soft_adj_r_squared_minimum: i64,
        hard_adj_r_squared_minimum: i64,
        soft_rmse_multiplier: i64,
        hard_rmse_multiplier: i64,
        soft_durbin_watson_min: i64,
        soft_durbin_watson_max: i64,
        hard_durbin_watson_min: i64,
        hard_durbin_watson_max: i64,
    ) -> (r: Self)
        ensures
            r == (PyTrendBreakConfig::Custom {
                max_outliers,
                soft_adj_r_squared_minimum,
                hard_adj_r_squared_minimum,
                soft_rmse_multiplier,
                hard_rmse_multiplier,
                soft_durbin_watson_min,
                soft_durbin_watson_max,
                hard_durbin_watson_min,
                hard_durbin_watson_max,
            }),
    {
        PyTrendBreakConfig::Custom {
            max_outliers,
            soft_adj_r_squared_minimum,
            hard_adj_r_squared_minimum,
            soft_rmse_multiplier,
            hard_rmse_multiplier,
            soft_durbin_watson_min,
            soft_durbin_watson_max,
            hard_durbin_watson_min,
            hard_durbin_watson_max,
        }
    }

    /// The thresholds of the choice if they are in order, else
    /// `InvalidConfiguration`.
    pub open spec fn resolved(self) -> Result<TrendBreakConfig, TrendError> {
        if self.thresholds().wf() {
            Ok(self.thresholds())
        } else {
            Err(TrendError::InvalidConfiguration)
        }
    }

    /// Turns the choice into its thresholds. The presets always resolve; a
    /// custom choice does when its thresholds are in order.
    pub fn resolve(&self) -> (r: Result<TrendBreakConfig, TrendError>)
        ensures
            r == self.resolved(),
            !(self is Custom) ==> r is Ok,
    {
        let t: TrendBreakConfig = TrendBreakConfig::from(*self);
        if t.is_valid() {
            Ok(t)
        } else {
            Err(TrendError::InvalidConfiguration)
        }
    }
}

impl vstd::std_specs::convert::FromSpecImpl<PyTrendBreakConfig> for TrendBreakConfig {
    open spec fn obeys_from_spec() -> bool {
        true
    }

    open spec fn from_spec(value: PyTrendBreakConfig) -> Self {
        value.thresholds()
    }
}

impl From<PyTrendBreakConfig> for TrendBreakConfig {
    /// The thresholds that the choice stands for, in order or not.
    fn from(value: PyTrendBreakConfig) -> (r: Self) {
        match value {
            PyTrendBreakConfig::Default => TrendBreakConfig::default(),
            PyTrendBreakConfig::Conservative => TrendBreakConfig {
                max_outliers: 2,
                soft_adj_r_squared_minimum: 400,
                hard_adj_r_squared_minimum: 200,
                soft_rmse_multiplier: 1500,
                hard_rmse_multiplier: 2500,
                soft_durbin_watson_min: 1200,
                soft_durbin_watson_max: 2800,
                hard_durbin_watson_min: 900,
                hard_durbin_watson_max: 3100,
            },
            PyTrendBreakConfig::Moderate => TrendBreakConfig::default(),
            PyTrendBreakConfig::Aggressive => TrendBreakConfig {
                max_outliers: 0,
                soft_adj_r_squared_minimum: 100,
                hard_adj_r_squared_minimum: 10,
                soft_rmse_multiplier: 1100,
                hard_rmse_multiplier: 1500,
                soft_durbin_watson_min: 800,
                soft_durbin_watson_max: 3200,
                hard_durbin_watson_min: 500,
                hard_durbin_watson_max: 3500,
            },
            PyTrendBreakConfig::Custom {
                max_outliers,
                soft_adj_r_squared_minimum,
                hard_adj_r_squared_minimum,
                soft_rmse_multiplier,
                hard_rmse_multiplier,
                soft_durbin_watson_min,
                soft_durbin_watson_max,
                hard_durbin_watson_min,
                hard_durbin_watson_max,
            } => TrendBreakConfig {
                max_outliers,
                soft_adj_r_squared_minimum,
                hard_adj_r_squared_minimum,
                soft_rmse_multiplier,
                hard_rmse_multiplier,
                soft_durbin_watson_min,
                soft_durbin_watson_max,
                hard_durbin_watson_min,
                hard_durbin_watson_max,
            },
        }
    }
}

/// The custom thresholds as a caller may hold them: each given or not.
#[derive(Clone, Copy, Debug, PartialEq, Eq, Structural)]
pub struct CustomParts {
    pub max_outliers: Option<usize>,
    pub soft_adj_r_squared_minimum: Option<i64>,
    pub hard_adj_r_squared_minimum: Option<i64>,
    pub soft_rmse_multiplier: Option<i64>,
    pub hard_rmse_multiplier: Option<i64>,
    pub soft_durbin_watson_min: Option<i64>,
    pub soft_durbin_watson_max: Option<i64>,
    pub hard_durbin_watson_min: Option<i64>,
    pub hard_durbin_watson_max: Option<i64>,
}

impl CustomParts {
    /// None of the nine is given.
    pub open spec fn none_given(self) -> bool {
        &&& self.max_outliers is None
        &&& self.soft_adj_r_squared_minimum is None
        &&& self.hard_adj_r_squared_minimum is None
        &&& self.soft_rmse_multiplier is None
        &&& self.hard_rmse_multiplier is None
        &&& self.soft_durbin_watson_min is None
        &&& self.soft_durbin_watson_max is None
        &&& self.hard_durbin_watson_min is None
        &&& self.hard_durbin_watson_max is None
    }

    /// All nine are given.
    pub open spec fn all_given(self) -> bool {
        &&& self.max_outliers is Some
        &&& self.soft_adj_r_squared_minimum is Some
        &&& self.hard_adj_r_squared_minimum is Some
        &&& self.soft_rmse_multiplier is Some
        &&& self.hard_rmse_multiplier is Some
        &&& self.soft_durbin_watson_min is Some
        &&& self.soft_durbin_watson_max is Some
        &&& self.hard_durbin_watson_min is Some
        &&& self.hard_durbin_watson_max is Some
    }

    /// The custom choice that the nine values make.
    pub open spec fn choice(self) -> PyTrendBreakConfig {
        PyTrendBreakConfig::Custom {
            max_outliers: self.max_outliers->Some_0,
            soft_adj_r_squared_minimum: self.soft_adj_r_squared_minimum->Some_0,
            hard_adj_r_squared_minimum: self.hard_adj_r_squared_minimum->Some_0,
            soft_rmse_multiplier: self.soft_rmse_multiplier->Some_0,
            hard_rmse_multiplier: self.hard_rmse_multiplier->Some_0,
            soft_durbin_watson_min: self.soft_durbin_watson_min->Some_0,
            soft_durbin_watson_max: self.soft_durbin_watson_max->Some_0,
            hard_durbin_watson_min: self.hard_durbin_watson_min->Some_0,
            hard_durbin_watson_max: self.hard_durbin_watson_max->Some_0,
        }
    }

    /// No custom threshold at all.
    pub fn empty() -> (r: Self)
        ensures
            r.none_given(),
    {
        CustomParts {
            max_outliers: None,
            soft_adj_r_squared_minimum: None,
            hard_adj_r_squared_minimum: None,
            soft_rmse_multiplier: None,
            hard_rmse_multiplier: None,
            soft_durbin_watson_min: None,
            soft_durbin_watson_max: None,
            hard_durbin_watson_min: None,
            hard_durbin_watson_max: None,
        }
    }

    /// Decides `none_given`.
    pub fn is_empty(&self) -> (r: bool)
        ensures
            r == self.none_given(),
    {
        self.max_outliers.is_none() && self.soft_adj_r_squared_minimum.is_none()
            && self.hard_adj_r_squared_minimum.is_none() && self.soft_rmse_multiplier.is_none()
            && self.hard_rmse_multiplier.is_none() && self.soft_durbin_watson_min.is_none()
            && self.soft_durbin_watson_max.is_none() && self.hard_durbin_watson_min.is_none()
            && self.hard_durbin_watson_max.is_none()
    }

    /// The custom choice, if all nine values are given.
    pub fn complete(&self) -> (r: Option<PyTrendBreakConfig>)
        ensures
            r == if self.all_given() {
                Some(self.choice())
            } else {
                None
            },
    {
        match (
            self.max_outliers,
            self.soft_adj_r_squared_minimum,
            self.hard_adj_r_squared_minimum,
            self.soft_rmse_multiplier,
            self.hard_rmse_multiplier,
            self.soft_durbin_watson_min,
            self.soft_durbin_watson_max,
            self.hard_durbin_watson_min,
            self.hard_durbin_watson_max,
        ) {
            (Some(a), Some(b), Some(c), Some(d), Some(e), Some(f), Some(g), Some(h), Some(i)) => Some(
                PyTrendBreakConfig::custom(a, b, c, d, e, f, g, h, i),
            ),
            _ => None,
        }
    }
}

/// The choice that a caller's arguments make, where `preset` is what the
/// given name stands for. A name alone chooses a preset, the nine custom
/// values alone a custom choice. A name together with any custom value,
/// or fewer than nine custom values, is `InvalidConfiguration`.
pub open spec fn selection(
    preset: Option<Result<PyTrendBreakConfig, TrendError>>,
    custom: CustomParts,
) -> Result<PyTrendBreakConfig, TrendError> {
    match preset {
        Some(p) => if custom.none_given() {
            p
        } else {
            Err(TrendError::InvalidConfiguration)
        },
        None => if custom.all_given() {
            Ok(custom.choice())
        } else {
            Err(TrendError::InvalidConfiguration)
        },
    }
}

/// A preset together with any custom value is refused, and so are custom
/// values short of all nine without a preset.
pub proof fn lemma_mixed_or_partial_choice_is_refused(
    preset: Option<Result<PyTrendBreakConfig, TrendError>>,
    custom: CustomParts,
)
    requires
        (preset is Some && !custom.none_given()) || (preset is None && !custom.all_given()),
    ensures
        selection(preset, custom) == Err::<PyTrendBreakConfig, TrendError>(TrendError::InvalidConfiguration),
{
}

/// What the name, if there is one, stands for.
pub open spec fn named_preset(config: Option<&str>) -> Option<Result<PyTrendBreakConfig, TrendError>> {
    match config {
        Some(name) => Some(preset_or_error(lowercase(name@))),
        None => None,
    }
}

/// Settles which thresholds the caller chose: a preset by its name, or a
/// custom choice by all nine values.
pub fn select_config(config: Option<&str>, custom: &CustomParts) -> (r: Result<
    PyTrendBreakConfig,
    TrendError,
>)
    ensures
        r == selection(named_preset(config), *custom),
{
    match config {
        Some(name) => {
            if custom.is_empty() {
                PyTrendBreakConfig::from_string(name)
            } else {
                Err(TrendError::InvalidConfiguration)
            }
        },
        None => {
            match custom.complete() {
                Some(choice) => Ok(choice),
                None => Err(TrendError::InvalidConfiguration),
            }
        },
    }
}

} // verus!
