//! Trend analysis of a price series in exact integer arithmetic.
//!
//! Prices are whole numbers of ticks, thresholds are whole numbers of
//! thousandths, and every line and statistic is an exact fraction of
//! integers, so that each result is stated and proved without rounding.
//! The integers are of 128 bits: a call whose values do not fit in them
//! fails with `Overflow`, and with nothing else on that account.
//!
//! - `extrema` finds the local peaks and valleys of a series.
//! - `regression` fits the least-squares line through points.
//! - `quality` measures a fit: adjusted R squared, mean squared error and
//!   Durbin-Watson statistic.
//! - `residuals` shows that these are the statistics of the residuals of
//!   the fitted line.
//! - `segmentation` breaks a series down into consecutive trends.
//! - `trends` fits one line through a whole series, or through its peaks
//!   or valleys.
//! - `capacity` shows which series never overflow.
//! - `config` holds the thresholds of the segmentation and their presets,
//!   `models` the names of the estimators that other indicators take.

pub mod capacity;
pub mod config;
pub mod error;
pub mod extrema;
pub mod models;
pub mod quality;
pub mod ratio;
pub mod regression;
pub mod residuals;
pub mod segmentation;
pub mod text;
pub mod trends;
