use vstd::prelude::*;

verus! {

/// Why an analysis call was refused.
#[derive(Clone, Copy, Debug, PartialEq, Eq, Structural)]
pub enum TrendError {
    /// The series is empty, or a window length is zero.
    InvalidInput,
    /// Fewer than two points are available to fit a line through.
    InsufficientData,
    /// The preset name is unknown, a custom configuration is incomplete or
    /// mixed with a preset, or its thresholds are out of order.
    InvalidConfiguration,
    /// A value of the exact arithmetic does not fit in 128 bits.
    Overflow,
}

} // verus!
