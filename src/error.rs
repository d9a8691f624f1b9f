//! The failures that the pipeline reports.
use vstd::prelude::*;

verus! {

/// Why a fetch, a derived series or a valuation could not be produced.
#[derive(Clone, Copy, Debug, PartialEq, Eq, Structural)]
pub enum MarketError {
    /// The provider could not be reached.
    Network,
    /// The provider's answer did not have the expected shape, or a date or a
    /// number in it was malformed.
    Parse,
    /// Fewer than two points where a return or a volatility needs two.
    InsufficientData,
    /// An input outside the domain of a formula: a zero price, volatility or
    /// maturity.
    Domain,
    /// No point falls in the requested window.
    EmptySeries,
    /// A value beyond what the fixed-point arithmetic carries.
    Overflow,
}

} // verus!
