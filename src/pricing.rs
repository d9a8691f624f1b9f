//! The terms of a European option, checked before any valuation.
use vstd::prelude::*;

use crate::error::MarketError;

verus! {

/// One whole unit of a fixed-point rate, volatility or time in years.
pub const RATE_SCALE: u64 = 1_000_000_000;

/// Which right the holder has at maturity.
#[derive(Clone, Copy, Debug, PartialEq, Eq, Structural)]
pub enum OptionKind {
    Call,
    Put,
}

/// A European option's terms. Spot and strike are in `PRICE_SCALE` units;
/// time to maturity (years), the continuously compounded risk-free rate and
/// the annual volatility are in `RATE_SCALE` units.
#[derive(Clone, Copy, Debug, PartialEq, Eq, Structural)]
pub struct OptionContract {
    spot: u64,
    strike: u64,
    time_to_maturity: u64,
    risk_free_rate: i64,
    volatility: u64,
}

/// Terms on which the closed-form valuation is defined: the rate may take
/// any value, everything else must be positive.
pub open spec fn valid_terms(spot: u64, strike: u64, time_to_maturity: u64, volatility: u64) -> bool {
    spot > 0 && strike > 0 && time_to_maturity > 0 && volatility > 0
}

impl OptionContract {
    #[verifier::type_invariant]
    spec fn inv(self) -> bool {
        valid_terms(self.spot, self.strike, self.time_to_maturity, self.volatility)
    }

    pub closed spec fn terms(self) -> (u64, u64, u64, i64, u64) {
        (self.spot, self.strike, self.time_to_maturity, self.risk_free_rate, self.volatility)
    }

    /// Checks the terms. Fails with `Domain` when the spot, the strike, the
    /// time to maturity or the volatility is zero.
    pub fn new(
        spot: u64,
        strike: u64,
        time_to_maturity: u64,
        risk_free_rate: i64,
        volatility: u64,
    ) -> (r: Result<OptionContract, MarketError>)
        ensures
            r is Ok <==> valid_terms(spot, strike, time_to_maturity, volatility),
            match r {
                Ok(c) => c.terms() == (spot, strike, time_to_maturity, risk_free_rate, volatility),
                Err(e) => e == MarketError::Domain,
            },
    {
        if spot == 0 || strike == 0 || time_to_maturity == 0 || volatility == 0 {
            return Err(MarketError::Domain);
        }
        Ok(OptionContract { spot, strike, time_to_maturity, risk_free_rate, volatility })
    }

    pub fn spot(&self) -> (r: u64)
        ensures
            r == self.terms().0,
            r > 0,
    {
        proof {
            use_type_invariant(self);
        }
        self.spot
    }

    pub fn strike(&self) -> (r: u64)
        ensures
            r == self.terms().1,
            r > 0,
    {
        proof {
            use_type_invariant(self);
        }
        self.strike
    }

    pub fn time_to_maturity(&self) -> (r: u64)
        ensures
            r == self.terms().2,
            r > 0,
    {
        proof {
            use_type_invariant(self);
        }
        self.time_to_maturity
    }

    pub fn risk_free_rate(&self) -> (r: i64)
        ensures
            r == self.terms().3,
    {
        self.risk_free_rate
    }

    pub fn volatility(&self) -> (r: u64)
        ensures
            r == self.terms().4,
            r > 0,
    {
        proof {
            use_type_invariant(self);
        }
        self.volatility
    }
}

} // verus!
