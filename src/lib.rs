//! Historical volatility and European option inputs from daily closing prices.
//!
//! Prices, returns and volatilities are fixed-point integers so that every
//! step of the pipeline can be stated and proved exactly.

pub mod decimal;
pub mod date;
pub mod error;
pub mod series;
pub mod volatility;
pub mod sampler;
pub mod fetcher;
pub mod pricing;
