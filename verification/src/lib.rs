//! A yield-bearing stable-asset vault core.
//!
//! Users deposit a stable asset and receive a receipt token whose redemption
//! value grows with a derived exchange rate. The crate holds the deterministic
//! fixed-point exponential/logarithm evaluator, the exchange-rate curve, the
//! per-account deposit ledger, and the profit-distribution engine. All
//! arithmetic is integer fixed-point with an 18-decimal fraction; there is no
//! floating point anywhere.

pub mod accrual;
pub mod curve;
pub mod errors;
pub mod fixed;
pub mod ledger;
pub mod manager;
pub mod manager_msg;
pub mod math;
pub mod msg;
pub mod tax;
pub mod vault;
pub mod wide;

pub use errors::VaultError;
