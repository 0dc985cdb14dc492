//! Error values returned by the vault's operations.

use vstd::prelude::*;

verus! {

/// Every failure of a vault operation. Errors are ordinary result values;
/// an operation that returns an error has changed no state.
#[derive(Clone, Copy, Debug, PartialEq, Eq, Structural)]
pub enum VaultError {
    /// A malformed input: wrong denomination, a zero amount where a positive
    /// one is required, or an initial deposit different from the required one.
    Validation,
    /// The caller is not allowed to perform the operation: a non-owner on an
    /// owner-only call, or a registration when contracts are already set.
    Authorization,
    /// A redemption asks for more underlying asset than the vault holds.
    InsufficientFunds,
    /// A deposit, withdrawal or distributable profit at or below the
    /// configured minimum.
    BelowThreshold,
    /// A fixed-point argument outside a function's domain (`ln` below one,
    /// `exp` above its limit), or a result that exceeds the representable
    /// fixed-point range.
    ArithmeticDomain,
}

impl VaultError {
    /// A short description of the error, for callers that log or display it.
    pub fn message(&self) -> (r: &'static str)
        ensures
            r@.len() > 0,
    {
        proof {
            reveal_strlit("invalid input");
            reveal_strlit("unauthorized");
            reveal_strlit("not enough backing asset");
            reveal_strlit("amount below minimum threshold");
            reveal_strlit("argument outside arithmetic domain");
        }
        match self {
            VaultError::Validation => "invalid input",
            VaultError::Authorization => "unauthorized",
            VaultError::InsufficientFunds => "not enough backing asset",
            VaultError::BelowThreshold => "amount below minimum threshold",
            VaultError::ArithmeticDomain => "argument outside arithmetic domain",
        }
    }
}

} // verus!
