//! The exchange-rate curve.
//!
//! The base asset's observed exchange rate is modeled as `A^day` for a
//! calibration constant `A` fitted through rate 1.0 at day 0, 1.2 at day 365
//! and 1.44 at day 730. Inverting that model turns an observed rate into an
//! effective day position, and the vault's own slower-growing rate is `B^day`
//! at that position, for a second calibration constant `B` (or a configured
//! growth factor in the parametrized variant).

use vstd::prelude::*;
use crate::errors::VaultError;
use crate::fixed::{fdiv, fmul, FixedDecimal};
use crate::math::{exp_opt, ln_opt, powf_opt, lemma_exp_at_least_one};
use crate::wide::{u128_bound, WORD};

verus! {

/// The base-asset growth factor `A`: the rate multiplies by this each day.
pub const A_RAW: u128 = 1_000_499_635_890_955_755;

/// The vault growth factor `B`: the slower curve receipt tokens follow.
pub const B_RAW: u128 = 1_000_261_157_876_067_855;

/// The fixed-point value of `ln A`.
pub const LN_A_RAW: u128 = 499_511_114_504_063;

/// What `base-rate -> day` inversion returns: `ln(rate) / ln(A)`.
pub open spec fn invert_rate_opt(rate: int) -> Option<int> {
    match ln_opt(rate) {
        None => None,
        Some(l) => {
            if fdiv(l, LN_A_RAW as int) >= u128_bound() {
                None
            } else {
                Some(fdiv(l, LN_A_RAW as int))
            }
        },
    }
}

/// What the vault-rate derivation returns: `growth ^ (ln(rate) / ln(A))`.
pub open spec fn vault_rate_opt(rate: int, growth: int) -> Option<int> {
    match invert_rate_opt(rate) {
        None => None,
        Some(day) => powf_opt(growth, day),
    }
}

/// The exchange-rate curve's operations.
pub struct ExchangeRate;

impl ExchangeRate {
    /// The modeled base-asset exchange rate after `day` days: `A ^ day`.
    pub fn a_terra_exchange_rate(day: FixedDecimal) -> (r: Result<
        FixedDecimal,
        VaultError,
    >)
        ensures
            match r {
                Ok(v) => powf_opt(A_RAW as int, day@) == Some(v@),
                Err(e) => powf_opt(A_RAW as int, day@) is None && e
                    == VaultError::ArithmeticDomain,
            },
    {
        FixedDecimal::from_raw(A_RAW).powf(day)
    }

    /// The day position implied by an observed base rate: `ln(rate) / ln(A)`.
    pub fn invert_a_terra_exchange_rate(exchange_rate: FixedDecimal) -> (r: Result<
        FixedDecimal,
        VaultError,
    >)
        ensures
            match r {
                Ok(v) => invert_rate_opt(exchange_rate@) == Some(v@),
                Err(e) => invert_rate_opt(exchange_rate@) is None && e
                    == VaultError::ArithmeticDomain,
            },
    {
        let l = match FixedDecimal::ln(exchange_rate) {
            Ok(v) => v,
            Err(e) => {
                return Err(e);
            },
        };
        match l.checked_div(FixedDecimal::from_raw(LN_A_RAW)) {
            Some(v) => Ok(v),
            None => Err(VaultError::ArithmeticDomain),
        }
    }

    /// The vault exchange rate implied by an observed base rate, with the
    /// fixed calibration constant `B` as the growth factor.
    pub fn capapult_exchange_rate(a_terra_exchange_rate: FixedDecimal) -> (r: Result<
        FixedDecimal,
        VaultError,
    >)
        ensures
            match r {
                Ok(v) => vault_rate_opt(a_terra_exchange_rate@, B_RAW as int) == Some(
                    v@,
                ),
                Err(e) => vault_rate_opt(a_terra_exchange_rate@, B_RAW as int) is None
                    && e == VaultError::ArithmeticDomain,
            },
    {
        ExchangeRate::capapult_exchange_rate_with(
            a_terra_exchange_rate,
            FixedDecimal::from_raw(B_RAW),
        )
    }

    /// The vault exchange rate with a per-deployment growth factor in place
    /// of the calibration constant `B`.
    pub fn capapult_exchange_rate_with(
        a_terra_exchange_rate: FixedDecimal,
        growth: FixedDecimal,
    ) -> (r: Result<FixedDecimal, VaultError>)
        ensures
            match r {
                Ok(v) => vault_rate_opt(a_terra_exchange_rate@, growth@) == Some(v@),
                Err(e) => vault_rate_opt(a_terra_exchange_rate@, growth@) is None && e
                    == VaultError::ArithmeticDomain,
            },
    {
        let day = match ExchangeRate::invert_a_terra_exchange_rate(
            a_terra_exchange_rate,
        ) {
            Ok(v) => v,
            Err(e) => {
                return Err(e);
            },
        };
        growth.powf(day)
    }
}

/// A derived vault rate is at least 1: it is an `exp` result.
pub proof fn lemma_vault_rate_at_least_one(rate: int, growth: int)
    requires
        vault_rate_opt(rate, growth) is Some,
    ensures
        vault_rate_opt(rate, growth)->Some_0 >= crate::fixed::SCALE,
{
    let day = invert_rate_opt(rate)->Some_0;
    let l = ln_opt(growth)->Some_0;
    lemma_exp_at_least_one(fmul(day, l));
}

} // verus!
