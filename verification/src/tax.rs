//! The tax adjustment applied to stable-asset transfers.
//!
//! A transfer of `amount` pays `min(amount * (1 - 1/(1 + tax_rate)), tax_cap)`
//! in tax, computed in truncating fixed point exactly as the ledger expects
//! to reproduce it.

use vstd::prelude::*;
use crate::errors::VaultError;
use crate::fixed::{amount_times_rate, fdiv, fmul, FixedDecimal, SCALE};
use crate::math::{lemma_fmul_le_first, lemma_fmul_nonneg, lemma_inverse_le_one};
use crate::wide::WORD;

verus! {

/// Whether a tax rate is within the library's operating range: `1 + rate`
/// must stay below 2^64 in raw units.
pub open spec fn tax_ok(tax_rate: int) -> bool {
    SCALE + tax_rate < WORD
}

/// The taxed fraction of a transfer: `1 - 1/(1 + rate)`.
pub open spec fn tax_factor(tax_rate: int) -> int {
    SCALE - fdiv(SCALE as int, SCALE + tax_rate)
}

/// The tax a transfer of `amount` pays: the taxed fraction, capped.
pub open spec fn spec_compute_tax(amount: int, tax_rate: int, tax_cap: int) -> int {
    if fmul(amount, tax_factor(tax_rate)) <= tax_cap {
        fmul(amount, tax_factor(tax_rate))
    } else {
        tax_cap
    }
}

/// What remains of a transfer after its tax.
pub open spec fn spec_deduct_tax(amount: int, tax_rate: int, tax_cap: int) -> int {
    amount - spec_compute_tax(amount, tax_rate, tax_cap)
}

/// The tax on a transfer of `amount` at the given rate and cap. The tax never
/// exceeds the amount itself.
pub fn compute_tax(amount: u128, tax_rate: FixedDecimal, tax_cap: u128) -> (r: Result<
    u128,
    VaultError,
>)
    ensures
        match r {
            Ok(v) => tax_ok(tax_rate@) && v == spec_compute_tax(
                amount as int,
                tax_rate@,
                tax_cap as int,
            ) && v <= amount,
            Err(e) => !tax_ok(tax_rate@) && e == VaultError::ArithmeticDomain,
        },
{
    let one = FixedDecimal::one();
    let den = match one.checked_add(tax_rate) {
        Some(v) => v,
        None => {
            return Err(VaultError::ArithmeticDomain);
        },
    };
    proof {
        lemma_inverse_le_one(den@);
    }
    let inv = match one.checked_div(den) {
        Some(v) => v,
        None => {
            return Err(VaultError::ArithmeticDomain);
        },
    };
    let factor = match one.checked_sub(inv) {
        Some(v) => v,
        None => {
            proof {
                assert(false);
            }
            return Err(VaultError::ArithmeticDomain);
        },
    };
    proof {
        lemma_fmul_nonneg(amount as int, factor@);
        lemma_fmul_le_first(amount as int, factor@);
    }
    let t = match amount_times_rate(amount, factor) {
        Some(v) => v,
        None => {
            proof {
                assert(false);
            }
            return Err(VaultError::ArithmeticDomain);
        },
    };
    if t <= tax_cap {
        Ok(t)
    } else {
        Ok(tax_cap)
    }
}

/// What a transfer of `amount` delivers after its tax is taken out.
pub fn deduct_tax(amount: u128, tax_rate: FixedDecimal, tax_cap: u128) -> (r: Result<
    u128,
    VaultError,
>)
    ensures
        match r {
            Ok(v) => tax_ok(tax_rate@) && v == spec_deduct_tax(
                amount as int,
                tax_rate@,
                tax_cap as int,
            ),
            Err(e) => !tax_ok(tax_rate@) && e == VaultError::ArithmeticDomain,
        },
{
    let tax = match compute_tax(amount, tax_rate, tax_cap) {
        Ok(v) => v,
        Err(e) => {
            return Err(e);
        },
    };
    Ok(amount - tax)
}

} // verus!
