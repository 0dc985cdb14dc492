//! Protocol-level profit computation.
//!
//! The vault's profit is what its underlying-asset holdings are worth at the
//! observed base rate, minus its outstanding liability: the receipt-token
//! supply valued at the derived vault rate. The underlying-asset form of that
//! profit is what a distribution hands out; each stakeholder's share scales
//! the distributable profit by a basis-point weight with denominator 100000.

use vstd::prelude::*;
use crate::curve::{vault_rate_opt, ExchangeRate, B_RAW};
use crate::errors::VaultError;
use crate::fixed::{amount_over_rate, amount_times_rate, fdiv, fmul, FixedDecimal, SCALE};
use crate::math::{lemma_fmul_le_first, lemma_fmul_nonneg};
use crate::wide::{u128_bound, WORD};

verus! {

/// The fixed-point factor 0.03: the insurance share of aggregate profit.
pub const INSURANCE_RATE_RAW: u128 = 30_000_000_000_000_000;

/// The fixed-point factor 1/100000: normalizes a stakeholder's basis-point
/// weight.
pub const WEIGHT_UNIT_RAW: u128 = 10_000_000_000_000;

/// The vault's profit in stable-asset terms: holdings valued at the base
/// rate, minus supply valued at the derived vault rate, floored at zero.
/// `None` where the vault rate cannot be derived or a product overflows.
pub open spec fn profit_ust_opt(aterra_amount: int, base_rate: int, cust_supply: int) -> Option<
    int,
> {
    match vault_rate_opt(base_rate, B_RAW as int) {
        None => None,
        Some(cr) => {
            if fmul(aterra_amount, base_rate) >= u128_bound() {
                None
            } else if fmul(cust_supply, cr) >= u128_bound() {
                None
            } else if fmul(aterra_amount, base_rate) <= fmul(cust_supply, cr) {
                Some(0)
            } else {
                Some(fmul(aterra_amount, base_rate) - fmul(cust_supply, cr))
            }
        },
    }
}

/// The same profit in underlying-asset units: divided by the base rate.
pub open spec fn profit_aterra_opt(aterra_amount: int, base_rate: int, cust_supply: int) -> Option<
    int,
> {
    match profit_ust_opt(aterra_amount, base_rate, cust_supply) {
        None => None,
        Some(p) => {
            if base_rate == 0 || base_rate >= WORD || fdiv(p, base_rate) >= u128_bound() {
                None
            } else {
                Some(fdiv(p, base_rate))
            }
        },
    }
}

/// One stakeholder's cut of a distributable profit, at a basis-point weight
/// with denominator 100000.
pub open spec fn spec_share(profit: int, weight: int) -> int {
    fmul(profit * weight, WEIGHT_UNIT_RAW as int)
}

/// The vault's current profit in stable-asset terms.
pub fn calculate_profit(
    total_aterra_amount: u128,
    base_rate: FixedDecimal,
    total_c_ust_supply: u128,
) -> (r: Result<u128, VaultError>)
    ensures
        match r {
            Ok(v) => profit_ust_opt(
                total_aterra_amount as int,
                base_rate@,
                total_c_ust_supply as int,
            ) == Some(v as int),
            Err(e) => profit_ust_opt(
                total_aterra_amount as int,
                base_rate@,
                total_c_ust_supply as int,
            ) is None && e == VaultError::ArithmeticDomain,
        },
{
    let capa_rate = match ExchangeRate::capapult_exchange_rate(base_rate) {
        Ok(v) => v,
        Err(e) => {
            return Err(e);
        },
    };
    let res1 = match amount_times_rate(total_aterra_amount, base_rate) {
        Some(v) => v,
        None => {
            return Err(VaultError::ArithmeticDomain);
        },
    };
    let res2 = match amount_times_rate(total_c_ust_supply, capa_rate) {
        Some(v) => v,
        None => {
            return Err(VaultError::ArithmeticDomain);
        },
    };
    if res1 <= res2 {
        Ok(0)
    } else {
        Ok(res1 - res2)
    }
}

/// The vault's current profit in underlying-asset units.
pub fn calculate_aterra_profit(
    total_aterra_amount: u128,
    base_rate: FixedDecimal,
    total_c_ust_supply: u128,
) -> (r: Result<u128, VaultError>)
    ensures
        match r {
            Ok(v) => profit_aterra_opt(
                total_aterra_amount as int,
                base_rate@,
                total_c_ust_supply as int,
            ) == Some(v as int),
            Err(e) => profit_aterra_opt(
                total_aterra_amount as int,
                base_rate@,
                total_c_ust_supply as int,
            ) is None && e == VaultError::ArithmeticDomain,
        },
{
    let profit = match calculate_profit(
        total_aterra_amount,
        base_rate,
        total_c_ust_supply,
    ) {
        Ok(v) => v,
        Err(e) => {
            return Err(e);
        },
    };
    match amount_over_rate(profit, base_rate) {
        Some(v) => Ok(v),
        None => Err(VaultError::ArithmeticDomain),
    }
}

/// One stakeholder's cut of `profit` at basis-point weight `percent`, or
/// `None` when the intermediate product overflows. The cut never exceeds the
/// profit it comes from when the weight is at most 100000.
pub fn stakeholder_share(profit: u128, percent: u128) -> (r: Option<u128>)
    ensures
        match r {
            Some(v) => v == spec_share(profit as int, percent as int) && profit * percent
                < u128_bound(),
            None => profit * percent >= u128_bound(),
        },
{
    if percent == 0 {
        proof {
            lemma_fmul_nonneg(0, WEIGHT_UNIT_RAW as int);
            assert(profit * 0 == 0) by (nonlinear_arith);
            assert(fmul(0, WEIGHT_UNIT_RAW as int) == 0) by {
                assert(0int * WEIGHT_UNIT_RAW == 0) by (nonlinear_arith);
            }
        }
        return Some(0);
    }
    if profit > u128::MAX / percent {
        proof {
            lemma_mul_div_bound(profit as int, percent as int);
        }
        return None;
    }
    proof {
        lemma_div_mul_fits(profit as int, percent as int);
    }
    let prod = profit * percent;
    proof {
        lemma_fmul_le_first(prod as int, WEIGHT_UNIT_RAW as int);
        lemma_fmul_nonneg(prod as int, WEIGHT_UNIT_RAW as int);
    }
    match amount_times_rate(prod, FixedDecimal::from_raw(WEIGHT_UNIT_RAW)) {
        Some(v) => Some(v),
        None => {
            proof {
                assert(false);
            }
            None
        },
    }
}

/// The sum of a stakeholder sequence's basis-point weights.
pub open spec fn sum_weights(st: Seq<(crate::ledger::AccountId, u128)>) -> int
    decreases st.len(),
{
    if st.len() == 0 {
        0
    } else {
        sum_weights(st.drop_last()) + st.last().1
    }
}

/// The sum of every stakeholder's cut of a distributable profit `d`.
pub open spec fn sum_shares(st: Seq<(crate::ledger::AccountId, u128)>, d: int) -> int
    decreases st.len(),
{
    if st.len() == 0 {
        0
    } else {
        sum_shares(st.drop_last(), d) + spec_share(d, st.last().1 as int)
    }
}

/// Two truncated quotients never exceed the quotient of the sum.
proof fn lemma_div_add_le(a: int, b: int, d: int)
    requires
        0 <= a,
        0 <= b,
        0 < d,
    ensures
        a / d + b / d <= (a + b) / d,
{
    vstd::arithmetic::div_mod::lemma_fundamental_div_mod(a, d);
    vstd::arithmetic::div_mod::lemma_fundamental_div_mod(b, d);
    vstd::arithmetic::div_mod::lemma_div_by_multiple(a / d + b / d, d);
    assert(d * (a / d) + d * (b / d) == (a / d + b / d) * d) by (nonlinear_arith);
    vstd::arithmetic::div_mod::lemma_div_is_ordered((a / d + b / d) * d, a + b, d);
}

/// The quotient of a sum exceeds the two truncated quotients by at most one.
proof fn lemma_div_add_ge(a: int, b: int, d: int)
    requires
        0 <= a,
        0 <= b,
        0 < d,
    ensures
        (a + b) / d <= a / d + b / d + 1,
{
    vstd::arithmetic::div_mod::lemma_fundamental_div_mod(a, d);
    vstd::arithmetic::div_mod::lemma_fundamental_div_mod(b, d);
    assert(a + b < d * (a / d + b / d + 2)) by (nonlinear_arith)
        requires
            a == d * (a / d) + a % d,
            b == d * (b / d) + b % d,
            a % d < d,
            b % d < d,
    ;
    vstd::arithmetic::div_mod::lemma_multiply_divide_lt(a + b, d, a / d + b / d + 2);
}

/// Truncated subtraction under a division: at most the difference of the
/// quotients, and at least one less than it.
proof fn lemma_div_sub_bounds(x: int, y: int, d: int)
    requires
        0 <= y <= x,
        0 < d,
    ensures
        (x - y) / d <= x / d - y / d,
        (x - y) / d >= x / d - y / d - 1,
{
    lemma_div_add_le(x - y, y, d);
    lemma_div_add_ge(x - y, y, d);
}

/// A stakeholder's cut is exactly the basis-point division of the profit.
proof fn lemma_share_as_div(d: int, w: int)
    requires
        0 <= d,
        0 <= w,
    ensures
        spec_share(d, w) == (d * w) / 100_000,
{
    let u = WEIGHT_UNIT_RAW as int;
    vstd::arithmetic::mul::lemma_mul_nonnegative(d, w);
    assert((d * w) * u / (SCALE as int) == ((d * w) * u / u) / 100_000) by {
        vstd::arithmetic::div_mod::lemma_div_denominator((d * w) * u, u, 100_000);
        assert(u * 100_000 == SCALE) by (nonlinear_arith)
            requires
                u == 10_000_000_000_000,
                SCALE == 1_000_000_000_000_000_000u128,
        ;
    }
    vstd::arithmetic::div_mod::lemma_div_by_multiple(d * w, u);
    assert((d * w) * u == u * (d * w)) by (nonlinear_arith);
}

/// Stakeholder weights sum to a non-negative value.
proof fn lemma_sum_weights_nonneg(st: Seq<(crate::ledger::AccountId, u128)>)
    ensures
        0 <= sum_weights(st),
    decreases st.len(),
{
    if st.len() > 0 {
        lemma_sum_weights_nonneg(st.drop_last());
    }
}

/// The shares of a distribution sum to between `d * weights / 100000` less
/// one unit per stakeholder and that quotient itself.
proof fn lemma_sum_shares_bounds(st: Seq<(crate::ledger::AccountId, u128)>, d: int)
    requires
        0 <= d,
    ensures
        0 <= sum_shares(st, d),
        sum_shares(st, d) <= (d * sum_weights(st)) / 100_000,
        sum_shares(st, d) >= (d * sum_weights(st)) / 100_000 - st.len(),
    decreases st.len(),
{
    if st.len() == 0 {
        assert(d * 0 == 0) by (nonlinear_arith);
    } else {
        let s2 = st.drop_last();
        let w = st.last().1 as int;
        lemma_sum_shares_bounds(s2, d);
        lemma_sum_weights_nonneg(s2);
        lemma_share_as_div(d, w);
        vstd::arithmetic::mul::lemma_mul_nonnegative(d, sum_weights(s2));
        vstd::arithmetic::mul::lemma_mul_nonnegative(d, w);
        vstd::arithmetic::div_mod::lemma_div_pos_is_pos(d * w, 100_000);
        assert(d * sum_weights(st) == d * sum_weights(s2) + d * w) by (nonlinear_arith)
            requires
                sum_weights(st) == sum_weights(s2) + w,
        ;
        lemma_div_add_le(d * sum_weights(s2), d * w, 100_000);
        lemma_div_add_ge(d * sum_weights(s2), d * w, 100_000);
    }
}

/// The insurance set-aside plus every stakeholder's share never exceeds the
/// aggregate profit a distribution starts from, as long as the weights sum to
/// at most the full 100000 basis points.
pub proof fn lemma_distribution_within_profit(
    st: Seq<(crate::ledger::AccountId, u128)>,
    p0: int,
)
    requires
        0 <= p0,
        sum_weights(st) <= 100_000,
    ensures
        ({
            let insurance = fmul(p0, INSURANCE_RATE_RAW as int);
            let d = p0 - insurance;
            &&& 0 <= insurance <= p0
            &&& 0 <= sum_shares(st, d) <= d
            &&& insurance + sum_shares(st, d) <= p0
        }),
{
    lemma_fmul_nonneg(p0, INSURANCE_RATE_RAW as int);
    lemma_fmul_le_first(p0, INSURANCE_RATE_RAW as int);
    let d = p0 - fmul(p0, INSURANCE_RATE_RAW as int);
    lemma_sum_shares_bounds(st, d);
    lemma_sum_weights_nonneg(st);
    vstd::arithmetic::mul::lemma_mul_inequality(sum_weights(st), 100_000, d);
    assert(sum_weights(st) * d == d * sum_weights(st)) by (nonlinear_arith);
    assert(100_000 * d == d * 100_000) by (nonlinear_arith);
    vstd::arithmetic::div_mod::lemma_div_is_ordered(
        d * sum_weights(st),
        d * 100_000,
        100_000,
    );
    vstd::arithmetic::div_mod::lemma_div_by_multiple(d, 100_000);
    assert(d * 100_000 == 100_000 * d) by (nonlinear_arith);
}

/// Distributing twice in immediate succession, with no profit growth in
/// between, leaves the second call below the distribution floor.
///
/// The first call's payouts (the insurance set-aside plus every share)
/// exhaust the measured profit down to a residue of at most one
/// underlying-asset unit per stakeholder plus rounding. After the transfers
/// leave the vault's balance, the profit measured again at the same rates is
/// below `PROFIT_FLOOR`, so a second `distribute` returns the threshold
/// error and, by its contract, leaves the lifetime profit counter unchanged.
/// This needs a fully allocated registry (weights summing to the whole
/// 100000 basis points) of fewer stakeholders than the floor's hundred
/// thousand units; with a hundred thousand or more stakeholders the rounding
/// residues alone could reach the floor.
pub proof fn lemma_distribute_twice_hits_threshold(
    balance: int,
    base_rate: int,
    supply: int,
    st: Seq<(crate::ledger::AccountId, u128)>,
)
    requires
        0 <= balance,
        0 <= supply,
        SCALE <= base_rate < WORD,
        profit_aterra_opt(balance, base_rate, supply) is Some,
        sum_weights(st) == 100_000,
        st.len() <= 90_000,
        ({
            let p0 = profit_aterra_opt(balance, base_rate, supply)->Some_0;
            p0 - fmul(p0, INSURANCE_RATE_RAW as int) >= crate::vault::PROFIT_FLOOR
        }),
    ensures
        ({
            let p0 = profit_aterra_opt(balance, base_rate, supply)->Some_0;
            let insurance = fmul(p0, INSURANCE_RATE_RAW as int);
            let d = p0 - insurance;
            let paid = insurance + sum_shares(st, d);
            let b2 = balance - paid;
            &&& 0 <= paid <= p0 <= balance
            &&& 0 <= b2 <= balance
            &&& profit_aterra_opt(b2, base_rate, supply) is Some
            &&& ({
                let q0 = profit_aterra_opt(b2, base_rate, supply)->Some_0;
                q0 - fmul(q0, INSURANCE_RATE_RAW as int) < crate::vault::PROFIT_FLOOR
            })
        }),
{
    let bnd = u128_bound();
    let s = SCALE as int;
    let br = base_rate;
    let cr = vault_rate_opt(br, B_RAW as int)->Some_0;
    let v1 = fmul(balance, br);
    let ll = fmul(supply, cr);
    let a1: int = if v1 <= ll {
        0
    } else {
        v1 - ll
    };
    let p0 = profit_aterra_opt(balance, br, supply)->Some_0;
    assert(p0 == fdiv(a1, br));
    crate::math::lemma_fdiv_nonneg(a1, br);
    crate::curve::lemma_vault_rate_at_least_one(br, B_RAW as int);
    lemma_fmul_nonneg(supply, cr);
    let insurance = fmul(p0, INSURANCE_RATE_RAW as int);
    let d = p0 - insurance;
    let n = st.len() as int;
    if v1 <= ll {
        assert(0 * s == 0) by (nonlinear_arith);
        vstd::arithmetic::div_mod::lemma_div_of0(br);
        assert(p0 == 0);
        assert(0 * (INSURANCE_RATE_RAW as int) == 0) by (nonlinear_arith);
        vstd::arithmetic::div_mod::lemma_div_of0(s);
        assert(false);
    }
    lemma_distribution_within_profit(st, p0);
    lemma_sum_shares_bounds(st, d);
    assert((d * 100_000) / 100_000 == d) by {
        vstd::arithmetic::div_mod::lemma_div_by_multiple(d, 100_000);
        assert(d * 100_000 == 100_000 * d) by (nonlinear_arith);
    }
    let shares = sum_shares(st, d);
    let paid = insurance + shares;
    assert(shares >= d - n);
    assert(paid >= p0 - n);
    // the profit never exceeds the balance it is measured from
    vstd::arithmetic::div_mod::lemma_fundamental_div_mod(balance * br, s);
    vstd::arithmetic::mul::lemma_mul_nonnegative(balance, br);
    vstd::arithmetic::div_mod::lemma_div_pos_is_pos(balance * br, s);
    assert(v1 * s <= balance * br) by (nonlinear_arith)
        requires
            balance * br == s * v1 + (balance * br) % s,
            (balance * br) % s >= 0,
    ;
    vstd::arithmetic::mul::lemma_mul_inequality(a1, v1, s);
    vstd::arithmetic::div_mod::lemma_div_is_ordered(a1 * s, v1 * s, br);
    vstd::arithmetic::div_mod::lemma_div_is_ordered(v1 * s, balance * br, br);
    assert((balance * br) / br == balance) by {
        vstd::arithmetic::div_mod::lemma_div_by_multiple(balance, br);
        assert(balance * br == br * balance) by (nonlinear_arith);
    }
    assert(p0 <= balance);
    let b2 = balance - paid;
    assert(0 <= b2 <= balance);
    // the measured value drops by at least the scaled payout
    let v2 = fmul(b2, br);
    assert(b2 * br == balance * br - paid * br) by (nonlinear_arith)
        requires
            b2 == balance - paid,
    ;
    vstd::arithmetic::mul::lemma_mul_nonnegative(paid, br);
    vstd::arithmetic::mul::lemma_mul_inequality(paid, balance, br);
    lemma_div_sub_bounds(balance * br, paid * br, s);
    assert(v2 <= v1 - fmul(paid, br));
    crate::math::lemma_fmul_monotone(b2, balance, br);
    // the scaled payout reaches nearly the whole measured profit
    assert(p0 >= d);
    assert(d >= crate::vault::PROFIT_FLOOR);
    assert(p0 - n >= 0);
    crate::math::lemma_fmul_monotone(p0 - n, paid, br);
    vstd::arithmetic::mul::lemma_mul_nonnegative(n, br);
    vstd::arithmetic::mul::lemma_mul_inequality(n, p0, br);
    assert((p0 - n) * br == p0 * br - n * br) by (nonlinear_arith);
    lemma_div_sub_bounds(p0 * br, n * br, s);
    // relate p0 * br back to the stable-asset profit a1
    vstd::arithmetic::div_mod::lemma_fundamental_div_mod(a1 * s, br);
    assert(p0 * br >= a1 * s - br + 1) by (nonlinear_arith)
        requires
            a1 * s == br * p0 + (a1 * s) % br,
            (a1 * s) % br < br,
    ;
    assert(p0 * br >= br) by (nonlinear_arith)
        requires
            p0 >= 1,
            br >= 1,
    ;
    assert(a1 * s >= br);
    lemma_div_sub_bounds(a1 * s, br - 1, s);
    assert((a1 * s) / s == a1) by {
        vstd::arithmetic::div_mod::lemma_div_by_multiple(a1, s);
        assert(a1 * s == s * a1) by (nonlinear_arith);
    }
    vstd::arithmetic::div_mod::lemma_div_is_ordered(a1 * s - br + 1, p0 * br, s);
    vstd::arithmetic::div_mod::lemma_div_is_ordered(a1 * s - br, a1 * s - br + 1, s);
    assert((p0 * br) / s >= a1 - (br - 1) / s - 1);
    assert(fmul(paid, br) >= a1 - (br - 1) / s - 1 - (n * br) / s - 1);
    // so the remeasured gap is a rounding residue
    vstd::arithmetic::div_mod::lemma_div_is_ordered_by_denominator(br - 1, 1, s);
    let bound = br / s + (n * br) / s + 3;
    assert((br - 1) / s <= br / s) by {
        vstd::arithmetic::div_mod::lemma_div_is_ordered(br - 1, br, s);
    }
    assert(v2 - ll <= bound);
    let a2: int = if v2 <= ll {
        0
    } else {
        v2 - ll
    };
    vstd::arithmetic::div_mod::lemma_div_pos_is_pos(br, s);
    vstd::arithmetic::div_mod::lemma_div_pos_is_pos(n * br, s);
    assert(0 <= a2 <= bound);
    // the remeasured profit in underlying units is at most one per
    // stakeholder plus rounding
    let q0 = fdiv(a2, br);
    vstd::arithmetic::div_mod::lemma_fundamental_div_mod(br, s);
    vstd::arithmetic::div_mod::lemma_fundamental_div_mod(n * br, s);
    assert(a2 * s <= (n + 4) * br) by (nonlinear_arith)
        requires
            a2 <= br / s + (n * br) / s + 3,
            a2 >= 0,
            br == s * (br / s) + br % s,
            n * br == s * ((n * br) / s) + (n * br) % s,
            br % s >= 0,
            (n * br) % s >= 0,
            s <= br,
            s >= 1,
    ;
    assert(((n + 4) * br) / br == n + 4) by {
        vstd::arithmetic::div_mod::lemma_div_by_multiple(n + 4, br);
        assert((n + 4) * br == br * (n + 4)) by (nonlinear_arith);
    }
    vstd::arithmetic::div_mod::lemma_div_is_ordered(a2 * s, (n + 4) * br, br);
    assert(q0 <= n + 4);
    crate::math::lemma_fdiv_nonneg(a2, br);
    lemma_fmul_nonneg(q0, INSURANCE_RATE_RAW as int);
    // and the second measurement is well-defined
    assert(v2 < bnd);
    assert(q0 < bnd);
    assert(profit_aterra_opt(b2, br, supply) is Some);
    assert(profit_aterra_opt(b2, br, supply)->Some_0 == q0);
}

/// Above the division bound, the product overflows.
proof fn lemma_mul_div_bound(p: int, w: int)
    requires
        w > 0,
        p > u128::MAX as int / w,
    ensures
        p * w > u128::MAX,
{
    assert(p >= u128::MAX as int / w + 1);
    vstd::arithmetic::div_mod::lemma_fundamental_div_mod(u128::MAX as int, w);
    assert((u128::MAX as int / w + 1) * w == (u128::MAX as int / w) * w + w)
        by (nonlinear_arith);
    assert(w * (u128::MAX as int / w) == (u128::MAX as int / w) * w) by (nonlinear_arith);
    vstd::arithmetic::mul::lemma_mul_inequality(u128::MAX as int / w + 1, p, w);
}

/// Below the division bound, the product fits.
proof fn lemma_div_mul_fits(p: int, w: int)
    requires
        w > 0,
        0 <= p <= u128::MAX as int / w,
    ensures
        p * w <= u128::MAX,
{
    vstd::arithmetic::div_mod::lemma_fundamental_div_mod(u128::MAX as int, w);
    vstd::arithmetic::mul::lemma_mul_inequality(p, u128::MAX as int / w, w);
    assert((u128::MAX as int / w) * w <= u128::MAX) by (nonlinear_arith)
        requires
            u128::MAX as int == w * (u128::MAX as int / w) + u128::MAX as int % w,
            u128::MAX as int % w >= 0,
    ;
}

} // verus!
