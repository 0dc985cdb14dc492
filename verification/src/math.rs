//! The deterministic fixed-point exponential and logarithm evaluator.
//!
//! `exp` decomposes its argument as `x = k*ln2 + r`, evaluates a fourteen-term
//! polynomial in `r` by Horner's rule and scales the result by `2^k` computed
//! through repeated doubling. `ln` halves its argument down to at most 4/3
//! while collecting multiples of `ln 2`, then refines iteratively until two
//! distance measures agree to within one atomic fixed-point unit. Every step
//! truncates exactly as the integer arithmetic does, so results are
//! bit-reproducible; the contracts below pin each function to a ghost mirror
//! of its computation, evaluated over unbounded integers.
//!
//! Any argument outside a function's domain, and any intermediate value that
//! leaves the representable range, yields `VaultError::ArithmeticDomain`;
//! nothing here panics.

use vstd::prelude::*;
use vstd::arithmetic::power2::pow2;
use vstd::arithmetic::power2::lemma_pow2_strictly_increases;
use vstd::arithmetic::power2::lemma_pow2_adds;
use vstd::arithmetic::power2::lemma2_to64;
use vstd::arithmetic::power2::lemma_pow2_pos;
use vstd::arithmetic::div_mod::lemma_fundamental_div_mod;
use vstd::arithmetic::div_mod::lemma_div_is_ordered;
use vstd::arithmetic::mul::lemma_mul_inequality;
use crate::errors::VaultError;
use crate::fixed::{fdiv, fmul, FixedDecimal, SCALE};
use crate::wide::u128_bound;

verus! {

/// The fixed-point value 2.
pub const TWO_RAW: u128 = 2_000_000_000_000_000_000;

/// The argument-reduction shift used when choosing the power-of-two factor
/// in `exp`; its calibrated value is 0.2.
pub const ONE_HALF_RAW: u128 = 200_000_000_000_000_000;

/// Arguments below this (10^-5) use the quadratic Taylor form in `expm1`.
pub const LITTLE_ENOUGH_RAW: u128 = 10_000_000_000_000;

/// The fixed-point value of ln 2.
pub const M_LN2_RAW: u128 = 693_147_180_559_945_309;

/// The leading coefficient of the `exp` polynomial.
pub const INIT_PN_RAW: u128 = 11_433_647;

/// Convergence threshold of the `ln` refinement: one atomic unit.
pub const EPSILON_RAW: u128 = 1;

/// The upper end of `exp`'s accepted domain: 709.
pub const EXP_DOMAIN_MAX_RAW: u128 = 709_000_000_000_000_000_000;

/// The fixed-point value 4/3, the target of `ln`'s halving reduction.
pub const FOUR_THIRD_RAW: u128 = 1_333_333_333_333_333_333;

/// The most refinement iterations `ln` will run before giving up.
pub const LN_MAX_ITERS: u64 = 100;

/// The polynomial coefficients of `exp`, from the second-highest order term
/// down to the constant term.
pub open spec fn coeff_spec(i: int) -> int {
    if i == 0 {
        163_246_178
    } else if i == 1 {
        2_088_459_690
    } else if i == 2 {
        25_048_614_864
    } else if i == 3 {
        275_571_567_596
    } else if i == 4 {
        2_755_734_045_527
    } else if i == 5 {
        24_801_588_665_468
    } else if i == 6 {
        198_412_697_873_478
    } else if i == 7 {
        1_388_888_888_388_000
    } else if i == 8 {
        8_333_333_333_342_000
    } else if i == 9 {
        41_666_666_666_727_000
    } else if i == 10 {
        166_666_666_666_680_000
    } else if i == 11 {
        500_000_000_000_002_000
    } else {
        1_000_000_000_000_000_000
    }
}

/// The polynomial coefficient at position `i`.
fn coeff(i: usize) -> (r: u128)
    requires
        i < 14,
    ensures
        r == coeff_spec(i as int),
{
    match i {
        0 => 163_246_178,
        1 => 2_088_459_690,
        2 => 25_048_614_864,
        3 => 275_571_567_596,
        4 => 2_755_734_045_527,
        5 => 24_801_588_665_468,
        6 => 198_412_697_873_478,
        7 => 1_388_888_888_388_000,
        8 => 8_333_333_333_342_000,
        9 => 41_666_666_666_727_000,
        10 => 166_666_666_666_680_000,
        11 => 500_000_000_000_002_000,
        _ => 1_000_000_000_000_000_000,
    }
}

/// One Horner step `pn * r + c`, or `None` when it leaves the `u128` range.
pub open spec fn horner_step(pn: int, r: int, c: int) -> Option<int> {
    if fmul(pn, r) >= u128_bound() {
        None
    } else if fmul(pn, r) + c >= u128_bound() {
        None
    } else {
        Some(fmul(pn, r) + c)
    }
}

/// The Horner evaluation after the first `n` of the 14 coefficients.
pub open spec fn horner_upto(r: int, n: nat) -> Option<int>
    decreases n,
{
    if n == 0 {
        Some(INIT_PN_RAW as int)
    } else {
        match horner_upto(r, (n - 1) as nat) {
            None => None,
            Some(pn) => horner_step(pn, r, coeff_spec(n - 1)),
        }
    }
}

/// Once a Horner prefix has left the range, every longer prefix has too.
proof fn lemma_horner_none_upward(r: int, j: nat, n: nat)
    requires
        j <= n,
        horner_upto(r, j) is None,
    ensures
        horner_upto(r, n) is None,
    decreases n,
{
    if n > j {
        lemma_horner_none_upward(r, j, (n - 1) as nat);
    }
}

/// A Horner evaluation of a non-negative argument is non-negative.
proof fn lemma_horner_nonneg(r: int, n: nat)
    requires
        r >= 0,
        horner_upto(r, n) is Some,
    ensures
        horner_upto(r, n)->Some_0 >= 0,
    decreases n,
{
    if n > 0 {
        lemma_horner_nonneg(r, (n - 1) as nat);
        let pn = horner_upto(r, (n - 1) as nat)->Some_0;
        vstd::arithmetic::mul::lemma_mul_nonnegative(pn, r);
        vstd::arithmetic::div_mod::lemma_div_pos_is_pos(pn * r, SCALE as int);
    }
}

/// The number of doublings `two_power_n` performs: the whole part of its
/// argument.
pub open spec fn two_power_iters(n: int) -> nat {
    if n >= SCALE {
        (n / SCALE as int) as nat
    } else {
        0
    }
}

/// What `two_power_n` returns: `2^floor(n)`, or `None` when that leaves the
/// `u128` range.
pub open spec fn two_power_n_spec(n: int) -> Option<int> {
    if SCALE * pow2(two_power_iters(n)) < u128_bound() {
        Some(SCALE * pow2(two_power_iters(n)))
    } else {
        None
    }
}

/// 2 raised to the whole part of `n`, by repeated doubling, or `None` when
/// the result leaves the representable range.
#[verifier::loop_isolation(false)]
pub fn two_power_n(n: FixedDecimal) -> (r: Option<FixedDecimal>)
    ensures
        match r {
            Some(v) => two_power_n_spec(n@) == Some(v@),
            None => two_power_n_spec(n@) is None,
        },
{
    let mut pow = FixedDecimal::one();
    proof {
        lemma2_to64();
        assert(pow2(0) == 1);
    }
    if n.raw >= SCALE {
        let two = FixedDecimal::from_raw(TWO_RAW);
        let mut tmp = FixedDecimal::one();
        while tmp.raw <= n.raw
            invariant
                SCALE <= tmp.raw,
                tmp.raw % SCALE == 0,
                tmp.raw <= n.raw + SCALE,
                pow@ == SCALE * pow2((tmp.raw / SCALE - 1) as nat),
            decreases n.raw + SCALE - tmp.raw,
        {
            let ghost j = (tmp.raw / SCALE - 1) as nat;
            let doubled = match pow.checked_mul(two) {
                Some(v) => v,
                None => {
                    proof {
                        lemma_two_power_overflow(n@, j, pow@);
                    }
                    return None;
                },
            };
            proof {
                lemma_double_exact(pow@, j);
                lemma_iter_bound(j, pow@);
                lemma_fundamental_div_mod(tmp.raw as int, SCALE as int);
            }
            pow = doubled;
            tmp = match tmp.checked_add(FixedDecimal::one()) {
                Some(v) => v,
                None => {
                    proof {
                        assert(false);
                    }
                    return None;
                },
            };
        }
        proof {
            assert(tmp.raw - SCALE <= n.raw < tmp.raw);
            lemma_quotient_between(n.raw as int, tmp.raw as int);
        }
    }
    Some(pow)
}

/// Doubling a power of two in fixed point is exact.
proof fn lemma_double_exact(p: int, j: nat)
    requires
        0 <= p < u128_bound(),
        p == SCALE * pow2(j),
        fmul(p, TWO_RAW as int) < u128_bound(),
    ensures
        fmul(p, TWO_RAW as int) == SCALE * pow2(j + 1),
{
    assert(p * (TWO_RAW as int) == (2 * p) * (SCALE as int)) by (nonlinear_arith)
        requires
            TWO_RAW == 2_000_000_000_000_000_000u128,
            SCALE == 1_000_000_000_000_000_000u128,
    ;
    vstd::arithmetic::div_mod::lemma_div_by_multiple(2 * p, SCALE as int);
    assert(pow2(j + 1) == 2 * pow2(j)) by {
        lemma_pow2_adds(j, 1);
        lemma2_to64();
    }
    assert(2 * (SCALE * pow2(j)) == SCALE * (2 * pow2(j))) by (nonlinear_arith);
}

/// When a doubling overflows, the full count of doublings overflows as well.
proof fn lemma_two_power_overflow(n: int, j: nat, p: int)
    requires
        SCALE <= n < u128_bound(),
        p == SCALE * pow2(j),
        p < u128_bound(),
        j + 1 <= n / SCALE as int,
        fmul(p, TWO_RAW as int) >= u128_bound(),
    ensures
        SCALE * pow2(two_power_iters(n)) >= u128_bound(),
{
    let iters = two_power_iters(n);
    assert(iters >= j + 1);
    assert(p * (TWO_RAW as int) == (2 * p) * (SCALE as int)) by (nonlinear_arith)
        requires
            TWO_RAW == 2_000_000_000_000_000_000u128,
            SCALE == 1_000_000_000_000_000_000u128,
    ;
    vstd::arithmetic::div_mod::lemma_div_by_multiple(2 * p, SCALE as int);
    assert(fmul(p, TWO_RAW as int) == 2 * p);
    assert(2 * (SCALE * pow2(j)) == SCALE * (2 * pow2(j))) by (nonlinear_arith);
    assert(pow2(j + 1) == 2 * pow2(j)) by {
        lemma_pow2_adds(j, 1);
        lemma2_to64();
    }
    assert(SCALE * pow2(j + 1) >= u128_bound());
    if iters > j + 1 {
        lemma_pow2_strictly_increases(j + 1, iters);
        lemma_mul_inequality(pow2(j + 1) as int, pow2(iters) as int, SCALE as int);
        assert(SCALE * pow2(j + 1) == pow2(j + 1) * SCALE) by (nonlinear_arith);
        assert(SCALE * pow2(iters) == pow2(iters) * SCALE) by (nonlinear_arith);
    }
}

/// A power of two that still fits leaves its exponent at most 68, so the
/// doubling counter stays far from overflow.
proof fn lemma_iter_bound(j: nat, p: int)
    requires
        p == SCALE * pow2(j),
        p < u128_bound(),
    ensures
        j <= 68,
{
    if j > 68 {
        lemma2_to64();
        lemma_pow2_adds(64, 5);
        assert(pow2(69) == 0x20_0000_0000_0000_0000) by (nonlinear_arith)
            requires
                pow2(69) == pow2(64) * pow2(5),
                pow2(64) == 0x1_0000_0000_0000_0000,
                pow2(5) == 32,
        ;
        if j > 69 {
            lemma_pow2_strictly_increases(69, j);
        }
        lemma_mul_inequality(pow2(69) as int, pow2(j) as int, SCALE as int);
        assert(SCALE * pow2(j) == pow2(j) * SCALE) by (nonlinear_arith);
        assert(SCALE * pow2(69) == pow2(69) * SCALE) by (nonlinear_arith);
        assert(SCALE * 0x20_0000_0000_0000_0000 >= u128_bound()) by (nonlinear_arith)
            requires
                SCALE == 1_000_000_000_000_000_000u128,
                u128_bound() == 0x1_0000_0000_0000_0000_0000_0000_0000_0000int,
        ;
    }
}

/// A value lying in the scale-aligned window below `t` has the whole part
/// `t / SCALE - 1`.
proof fn lemma_quotient_between(n: int, t: int)
    requires
        SCALE <= t,
        t % SCALE as int == 0,
        t - SCALE <= n < t,
    ensures
        n / SCALE as int == t / SCALE as int - 1,
{
    lemma_fundamental_div_mod(t as int, SCALE as int);
    assert((t - SCALE) % SCALE as int == 0) by {
        vstd::arithmetic::div_mod::lemma_mod_sub_multiples_vanish(t, SCALE as int);
    }
    vstd::arithmetic::div_mod::lemma_fundamental_div_mod_converse_div(
        n,
        SCALE as int,
        t / SCALE as int - 1,
        n - (t - SCALE),
    );
    assert((t / SCALE as int - 1) * SCALE + (n - (t - SCALE)) == n) by (nonlinear_arith)
        requires
            t == SCALE * (t / SCALE as int),
    ;
}

/// The `a = x / ln 2` step of `exp`'s argument reduction.
pub open spec fn exp_a(x: int) -> int {
    fdiv(x, M_LN2_RAW as int)
}

/// The power-of-two exponent chosen by `exp`, as a whole fixed-point value.
pub open spec fn exp_k(x: int) -> int {
    if exp_a(x) >= ONE_HALF_RAW {
        ((exp_a(x) - ONE_HALF_RAW) / SCALE as int) * SCALE
    } else {
        0
    }
}

/// The reduction offset `k * ln 2`.
pub open spec fn exp_t(x: int) -> int {
    fmul(exp_k(x), M_LN2_RAW as int)
}

/// The reduced polynomial argument `r = x - k * ln 2`.
pub open spec fn exp_r(x: int) -> int {
    x - exp_t(x)
}

/// The exact mirror of `exp`: the fixed-point value it returns, or `None`
/// where it rejects the argument or an intermediate leaves the `u128` range.
pub open spec fn exp_opt(x: int) -> Option<int> {
    if x > EXP_DOMAIN_MAX_RAW {
        None
    } else if x == 0 {
        Some(SCALE as int)
    } else if exp_a(x) >= u128_bound() {
        None
    } else {
        match two_power_n_spec(exp_k(x)) {
            None => None,
            Some(p2) => {
                if fmul(exp_k(x), M_LN2_RAW as int) >= u128_bound() {
                    None
                } else if x < exp_t(x) {
                    None
                } else {
                    match horner_upto(exp_r(x), 14) {
                        None => None,
                        Some(pn) => {
                            if fmul(pn, p2) >= u128_bound() {
                                None
                            } else {
                                Some(fmul(pn, p2))
                            }
                        },
                    }
                }
            },
        }
    }
}

impl FixedDecimal {
    /// The absolute difference of two values.
    pub fn error(x: FixedDecimal, y: FixedDecimal) -> (r: FixedDecimal)
        ensures
            r@ == if x@ >= y@ {
                x@ - y@
            } else {
                y@ - x@
            },
    {
        if x.raw > y.raw {
            FixedDecimal { raw: x.raw - y.raw }
        } else {
            FixedDecimal { raw: y.raw - x.raw }
        }
    }

    /// The fixed-point exponential, on the domain `0 <= x <= 709`.
    ///
    /// The result is exactly the mirror computation `exp_opt`; in particular
    /// `exp(0) == 1`, and every accepted result is at least 1.
    #[verifier::loop_isolation(false)]
    pub fn exp(x: FixedDecimal) -> (r: Result<FixedDecimal, VaultError>)
        ensures
            match r {
                Ok(v) => exp_opt(x@) == Some(v@),
                Err(e) => exp_opt(x@) is None && e == VaultError::ArithmeticDomain,
            },
            x@ == 0 ==> (r matches Ok(v) && v@ == SCALE),
            x@ > EXP_DOMAIN_MAX_RAW ==> r is Err,
    {
        if x.raw > EXP_DOMAIN_MAX_RAW {
            return Err(VaultError::ArithmeticDomain);
        }
        if x.is_zero() {
            return Ok(FixedDecimal::one());
        }
        let ln2 = FixedDecimal::from_raw(M_LN2_RAW);
        let a = match x.checked_div(ln2) {
            Some(v) => v,
            None => {
                return Err(VaultError::ArithmeticDomain);
            },
        };
        let k = if a.raw >= ONE_HALF_RAW {
            FixedDecimal::from_raw(a.raw - ONE_HALF_RAW).floor()
        } else {
            FixedDecimal::zero()
        };
        let p2 = match two_power_n(k) {
            Some(v) => v,
            None => {
                return Err(VaultError::ArithmeticDomain);
            },
        };
        let t = match k.checked_mul(ln2) {
            Some(v) => v,
            None => {
                return Err(VaultError::ArithmeticDomain);
            },
        };
        let rr = match x.checked_sub(t) {
            Some(v) => v,
            None => {
                return Err(VaultError::ArithmeticDomain);
            },
        };
        let mut pn = FixedDecimal::from_raw(INIT_PN_RAW);
        let mut i: usize = 0;
        while i < 14
            invariant
                i <= 14,
                horner_upto(rr@, i as nat) == Some(pn@),
            decreases 14 - i,
        {
            let m = match pn.checked_mul(rr) {
                Some(v) => v,
                None => {
                    proof {
                        lemma_horner_none_upward(rr@, (i + 1) as nat, 14);
                    }
                    return Err(VaultError::ArithmeticDomain);
                },
            };
            let c = FixedDecimal::from_raw(coeff(i));
            pn = match m.checked_add(c) {
                Some(v) => v,
                None => {
                    proof {
                        lemma_horner_none_upward(rr@, (i + 1) as nat, 14);
                    }
                    return Err(VaultError::ArithmeticDomain);
                },
            };
            i = i + 1;
        }
        match pn.checked_mul(p2) {
            Some(v) => Ok(v),
            None => Err(VaultError::ArithmeticDomain),
        }
    }
}

/// A fixed-point product of non-negative values is non-negative.
pub(crate) proof fn lemma_fmul_nonneg(a: int, b: int)
    requires
        0 <= a,
        0 <= b,
    ensures
        0 <= fmul(a, b),
{
    vstd::arithmetic::mul::lemma_mul_nonnegative(a, b);
    vstd::arithmetic::div_mod::lemma_div_pos_is_pos(a * b, SCALE as int);
}

/// Multiplying by a factor at most 1 cannot increase a value.
pub(crate) proof fn lemma_fmul_le_first(a: int, b: int)
    requires
        0 <= a,
        0 <= b <= SCALE,
    ensures
        fmul(a, b) <= a,
{
    lemma_mul_inequality(b, SCALE as int, a);
    assert(b * a == a * b) by (nonlinear_arith);
    assert((SCALE as int) * a == a * SCALE) by (nonlinear_arith);
    vstd::arithmetic::div_mod::lemma_div_by_multiple(a, SCALE as int);
    lemma_div_is_ordered(a * b, a * SCALE, SCALE as int);
}

/// Multiplying by the fixed-point 2 doubles exactly.
pub(crate) proof fn lemma_fmul_two(v: int)
    requires
        0 <= v,
    ensures
        fmul(TWO_RAW as int, v) == 2 * v,
        fmul(v, TWO_RAW as int) == 2 * v,
{
    assert((TWO_RAW as int) * v == (2 * v) * (SCALE as int)) by (nonlinear_arith)
        requires
            TWO_RAW == 2_000_000_000_000_000_000u128,
            SCALE == 1_000_000_000_000_000_000u128,
    ;
    assert(v * (TWO_RAW as int) == (2 * v) * (SCALE as int)) by (nonlinear_arith)
        requires
            TWO_RAW == 2_000_000_000_000_000_000u128,
            SCALE == 1_000_000_000_000_000_000u128,
    ;
    vstd::arithmetic::div_mod::lemma_div_by_multiple(2 * v, SCALE as int);
}

/// Fixed-point division by 2 is exact integer halving.
proof fn lemma_halve_exact(v: int)
    requires
        0 <= v,
    ensures
        fdiv(v, TWO_RAW as int) == v / 2,
{
    vstd::arithmetic::div_mod::lemma_div_denominator(v * SCALE, SCALE as int, 2);
    vstd::arithmetic::div_mod::lemma_div_by_multiple(v, SCALE as int);
    assert(v * SCALE == (SCALE as int) * v) by (nonlinear_arith);
    assert((SCALE as int) * 2 == TWO_RAW) by (nonlinear_arith)
        requires
            TWO_RAW == 2_000_000_000_000_000_000u128,
            SCALE == 1_000_000_000_000_000_000u128,
    ;
}

/// A fixed-point quotient of non-negative values is non-negative.
pub(crate) proof fn lemma_fdiv_nonneg(a: int, b: int)
    requires
        0 <= a,
        0 < b,
    ensures
        0 <= fdiv(a, b),
{
    vstd::arithmetic::mul::lemma_mul_nonnegative(a, SCALE as int);
    vstd::arithmetic::div_mod::lemma_div_pos_is_pos(a * SCALE, b);
}

/// `2v / den` stays at most 2 when `v` is at most `den`.
pub(crate) proof fn lemma_ratio_bound(v: int, den: int)
    requires
        0 <= v <= den,
        0 < den,
    ensures
        fdiv(2 * v, den) <= 2 * SCALE,
{
    assert((2 * v) * (SCALE as int) <= (2 * SCALE) * den) by (nonlinear_arith)
        requires
            0 <= v <= den,
    ;
    vstd::arithmetic::div_mod::lemma_div_by_multiple(2 * SCALE, den);
    assert(den * (2 * SCALE) == (2 * SCALE) * den) by (nonlinear_arith);
    lemma_div_is_ordered((2 * v) * (SCALE as int), (2 * SCALE) * den, den);
}

/// Dividing 1 by a value at least 1 gives at most 1.
pub(crate) proof fn lemma_inverse_le_one(e: int)
    requires
        e >= SCALE,
    ensures
        0 <= fdiv(SCALE as int, e) <= SCALE,
{
    lemma_fdiv_nonneg(SCALE as int, e);
    vstd::arithmetic::div_mod::lemma_div_is_ordered_by_denominator(
        (SCALE as int) * (SCALE as int),
        SCALE as int,
        e,
    );
    vstd::arithmetic::div_mod::lemma_div_by_multiple(SCALE as int, SCALE as int);
    assert((SCALE as int) * (SCALE as int) == (SCALE as int) * (SCALE as int));
}

/// The exact mirror of `expm1`: `exp(y) - 1`, through the quadratic Taylor
/// form when `y` is below 10^-5.
pub open spec fn expm1_opt(y: int) -> Option<int> {
    if y < LITTLE_ENOUGH_RAW {
        Some(y + fmul(fmul(y, y), ONE_HALF_RAW as int))
    } else {
        match exp_opt(y) {
            None => None,
            Some(e) => Some(e - SCALE),
        }
    }
}

/// The exact mirror of `expm1_minus`: `1 - 1/exp(y)`, through the quadratic
/// Taylor form when `y` is below 10^-5.
pub open spec fn expm1_minus_opt(y: int) -> Option<int> {
    if y < LITTLE_ENOUGH_RAW {
        Some(y - fmul(fmul(y, y), ONE_HALF_RAW as int))
    } else {
        match exp_opt(y) {
            None => None,
            Some(e) => {
                if e >= crate::wide::WORD {
                    None
                } else {
                    Some(SCALE - fdiv(SCALE as int, e))
                }
            },
        }
    }
}

/// `expm1`'s result is non-negative.
proof fn lemma_expm1_nonneg(y: int)
    requires
        0 <= y,
        expm1_opt(y) is Some,
    ensures
        expm1_opt(y)->Some_0 >= 0,
{
    if y < LITTLE_ENOUGH_RAW {
        lemma_fmul_nonneg(y, y);
        lemma_fmul_nonneg(fmul(y, y), ONE_HALF_RAW as int);
    } else {
        lemma_exp_at_least_one(y);
    }
}

/// `expm1_minus`'s result lies between 0 and 1.
proof fn lemma_expm1_minus_bounds(y: int)
    requires
        0 <= y,
        expm1_minus_opt(y) is Some,
    ensures
        0 <= expm1_minus_opt(y)->Some_0 <= SCALE,
{
    if y < LITTLE_ENOUGH_RAW {
        lemma_fmul_nonneg(y, y);
        lemma_fmul_le_first(y, y);
        lemma_fmul_nonneg(fmul(y, y), ONE_HALF_RAW as int);
        lemma_fmul_le_first(fmul(y, y), ONE_HALF_RAW as int);
    } else {
        let e = exp_opt(y)->Some_0;
        lemma_exp_at_least_one(y);
        lemma_inverse_le_one(e);
    }
}

impl FixedDecimal {
    /// `exp(y) - 1`, using the quadratic Taylor form for arguments below
    /// 10^-5 and the full exponential otherwise.
    pub fn expm1(y: FixedDecimal) -> (r: Result<FixedDecimal, VaultError>)
        ensures
            match r {
                Ok(v) => expm1_opt(y@) == Some(v@),
                Err(e) => expm1_opt(y@) is None && e == VaultError::ArithmeticDomain,
            },
    {
        if y.raw < LITTLE_ENOUGH_RAW {
            proof {
                lemma_fmul_nonneg(y@, y@);
                lemma_fmul_le_first(y@, y@);
                lemma_fmul_nonneg(fmul(y@, y@), ONE_HALF_RAW as int);
                lemma_fmul_le_first(fmul(y@, y@), ONE_HALF_RAW as int);
            }
            let sq = match y.checked_mul(y) {
                Some(v) => v,
                None => {
                    proof {
                        assert(false);
                    }
                    return Err(VaultError::ArithmeticDomain);
                },
            };
            let half = FixedDecimal::from_raw(ONE_HALF_RAW);
            let t = match sq.checked_mul(half) {
                Some(v) => v,
                None => {
                    proof {
                        assert(false);
                    }
                    return Err(VaultError::ArithmeticDomain);
                },
            };
            let s = match y.checked_add(t) {
                Some(v) => v,
                None => {
                    proof {
                        assert(false);
                    }
                    return Err(VaultError::ArithmeticDomain);
                },
            };
            Ok(s)
        } else {
            let e = match FixedDecimal::exp(y) {
                Ok(v) => v,
                Err(err) => {
                    return Err(err);
                },
            };
            proof {
                lemma_exp_at_least_one(y@);
            }
            let out = match e.checked_sub(FixedDecimal::one()) {
                Some(v) => v,
                None => {
                    proof {
                        assert(false);
                    }
                    return Err(VaultError::ArithmeticDomain);
                },
            };
            Ok(out)
        }
    }

    /// `1 - 1/exp(y)`, using the quadratic Taylor form for arguments below
    /// 10^-5 and the full exponential otherwise.
    pub fn expm1_minus(y: FixedDecimal) -> (r: Result<FixedDecimal, VaultError>)
        ensures
            match r {
                Ok(v) => expm1_minus_opt(y@) == Some(v@),
                Err(e) => expm1_minus_opt(y@) is None && e
                    == VaultError::ArithmeticDomain,
            },
    {
        if y.raw < LITTLE_ENOUGH_RAW {
            proof {
                lemma_fmul_nonneg(y@, y@);
                lemma_fmul_le_first(y@, y@);
                lemma_fmul_nonneg(fmul(y@, y@), ONE_HALF_RAW as int);
                lemma_fmul_le_first(fmul(y@, y@), ONE_HALF_RAW as int);
            }
            let sq = match y.checked_mul(y) {
                Some(v) => v,
                None => {
                    proof {
                        assert(false);
                    }
                    return Err(VaultError::ArithmeticDomain);
                },
            };
            let half = FixedDecimal::from_raw(ONE_HALF_RAW);
            let t = match sq.checked_mul(half) {
                Some(v) => v,
                None => {
                    proof {
                        assert(false);
                    }
                    return Err(VaultError::ArithmeticDomain);
                },
            };
            let s = match y.checked_sub(t) {
                Some(v) => v,
                None => {
                    proof {
                        assert(false);
                    }
                    return Err(VaultError::ArithmeticDomain);
                },
            };
            Ok(s)
        } else {
            let e = match FixedDecimal::exp(y) {
                Ok(v) => v,
                Err(err) => {
                    return Err(err);
                },
            };
            proof {
                lemma_exp_at_least_one(y@);
            }
            if e.raw >= crate::wide::WORD {
                return Err(VaultError::ArithmeticDomain);
            }
            let inv = match FixedDecimal::one().checked_div(e) {
                Some(v) => v,
                None => {
                    proof {
                        lemma_inverse_le_one(e@);
                    }
                    return Err(VaultError::ArithmeticDomain);
                },
            };
            proof {
                lemma_inverse_le_one(e@);
            }
            let out = match FixedDecimal::one().checked_sub(inv) {
                Some(v) => v,
                None => {
                    proof {
                        assert(false);
                    }
                    return Err(VaultError::ArithmeticDomain);
                },
            };
            Ok(out)
        }
    }
}

/// The ghost state of one `ln` refinement iteration: the running logarithm
/// estimate, the tracked exponential of the adjustments, the two distance
/// measures, and their gap.
pub ghost struct LnState {
    pub result: int,
    pub expy: int,
    pub y1: int,
    pub y2: int,
    pub err: int,
}

/// Recomputes the two distance measures and their gap after an adjustment.
pub open spec fn ln_recompute(xx: int, result: int, expy: int) -> Option<LnState> {
    if xx + expy >= u128_bound() {
        None
    } else if xx + expy >= crate::wide::WORD {
        None
    } else if fmul(TWO_RAW as int, expy) >= u128_bound() {
        None
    } else {
        let den = xx + expy;
        let y1 = fdiv(fmul(TWO_RAW as int, xx), den);
        let y2 = fdiv(fmul(TWO_RAW as int, expy), den);
        Some(
            LnState {
                result,
                expy,
                y1,
                y2,
                err: if y1 >= y2 {
                    y1 - y2
                } else {
                    y2 - y1
                },
            },
        )
    }
}

/// One full `ln` refinement step: adjust the estimate by the gap between the
/// two distance measures, track the exponential of the adjustment, and
/// recompute the measures.
pub open spec fn ln_step(xx: int, s: LnState) -> Option<LnState> {
    if s.y1 > s.y2 {
        let yd = s.y1 - s.y2;
        match expm1_opt(yd) {
            None => None,
            Some(em) => {
                if fmul(s.expy, em) >= u128_bound() {
                    None
                } else if s.expy + fmul(s.expy, em) >= u128_bound() {
                    None
                } else if s.result + yd >= u128_bound() {
                    None
                } else {
                    ln_recompute(xx, s.result + yd, s.expy + fmul(s.expy, em))
                }
            },
        }
    } else {
        let yd = s.y2 - s.y1;
        match expm1_minus_opt(yd) {
            None => None,
            Some(em) => {
                if s.result < yd {
                    None
                } else {
                    ln_recompute(xx, s.result - yd, s.expy - fmul(s.expy, em))
                }
            },
        }
    }
}

/// Runs `ln` refinement steps until the gap closes to one atomic unit or the
/// fuel runs out; `None` means no convergence or a value out of range.
pub open spec fn ln_iter(xx: int, s: LnState, fuel: nat) -> Option<LnState>
    decreases fuel,
{
    if s.err <= EPSILON_RAW {
        Some(s)
    } else if fuel == 0 {
        None
    } else {
        match ln_step(xx, s) {
            None => None,
            Some(s2) => ln_iter(xx, s2, (fuel - 1) as nat),
        }
    }
}

/// How many times `ln` halves its argument to bring it to at most 4/3.
pub open spec fn ln_halvings(x: int) -> nat
    decreases x,
{
    if x > FOUR_THIRD_RAW {
        1 + ln_halvings(x / 2)
    } else {
        0
    }
}

/// The argument after `ln`'s halving reduction.
pub open spec fn ln_reduced(x: int) -> int
    decreases x,
{
    if x > FOUR_THIRD_RAW {
        ln_reduced(x / 2)
    } else {
        x
    }
}

/// The state `ln`'s refinement starts from.
pub open spec fn ln_init(xx: int, result0: int) -> LnState {
    LnState {
        result: result0,
        expy: SCALE as int,
        y1: fdiv(fmul(TWO_RAW as int, xx), xx + SCALE),
        y2: fdiv(fmul(TWO_RAW as int, SCALE as int), xx + SCALE),
        err: SCALE as int,
    }
}

/// The exact mirror of `ln`: the fixed-point value it returns, or `None`
/// where the argument is below 1, an intermediate leaves the `u128` range,
/// or the refinement does not converge within its iteration budget.
pub open spec fn ln_opt(x: int) -> Option<int> {
    if x < SCALE {
        None
    } else if x == SCALE {
        Some(0)
    } else {
        let xr = ln_reduced(x);
        let r0 = fmul(ln_halvings(x) * SCALE, M_LN2_RAW as int);
        match ln_iter(xr, ln_init(xr, r0), LN_MAX_ITERS as nat) {
            None => None,
            Some(s) => Some(s.result),
        }
    }
}

/// The exact mirror of `powf`: `exp(power * ln(base))`.
pub open spec fn powf_opt(base: int, power: int) -> Option<int> {
    match ln_opt(base) {
        None => None,
        Some(l) => {
            if fmul(power, l) >= u128_bound() {
                None
            } else {
                exp_opt(fmul(power, l))
            }
        },
    }
}

/// A fixed-point product is monotone in either factor.
pub(crate) proof fn lemma_fmul_monotone(a1: int, a2: int, b: int)
    requires
        0 <= a1 <= a2,
        0 <= b,
    ensures
        fmul(a1, b) <= fmul(a2, b),
        fmul(b, a1) <= fmul(b, a2),
{
    lemma_mul_inequality(a1, a2, b);
    assert(b * a1 == a1 * b) by (nonlinear_arith);
    assert(b * a2 == a2 * b) by (nonlinear_arith);
    lemma_div_is_ordered(a1 * b, a2 * b, SCALE as int);
}

/// The Horner evaluation is monotone in its argument.
proof fn lemma_horner_monotone(r1: int, r2: int, n: nat)
    requires
        0 <= r1 <= r2,
        horner_upto(r1, n) is Some,
        horner_upto(r2, n) is Some,
    ensures
        horner_upto(r1, n)->Some_0 <= horner_upto(r2, n)->Some_0,
    decreases n,
{
    if n > 0 {
        lemma_horner_monotone(r1, r2, (n - 1) as nat);
        lemma_horner_nonneg(r1, (n - 1) as nat);
        lemma_horner_nonneg(r2, (n - 1) as nat);
        let p1 = horner_upto(r1, (n - 1) as nat)->Some_0;
        let p2 = horner_upto(r2, (n - 1) as nat)->Some_0;
        lemma_fmul_monotone(p1, p2, r1);
        lemma_fmul_monotone(r1, r2, p2);
    }
}

/// The exponential is non-decreasing between accepted arguments that share
/// the same power-of-two scale factor. (Across a change of scale factor the
/// truncating arithmetic leaves the comparison open, and at the granularity
/// of single atomic units the truncation makes a strict version false, so
/// this is the monotonicity this evaluator can promise.)
pub proof fn lemma_exp_monotone_within_scale(x1: int, x2: int)
    requires
        0 < x1 <= x2,
        exp_opt(x1) is Some,
        exp_opt(x2) is Some,
        exp_k(x1) == exp_k(x2),
    ensures
        exp_opt(x1)->Some_0 <= exp_opt(x2)->Some_0,
{
    let p2 = two_power_n_spec(exp_k(x1))->Some_0;
    let h1 = horner_upto(exp_r(x1), 14)->Some_0;
    let h2 = horner_upto(exp_r(x2), 14)->Some_0;
    assert(exp_r(x1) <= exp_r(x2));
    lemma_horner_monotone(exp_r(x1), exp_r(x2), 14);
    lemma_horner_nonneg(exp_r(x1), 14);
    let iters = two_power_iters(exp_k(x1));
    lemma_pow2_pos(iters);
    assert(p2 >= 0) by (nonlinear_arith)
        requires
            p2 == SCALE * pow2(iters),
            pow2(iters) >= 1,
    ;
    lemma_fmul_monotone(h1, h2, p2);
}

/// The reduced `ln` argument lies between roughly 2/3 and 4/3.
proof fn lemma_reduced_range(x: int)
    requires
        x >= 666_666_666_666_666_667,
    ensures
        666_666_666_666_666_667 <= ln_reduced(x) <= FOUR_THIRD_RAW,
    decreases x,
{
    if x > FOUR_THIRD_RAW {
        lemma_reduced_range(x / 2);
    }
}

/// While halvings continue, the power of two collected so far stays within
/// the starting value, so the halving counter stays small.
proof fn lemma_count_bound(count: nat, xxv: int, xv: int)
    requires
        pow2(count) * xxv <= xv,
        xxv >= 1,
        xv < u128_bound(),
    ensures
        count <= 127,
{
    if count > 127 {
        lemma2_to64();
        lemma_pow2_adds(64, 64);
        assert(pow2(128) == u128_bound()) by (nonlinear_arith)
            requires
                pow2(128) == pow2(64) * pow2(64),
                pow2(64) == 0x1_0000_0000_0000_0000,
                u128_bound() == 0x1_0000_0000_0000_0000_0000_0000_0000_0000int,
        ;
        if count > 128 {
            lemma_pow2_strictly_increases(128, count);
        }
        lemma_pow2_pos(count);
        lemma_mul_inequality(1, xxv, pow2(count) as int);
        assert(pow2(count) * 1 == pow2(count)) by (nonlinear_arith);
        assert(pow2(count) * xxv >= pow2(count) * 1) by (nonlinear_arith)
            requires
                xxv >= 1,
        ;
    }
}

/// Halving the argument and doubling the collected power keeps their product
/// bounded by the starting value.
proof fn lemma_pow2_halving_step(count: nat, xxv: int, xv: int)
    requires
        0 <= xxv,
        pow2(count) * xxv <= xv,
    ensures
        pow2(count + 1) * (xxv / 2) <= xv,
{
    lemma_fundamental_div_mod(xxv, 2);
    assert(2 * (xxv / 2) <= xxv);
    assert(pow2(count + 1) == 2 * pow2(count)) by {
        lemma_pow2_adds(count, 1);
        lemma2_to64();
    }
    assert(pow2(count + 1) * (xxv / 2) == pow2(count) * (2 * (xxv / 2)))
        by (nonlinear_arith)
        requires
            pow2(count + 1) == 2 * pow2(count),
    ;
    vstd::arithmetic::div_mod::lemma_div_pos_is_pos(xxv, 2);
    assert(pow2(count) * (2 * (xxv / 2)) <= pow2(count) * xxv) by (nonlinear_arith)
        requires
            2 * (xxv / 2) <= xxv,
            0 <= xxv / 2,
    ;
}

/// Multiplying a whole fixed-point count by `ln 2` is exact and small.
proof fn lemma_count_times_ln2(c: int)
    requires
        0 <= c <= 128,
    ensures
        fmul(c * SCALE, M_LN2_RAW as int) == c * M_LN2_RAW,
        fmul(c * SCALE, M_LN2_RAW as int) < u128_bound(),
{
    assert((c * SCALE) * (M_LN2_RAW as int) == (c * M_LN2_RAW) * (SCALE as int))
        by (nonlinear_arith);
    vstd::arithmetic::div_mod::lemma_div_by_multiple(c * M_LN2_RAW, SCALE as int);
    assert(c * M_LN2_RAW <= 128 * M_LN2_RAW) by (nonlinear_arith)
        requires
            0 <= c <= 128,
            M_LN2_RAW == 693_147_180_559_945_309u128,
    ;
}

impl FixedDecimal {
    /// The fixed-point natural logarithm, on the domain `x >= 1`.
    ///
    /// The argument is halved down to at most 4/3 while multiples of `ln 2`
    /// accumulate, then refined until two distance measures agree to within
    /// one atomic unit. The result is exactly the mirror computation
    /// `ln_opt`; in particular `ln(1) == 0`, and every argument below 1 is
    /// rejected.
    #[verifier::loop_isolation(false)]
    #[verifier::rlimit(60)]
    pub fn ln(x: FixedDecimal) -> (r: Result<FixedDecimal, VaultError>)
        ensures
            match r {
                Ok(v) => ln_opt(x@) == Some(v@),
                Err(e) => ln_opt(x@) is None && e == VaultError::ArithmeticDomain,
            },
            x@ < SCALE ==> r is Err,
            x@ == SCALE ==> (r matches Ok(v) && v@ == 0),
    {
        if x.raw < SCALE {
            return Err(VaultError::ArithmeticDomain);
        }
        if x.raw == SCALE {
            return Ok(FixedDecimal::zero());
        }
        let two = FixedDecimal::from_raw(TWO_RAW);
        let ln2 = FixedDecimal::from_raw(M_LN2_RAW);
        let mut result = FixedDecimal::zero();
        let mut xx = x;
        let ghost mut count: nat = 0;
        proof {
            lemma2_to64();
        }
        while xx.raw > FOUR_THIRD_RAW
            invariant
                result@ == count * SCALE,
                ln_halvings(x@) == count + ln_halvings(xx@),
                ln_reduced(x@) == ln_reduced(xx@),
                xx@ >= 666_666_666_666_666_667,
                pow2(count) * xx@ <= x@,
            decreases xx.raw,
        {
            proof {
                lemma_count_bound(count, xx@, x@);
            }
            result = match result.checked_add(FixedDecimal::one()) {
                Some(v) => v,
                None => {
                    proof {
                        assert(false);
                    }
                    return Err(VaultError::ArithmeticDomain);
                },
            };
            proof {
                lemma_halve_exact(xx@);
                lemma_pow2_halving_step(count, xx@, x@);
            }
            let nxt = match xx.checked_div(two) {
                Some(v) => v,
                None => {
                    proof {
                        assert(false);
                    }
                    return Err(VaultError::ArithmeticDomain);
                },
            };
            xx = nxt;
            proof {
                count = count + 1;
                assert((count - 1 + 1) * SCALE == (count - 1) * SCALE + SCALE)
                    by (nonlinear_arith);
            }
        }
        proof {
            lemma_count_bound(count, xx@, x@);
            lemma_count_times_ln2(count as int);
        }
        result = match result.checked_mul(ln2) {
            Some(v) => v,
            None => {
                proof {
                    assert(false);
                }
                return Err(VaultError::ArithmeticDomain);
            },
        };
        let ghost r0 = result@;
        let mut expy = FixedDecimal::one();
        proof {
            lemma_fmul_two(xx@);
            lemma_fmul_two(SCALE as int);
        }
        let t2xx = match two.checked_mul(xx) {
            Some(v) => v,
            None => {
                proof {
                    assert(false);
                }
                return Err(VaultError::ArithmeticDomain);
            },
        };
        let den0 = match xx.checked_add(expy) {
            Some(v) => v,
            None => {
                proof {
                    assert(false);
                }
                return Err(VaultError::ArithmeticDomain);
            },
        };
        proof {
            lemma_ratio_bound(xx@, den0@);
            lemma_ratio_bound(SCALE as int, den0@);
        }
        let mut ydiff1 = match t2xx.checked_div(den0) {
            Some(v) => v,
            None => {
                proof {
                    assert(false);
                }
                return Err(VaultError::ArithmeticDomain);
            },
        };
        let t2e = match two.checked_mul(expy) {
            Some(v) => v,
            None => {
                proof {
                    assert(false);
                }
                return Err(VaultError::ArithmeticDomain);
            },
        };
        let mut ydiff2 = match t2e.checked_div(den0) {
            Some(v) => v,
            None => {
                proof {
                    assert(false);
                }
                return Err(VaultError::ArithmeticDomain);
            },
        };
        let mut error = FixedDecimal::one();
        let mut iters: u64 = 0;
        let ghost init_s = ln_init(xx@, r0);
        proof {
            assert(ydiff1@ == init_s.y1);
            assert(ydiff2@ == init_s.y2);
        }
        while error.raw > EPSILON_RAW && iters < LN_MAX_ITERS
            invariant
                iters <= LN_MAX_ITERS,
                ln_iter(
                    xx@,
                    (LnState {
                        result: result@,
                        expy: expy@,
                        y1: ydiff1@,
                        y2: ydiff2@,
                        err: error@,
                    }),
                    (LN_MAX_ITERS - iters) as nat,
                ) == ln_iter(xx@, init_s, LN_MAX_ITERS as nat),
            decreases LN_MAX_ITERS - iters,
        {
            let ghost s_old = LnState {
                result: result@,
                expy: expy@,
                y1: ydiff1@,
                y2: ydiff2@,
                err: error@,
            };
            let ghost fuel_old = (LN_MAX_ITERS - iters) as nat;
            if ydiff1.raw > ydiff2.raw {
                let yd = FixedDecimal::from_raw(ydiff1.raw - ydiff2.raw);
                let em = match FixedDecimal::expm1(yd) {
                    Ok(v) => v,
                    Err(e) => {
                        return Err(e);
                    },
                };
                let prod = match expy.checked_mul(em) {
                    Some(v) => v,
                    None => {
                        return Err(VaultError::ArithmeticDomain);
                    },
                };
                let newexpy = match expy.checked_add(prod) {
                    Some(v) => v,
                    None => {
                        return Err(VaultError::ArithmeticDomain);
                    },
                };
                let newresult = match result.checked_add(yd) {
                    Some(v) => v,
                    None => {
                        return Err(VaultError::ArithmeticDomain);
                    },
                };
                expy = newexpy;
                result = newresult;
            } else {
                let yd = FixedDecimal::from_raw(ydiff2.raw - ydiff1.raw);
                let em = match FixedDecimal::expm1_minus(yd) {
                    Ok(v) => v,
                    Err(e) => {
                        return Err(e);
                    },
                };
                proof {
                    lemma_expm1_minus_bounds(yd@);
                    lemma_fmul_le_first(expy@, em@);
                    lemma_fmul_nonneg(expy@, em@);
                }
                let prod = match expy.checked_mul(em) {
                    Some(v) => v,
                    None => {
                        proof {
                            assert(false);
                        }
                        return Err(VaultError::ArithmeticDomain);
                    },
                };
                let newexpy = match expy.checked_sub(prod) {
                    Some(v) => v,
                    None => {
                        proof {
                            assert(false);
                        }
                        return Err(VaultError::ArithmeticDomain);
                    },
                };
                let newresult = match result.checked_sub(yd) {
                    Some(v) => v,
                    None => {
                        return Err(VaultError::ArithmeticDomain);
                    },
                };
                expy = newexpy;
                result = newresult;
            }
            proof {
                lemma_fmul_two(xx@);
                lemma_fmul_two(expy@);
            }
            let t2xx2 = match two.checked_mul(xx) {
                Some(v) => v,
                None => {
                    proof {
                        assert(false);
                    }
                    return Err(VaultError::ArithmeticDomain);
                },
            };
            let den = match xx.checked_add(expy) {
                Some(v) => v,
                None => {
                    return Err(VaultError::ArithmeticDomain);
                },
            };
            proof {
                lemma_ratio_bound(xx@, den@);
                lemma_ratio_bound(expy@, den@);
            }
            ydiff1 = match t2xx2.checked_div(den) {
                Some(v) => v,
                None => {
                    return Err(VaultError::ArithmeticDomain);
                },
            };
            let t2e2 = match two.checked_mul(expy) {
                Some(v) => v,
                None => {
                    return Err(VaultError::ArithmeticDomain);
                },
            };
            ydiff2 = match t2e2.checked_div(den) {
                Some(v) => v,
                None => {
                    proof {
                        assert(false);
                    }
                    return Err(VaultError::ArithmeticDomain);
                },
            };
            error = FixedDecimal::error(ydiff1, ydiff2);
            iters = iters + 1;
            proof {
                let s_new = LnState {
                    result: result@,
                    expy: expy@,
                    y1: ydiff1@,
                    y2: ydiff2@,
                    err: error@,
                };
                assert(ln_step(xx@, s_old) == Some(s_new));
                assert(ln_iter(xx@, s_old, fuel_old) == ln_iter(
                    xx@,
                    s_new,
                    (fuel_old - 1) as nat,
                ));
            }
        }
        if error.raw > EPSILON_RAW {
            return Err(VaultError::ArithmeticDomain);
        }
        Ok(result)
    }

    /// `self` raised to `power`: `exp(power * ln(self))`.
    pub fn powf(&self, power: FixedDecimal) -> (r: Result<FixedDecimal, VaultError>)
        ensures
            match r {
                Ok(v) => powf_opt(self@, power@) == Some(v@),
                Err(e) => powf_opt(self@, power@) is None && e
                    == VaultError::ArithmeticDomain,
            },
    {
        let l = match FixedDecimal::ln(*self) {
            Ok(v) => v,
            Err(e) => {
                return Err(e);
            },
        };
        let m = match power.checked_mul(l) {
            Some(v) => v,
            None => {
                return Err(VaultError::ArithmeticDomain);
            },
        };
        FixedDecimal::exp(m)
    }
}

/// Every result `exp` accepts is at least 1: the polynomial's constant term
/// is 1 and the power-of-two factor only enlarges it.
pub proof fn lemma_exp_at_least_one(x: int)
    requires
        exp_opt(x) is Some,
    ensures
        exp_opt(x)->Some_0 >= SCALE,
{
    if x > EXP_DOMAIN_MAX_RAW || x == 0 {
    } else {
        let p2 = two_power_n_spec(exp_k(x))->Some_0;
        let pn = horner_upto(exp_r(x), 14)->Some_0;
        let prev = horner_upto(exp_r(x), 13)->Some_0;
        assert(exp_r(x) >= 0);
        lemma_horner_nonneg(exp_r(x), 13);
        vstd::arithmetic::mul::lemma_mul_nonnegative(prev, exp_r(x));
        vstd::arithmetic::div_mod::lemma_div_pos_is_pos(prev * exp_r(x), SCALE as int);
        assert(pn >= SCALE);
        let iters = two_power_iters(exp_k(x));
        lemma_pow2_pos(iters);
        assert(p2 >= SCALE) by (nonlinear_arith)
            requires
                p2 == SCALE * pow2(iters),
                pow2(iters) >= 1,
    ;
        lemma_mul_inequality(SCALE as int, p2, pn);
        assert(pn * (SCALE as int) == SCALE * pn) by (nonlinear_arith);
        vstd::arithmetic::div_mod::lemma_div_by_multiple(pn, SCALE as int);
        assert(fmul(pn, SCALE as int) == pn);
        assert(pn * p2 >= pn * (SCALE as int)) by (nonlinear_arith)
            requires
                p2 >= SCALE,
                pn >= 0,
        ;
        lemma_div_is_ordered(pn * (SCALE as int), pn * p2, SCALE as int);
    }
}

} // verus!
