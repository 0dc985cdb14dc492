//! Exact `u128` products and quotients through a double-width intermediate.
//!
//! Fixed-point multiplication and division both reduce to `floor(a * b / d)`,
//! whose intermediate product needs up to 256 bits. This module computes that
//! product as a pair of `u128` halves and divides it back down, so callers get
//! the mathematically exact truncated result or learn that it does not fit.

use vstd::prelude::*;
use vstd::arithmetic::div_mod::{
    lemma_fundamental_div_mod, lemma_fundamental_div_mod_converse_div,
};
use vstd::arithmetic::mul::lemma_mul_inequality;

verus! {

/// One limb's worth of value: 2^64.
pub const WORD: u128 = 0x1_0000_0000_0000_0000;

/// 2^128, the first value a `u128` cannot hold.
pub open spec fn u128_bound() -> int {
    0x1_0000_0000_0000_0000_0000_0000_0000_0000int
}

/// The value of a 256-bit quantity given as two 128-bit halves.
pub open spec fn wide_value(hi: int, lo: int) -> int {
    hi * u128_bound() + lo
}

/// Splits `a * b` into 128-bit halves: `r.0 * 2^128 + r.1 == a * b`.
fn mul_wide(a: u128, b: u128) -> (r: (u128, u128))
    ensures
        wide_value(r.0 as int, r.1 as int) == a * b,
{
    let a1 = a / WORD;
    let a0 = a % WORD;
    let b1 = b / WORD;
    let b0 = b % WORD;
    proof {
        lemma_fundamental_div_mod(a as int, WORD as int);
        lemma_fundamental_div_mod(b as int, WORD as int);
        assert(a1 < WORD && b1 < WORD) by (nonlinear_arith)
            requires
                a1 == a as int / WORD as int,
                b1 == b as int / WORD as int,
                a <= u128::MAX,
                b <= u128::MAX,
                WORD == 0x1_0000_0000_0000_0000,
        ;
        lemma_limb_product_fits(a0 as int, b0 as int);
        lemma_limb_product_fits(a0 as int, b1 as int);
        lemma_limb_product_fits(a1 as int, b0 as int);
        lemma_limb_product_fits(a1 as int, b1 as int);
    }
    let ll = a0 * b0;
    let lh = a0 * b1;
    let hl = a1 * b0;
    let hh = a1 * b1;
    let m = (lh % WORD) + (hl % WORD) + ll / WORD;
    proof {
        lemma_fundamental_div_mod(ll as int, WORD as int);
        lemma_fundamental_div_mod(lh as int, WORD as int);
        lemma_fundamental_div_mod(hl as int, WORD as int);
        lemma_fundamental_div_mod(m as int, WORD as int);
        assert((m % WORD) * WORD + ll % WORD < u128_bound()) by (nonlinear_arith)
            requires
                m % WORD < WORD,
                ll % WORD < WORD,
                WORD == 0x1_0000_0000_0000_0000,
        ;
        lemma_limb_quotient_small(lh as int);
        lemma_limb_quotient_small(hl as int);
    }
    let lo = (m % WORD) * WORD + ll % WORD;
    let hi = hh + lh / WORD + hl / WORD + m / WORD;
    proof {
        assert(hi * u128_bound() + lo == a * b) by (nonlinear_arith)
            requires
                a == a1 * WORD + a0,
                b == b1 * WORD + b0,
                ll == a0 * b0,
                lh == a0 * b1,
                hl == a1 * b0,
                hh == a1 * b1,
                ll == (ll / WORD) * WORD + ll % WORD,
                lh == (lh / WORD) * WORD + lh % WORD,
                hl == (hl / WORD) * WORD + hl % WORD,
                m == lh % WORD + hl % WORD + ll / WORD,
                m == (m / WORD) * WORD + m % WORD,
                lo == (m % WORD) * WORD + ll % WORD,
                hi == hh + lh / WORD + hl / WORD + m / WORD,
                WORD == 0x1_0000_0000_0000_0000,
                u128_bound() == WORD * WORD,
        ;
    }
    (hi, lo)
}

/// The product of two values below 2^64 stays below 2^128.
proof fn lemma_limb_product_fits(x: int, y: int)
    requires
        0 <= x < WORD,
        0 <= y < WORD,
    ensures
        x * y <= (WORD - 1) * (WORD - 1),
        x * y < u128_bound(),
{
    lemma_mul_inequality(x, WORD - 1, y);
    lemma_mul_inequality(y, WORD - 1, WORD - 1);
    vstd::arithmetic::mul::lemma_mul_is_commutative(y, WORD - 1);
    assert((WORD - 1) * (WORD - 1) < u128_bound()) by (nonlinear_arith)
        requires
            WORD == 0x1_0000_0000_0000_0000,
            u128_bound() == 0x1_0000_0000_0000_0000_0000_0000_0000_0000int,
    ;
}

/// A product of two limbs, divided by one limb's width, is below 2^64.
proof fn lemma_limb_quotient_small(p: int)
    requires
        0 <= p <= (WORD - 1) * (WORD - 1),
    ensures
        p / (WORD as int) <= WORD - 2,
{
    assert(p / (WORD as int) <= WORD - 2) by (nonlinear_arith)
        requires
            0 <= p <= (WORD - 1) * (WORD - 1),
            WORD == 0x1_0000_0000_0000_0000,
    ;
}

/// Divides `hi * 2^128 + lo` by `d`, one 64-bit limb at a time.
/// The quotient fits a `u128` exactly when `hi < d`.
fn div_wide(hi: u128, lo: u128, d: u128) -> (r: Option<u128>)
    requires
        0 < d < WORD,
    ensures
        match r {
            Some(q) => hi < d && q == wide_value(hi as int, lo as int) / d as int,
            None => hi >= d,
        },
{
    if hi >= d {
        return None;
    }
    let n1 = lo / WORD;
    let n0 = lo % WORD;
    proof {
        lemma_fundamental_div_mod(lo as int, WORD as int);
        assert(n1 < WORD) by (nonlinear_arith)
            requires
                n1 == lo as int / WORD as int,
                lo <= u128::MAX,
                WORD == 0x1_0000_0000_0000_0000,
        ;
        assert(hi * WORD + n1 < d * WORD) by (nonlinear_arith)
            requires
                hi < d,
                n1 < WORD,
                0 < d < WORD,
        ;
        assert(d * WORD <= u128::MAX + 1) by (nonlinear_arith)
            requires
                0 < d < WORD,
                WORD == 0x1_0000_0000_0000_0000,
        ;
    }
    let cur1 = hi * WORD + n1;
    let q1 = cur1 / d;
    let r1 = cur1 % d;
    proof {
        lemma_fundamental_div_mod(cur1 as int, d as int);
        assert(q1 < WORD) by (nonlinear_arith)
            requires
                q1 == cur1 as int / d as int,
                cur1 < d * WORD,
                0 < d,
        ;
        assert(r1 * WORD + n0 < d * WORD) by (nonlinear_arith)
            requires
                r1 < d,
                n0 < WORD,
                0 < d < WORD,
        ;
        assert(d * WORD <= u128::MAX + 1) by (nonlinear_arith)
            requires
                0 < d < WORD,
                WORD == 0x1_0000_0000_0000_0000,
        ;
    }
    let cur0 = r1 * WORD + n0;
    let q0 = cur0 / d;
    let r0 = cur0 % d;
    proof {
        lemma_fundamental_div_mod(cur0 as int, d as int);
        assert(q0 < WORD) by (nonlinear_arith)
            requires
                q0 == cur0 as int / d as int,
                cur0 < d * WORD,
                0 < d,
        ;
        assert(q1 * WORD + q0 < u128_bound()) by (nonlinear_arith)
            requires
                q1 < WORD,
                q0 < WORD,
                WORD == 0x1_0000_0000_0000_0000,
                u128_bound() == WORD * WORD,
        ;
    }
    let q = q1 * WORD + q0;
    proof {
        assert((q1 * WORD + q0) * d + r0 == wide_value(hi as int, lo as int))
            by (nonlinear_arith)
            requires
                lo == n1 * WORD + n0,
                cur1 == hi * WORD + n1,
                cur1 == d * q1 + r1,
                cur0 == r1 * WORD + n0,
                cur0 == d * q0 + r0,
                wide_value(hi as int, lo as int) == hi * (WORD * WORD) + lo,
                u128_bound() == WORD * WORD,
        ;
        lemma_fundamental_div_mod_converse_div(
            wide_value(hi as int, lo as int),
            d as int,
            q as int,
            r0 as int,
        );
    }
    Some(q)
}

/// The exact truncated product-quotient `floor(a * b / d)`, or `None` when the
/// result does not fit a `u128`, the divisor is zero, or the divisor is at or
/// above 2^64 (values that large are outside this library's operating range).
pub fn mul_div(a: u128, b: u128, d: u128) -> (r: Option<u128>)
    ensures
        match r {
            Some(q) => 0 < d < WORD && q == (a * b) / (d as int) && (a * b) / (
            d as int) < u128_bound(),
            None => d == 0 || d >= WORD || (a * b) / (d as int) >= u128_bound(),
        },
{
    if d == 0 || d >= WORD {
        return None;
    }
    let (hi, lo) = mul_wide(a, b);
    proof {
        lemma_wide_quotient_fits(hi as int, lo as int, d as int, a as int, b as int);
    }
    div_wide(hi, lo, d)
}

/// The quotient of a 256-bit value by `d` fits a `u128` exactly when the upper
/// half is below `d`.
proof fn lemma_wide_quotient_fits(hi: int, lo: int, d: int, a: int, b: int)
    requires
        0 < d,
        0 <= hi,
        0 <= lo < u128_bound(),
        wide_value(hi, lo) == a * b,
    ensures
        hi < d ==> a * b / d < u128_bound(),
        hi >= d ==> a * b / d >= u128_bound(),
{
    let bnd = u128_bound();
    if hi < d {
        assert(a * b <= d * bnd - 1) by (nonlinear_arith)
            requires
                a * b == hi * bnd + lo,
                hi <= d - 1,
                lo < bnd,
                bnd == u128_bound(),
        ;
        assert((d * bnd - 1) / d == bnd - 1) by {
            lemma_fundamental_div_mod_converse_div(d * bnd - 1, d, bnd - 1, d - 1);
            assert((bnd - 1) * d + (d - 1) == d * bnd - 1) by (nonlinear_arith);
        }
        vstd::arithmetic::div_mod::lemma_div_is_ordered(a * b, d * bnd - 1, d);
    } else {
        assert(a * b >= d * bnd) by (nonlinear_arith)
            requires
                a * b == hi * bnd + lo,
                hi >= d,
                lo >= 0,
                bnd == u128_bound(),
        ;
        assert(d * bnd / d == bnd) by {
            lemma_fundamental_div_mod_converse_div(d * bnd, d, bnd, 0);
            assert(bnd * d + 0 == d * bnd) by (nonlinear_arith);
        }
        vstd::arithmetic::div_mod::lemma_div_is_ordered(d * bnd, a * b, d);
    }
}

} // verus!
