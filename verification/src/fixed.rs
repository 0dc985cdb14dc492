//! An 18-decimal fixed-point number backed by a `u128`.
//!
//! A value represents the real number `raw / 10^18`. Multiplication and
//! division truncate toward zero at the fixed scale, exactly as integer
//! arithmetic does; no rounding ever happens. Operations that could leave the
//! representable range return `None` instead of panicking.

use vstd::prelude::*;
use vstd::string::StringExecFns;
use crate::wide::{mul_div, u128_bound, WORD};

verus! {

/// The number of atomic units in 1: 10^18.
pub const SCALE: u128 = 1_000_000_000_000_000_000;

/// A non-negative fixed-point decimal with 18 fractional digits.
#[derive(Clone, Copy, Debug, PartialEq, Eq, Structural)]
pub struct FixedDecimal {
    /// The value scaled by 10^18.
    pub raw: u128,
}

impl View for FixedDecimal {
    type V = int;

    open spec fn view(&self) -> int {
        self.raw as int
    }
}

/// The truncated fixed-point product: `floor(a * b / 10^18)`.
pub open spec fn fmul(a: int, b: int) -> int {
    (a * b) / (SCALE as int)
}

/// The truncated fixed-point quotient: `floor(a * 10^18 / b)`.
pub open spec fn fdiv(a: int, b: int) -> int {
    (a * SCALE) / b
}

impl FixedDecimal {
    /// The value 0.
    pub fn zero() -> (r: Self)
        ensures
            r@ == 0,
    {
        FixedDecimal { raw: 0 }
    }

    /// The value 1.
    pub fn one() -> (r: Self)
        ensures
            r@ == SCALE,
    {
        FixedDecimal { raw: SCALE }
    }

    /// A value from its raw 10^18-scaled representation.
    pub fn from_raw(raw: u128) -> (r: Self)
        ensures
            r@ == raw,
    {
        FixedDecimal { raw }
    }

    /// Whether the value is exactly 0.
    pub fn is_zero(&self) -> (r: bool)
        ensures
            r <==> self@ == 0,
    {
        self.raw == 0
    }

    /// The truncated ratio `numerator / denominator` as a fixed-point value.
    pub fn from_ratio(numerator: u128, denominator: u128) -> (r: Self)
        requires
            0 < denominator < WORD,
            fdiv(numerator as int, denominator as int) < u128_bound(),
        ensures
            r@ == fdiv(numerator as int, denominator as int),
    {
        match mul_div(numerator, SCALE, denominator) {
            Some(raw) => FixedDecimal { raw },
            None => {
                proof {
                    assert(false);
                }
                FixedDecimal { raw: 0 }
            },
        }
    }

    /// The sum, or `None` on overflow.
    pub fn checked_add(self, other: Self) -> (r: Option<Self>)
        ensures
            match r {
                Some(v) => v@ == self@ + other@,
                None => self@ + other@ >= u128_bound(),
            },
    {
        if self.raw <= u128::MAX - other.raw {
            Some(FixedDecimal { raw: self.raw + other.raw })
        } else {
            None
        }
    }

    /// The difference, or `None` when the subtrahend is larger.
    pub fn checked_sub(self, other: Self) -> (r: Option<Self>)
        ensures
            match r {
                Some(v) => v@ == self@ - other@,
                None => self@ < other@,
            },
    {
        if self.raw >= other.raw {
            Some(FixedDecimal { raw: self.raw - other.raw })
        } else {
            None
        }
    }

    /// The truncated product, or `None` on overflow.
    pub fn checked_mul(self, other: Self) -> (r: Option<Self>)
        ensures
            match r {
                Some(v) => v@ == fmul(self@, other@),
                None => fmul(self@, other@) >= u128_bound(),
            },
    {
        match mul_div(self.raw, other.raw, SCALE) {
            Some(raw) => Some(FixedDecimal { raw }),
            None => None,
        }
    }

    /// The truncated quotient, or `None` when the divisor is zero, the
    /// divisor is at or above 2^64 (beyond this library's operating range),
    /// or the quotient overflows.
    pub fn checked_div(self, other: Self) -> (r: Option<Self>)
        ensures
            match r {
                Some(v) => 0 < other@ < WORD && v@ == fdiv(self@, other@),
                None => other@ == 0 || other@ >= WORD || fdiv(self@, other@)
                    >= u128_bound(),
            },
    {
        match mul_div(self.raw, SCALE, other.raw) {
            Some(raw) => Some(FixedDecimal { raw }),
            None => None,
        }
    }

    /// The largest whole value at or below `self`.
    pub fn floor(self) -> (r: Self)
        ensures
            r@ == (self@ / SCALE as int) * SCALE,
    {
        proof {
            vstd::arithmetic::div_mod::lemma_fundamental_div_mod(
                self.raw as int,
                SCALE as int,
            );
        }
        FixedDecimal { raw: (self.raw / SCALE) * SCALE }
    }

    /// The decimal rendering: the whole part, then, when the fraction is not
    /// zero, a point and the 18 fractional digits with trailing zeros removed.
    #[verifier::loop_isolation(false)]
    pub fn to_string_repr(&self) -> (r: String)
        ensures
            r@.len() >= 1,
    {
        let whole = self.raw / SCALE;
        let frac = self.raw % SCALE;
        let mut s = digits_of(whole);
        if frac != 0 {
            s = s.concat(".");
            let mut ds: Vec<u8> = Vec::new();
            let mut f = frac;
            let mut i: usize = 0;
            while i < 18
                invariant
                    ds.len() == i,
                    i <= 18,
                decreases 18 - i,
            {
                ds.push((f % 10) as u8);
                f = f / 10;
                i = i + 1;
            }
            let mut low: usize = 0;
            while low < 18 && ds[low] == 0
                invariant
                    low <= 18,
                    ds.len() == 18,
                decreases 18 - low,
            {
                low = low + 1;
            }
            let mut hi: usize = 18;
            while hi > low
                invariant
                    low <= hi <= 18,
                    ds.len() == 18,
                    s@.len() >= 1,
                decreases hi,
            {
                s = push_digit(s, ds[hi - 1 as usize]);
                hi = hi - 1;
            }
        }
        s
    }
}

/// Multiplies an integer amount by a fixed-point rate, truncating:
/// `floor(amount * rate / 10^18)`. `None` on overflow.
pub fn amount_times_rate(amount: u128, rate: FixedDecimal) -> (r: Option<u128>)
    ensures
        match r {
            Some(v) => v == fmul(amount as int, rate@),
            None => fmul(amount as int, rate@) >= u128_bound(),
        },
{
    mul_div(amount, rate.raw, SCALE)
}

/// Divides an integer amount by a fixed-point rate, truncating:
/// `floor(amount * 10^18 / rate)`. `None` when the rate is zero, at or above
/// 2^64, or the quotient overflows.
pub fn amount_over_rate(amount: u128, rate: FixedDecimal) -> (r: Option<u128>)
    ensures
        match r {
            Some(v) => 0 < rate@ < WORD && v == fdiv(amount as int, rate@),
            None => rate@ == 0 || rate@ >= WORD || fdiv(amount as int, rate@)
                >= u128_bound(),
        },
{
    mul_div(amount, SCALE, rate.raw)
}

/// The decimal digits of a whole number, most significant first.
#[verifier::loop_isolation(false)]
fn digits_of(v: u128) -> (r: String)
    ensures
        r@.len() >= 1,
{
    if v == 0 {
        proof {
            reveal_strlit("0");
        }
        return String::from_str("0");
    }
    let mut ds: Vec<u8> = Vec::new();
    let mut x = v;
    while x > 0
        invariant
            x <= v,
            ds.len() > 0 || x == v,
        decreases x,
    {
        ds.push((x % 10) as u8);
        x = x / 10;
    }
    let mut s = String::new();
    let mut i: usize = ds.len();
    while i > 0
        invariant
            i <= ds.len(),
            s@.len() == ds.len() - i,
        decreases i,
    {
        s = push_digit(s, ds[i - 1 as usize]);
        i = i - 1;
    }
    s
}

/// The string with one more decimal digit appended.
fn push_digit(s: String, d: u8) -> (r: String)
    ensures
        r@.len() == s@.len() + 1,
{
    proof {
        reveal_strlit("0");
        reveal_strlit("1");
        reveal_strlit("2");
        reveal_strlit("3");
        reveal_strlit("4");
        reveal_strlit("5");
        reveal_strlit("6");
        reveal_strlit("7");
        reveal_strlit("8");
        reveal_strlit("9");
    }
    match d {
        0 => s.concat("0"),
        1 => s.concat("1"),
        2 => s.concat("2"),
        3 => s.concat("3"),
        4 => s.concat("4"),
        5 => s.concat("5"),
        6 => s.concat("6"),
        7 => s.concat("7"),
        8 => s.concat("8"),
        _ => s.concat("9"),
    }
}

} // verus!
