//! Fixed-point decimal layer.
//!
//! An amount is a non-negative rational held as an integer count of
//! atomic units, 10^18 of which make 1.0. Every operation either states in
//! its contract that it cannot overflow or reports `ArithmeticOverflow`;
//! nothing wraps. Quotients round toward zero.

use vstd::prelude::*;
use vstd::arithmetic::div_mod::lemma_div_multiples_vanish;
use vstd::arithmetic::mul::lemma_mul_is_commutative;
use crate::error::PoolError;
use crate::wide::{mul_div_floor, mul_wide, isqrt_wide, wide_val};

verus! {

/// Count of atomic units in 1.0: the layer works at 18 fractional digits.
pub const ONE: u128 = 1_000_000_000_000_000_000;

/// Highest decimal precision an asset may declare; raw amounts convert to
/// the internal representation by scaling up to 18 fractional digits.
pub const MAX_PRECISION: u8 = 18;

/// 10^e.
pub open spec fn spec_pow10(e: nat) -> int
    decreases e,
{
    if e == 0 {
        1
    } else {
        10 * spec_pow10((e - 1) as nat)
    }
}

pub proof fn lemma_pow10_pos(e: nat)
    ensures
        spec_pow10(e) >= 1,
    decreases e,
{
    if e > 0 {
        lemma_pow10_pos((e - 1) as nat);
    }
}

/// 10^e as an executable value.
pub fn pow10(e: u8) -> (r: u128)
    requires
        e <= 18,
    ensures
        r == spec_pow10(e as nat),
        r >= 1,
{
    proof {
        reveal_with_fuel(spec_pow10, 20);
    }
    let mut acc: u128 = 1;
    let mut i: u8 = 0;
    while i < e
        invariant
            i <= e <= 18,
            acc == spec_pow10(i as nat),
            acc <= spec_pow10(e as nat),
        decreases e - i,
    {
        proof {
            reveal_with_fuel(spec_pow10, 20);
            lemma_pow10_pos(i as nat);
            lemma_pow10_le(i as nat + 1, e as nat);
            lemma_pow10_le(e as nat, 18);
            assert(spec_pow10(18) == 1_000_000_000_000_000_000);
            assert(acc * 10 == spec_pow10(i as nat + 1));
        }
        acc = acc * 10;
        i = i + 1;
    }
    proof {
        lemma_pow10_pos(e as nat);
    }
    acc
}

pub proof fn lemma_pow10_le(a: nat, b: nat)
    requires
        a <= b,
    ensures
        spec_pow10(a) <= spec_pow10(b),
    decreases b,
{
    if a < b {
        lemma_pow10_le(a, (b - 1) as nat);
        lemma_pow10_pos((b - 1) as nat);
    }
}

/// A fixed-point decimal amount: `atomics` counts units of 10^-18.
#[derive(Clone, Copy, Debug, PartialEq, Eq, Structural)]
pub struct Dec {
    pub atomics: u128,
}

/// Floor of the product of two decimal values, in atomics.
pub open spec fn mul_val(a: int, b: int) -> int {
    a * b / (ONE as int)
}

/// Floor of the quotient of two decimal values, in atomics.
pub open spec fn div_val(a: int, b: int) -> int {
    a * (ONE as int) / b
}

impl Dec {
    pub fn zero() -> (r: Dec)
        ensures
            r.atomics == 0,
    {
        Dec { atomics: 0 }
    }

    pub fn one() -> (r: Dec)
        ensures
            r.atomics == ONE,
    {
        Dec { atomics: ONE }
    }

    /// The amount holding exactly the given count of atomic units.
    pub fn raw(atomics: u128) -> (r: Dec)
        ensures
            r.atomics == atomics,
    {
        Dec { atomics }
    }

    pub fn is_zero(&self) -> (r: bool)
        ensures
            r == (self.atomics == 0),
    {
        self.atomics == 0
    }

    pub fn max(self, other: Dec) -> (r: Dec)
        ensures
            r.atomics == if self.atomics >= other.atomics {
                self.atomics
            } else {
                other.atomics
            },
    {
        if self.atomics >= other.atomics {
            self
        } else {
            other
        }
    }

    pub fn checked_add(self, other: Dec) -> (r: Result<Dec, PoolError>)
        ensures
            match r {
                Ok(q) => q.atomics == self.atomics + other.atomics,
                Err(e) => e == PoolError::ArithmeticOverflow && self.atomics + other.atomics
                    > u128::MAX,
            },
    {
        match self.atomics.checked_add(other.atomics) {
            Some(a) => Ok(Dec { atomics: a }),
            None => Err(PoolError::ArithmeticOverflow),
        }
    }

    /// Subtraction that fails on underflow, as reserve accounting demands.
    pub fn checked_sub(self, other: Dec) -> (r: Result<Dec, PoolError>)
        ensures
            match r {
                Ok(q) => q.atomics == self.atomics - other.atomics && other.atomics
                    <= self.atomics,
                Err(e) => e == PoolError::ArithmeticOverflow && other.atomics > self.atomics,
            },
    {
        if other.atomics <= self.atomics {
            Ok(Dec { atomics: self.atomics - other.atomics })
        } else {
            Err(PoolError::ArithmeticOverflow)
        }
    }

    /// Subtraction that clamps to zero where a depletion would underflow.
    pub fn saturating_sub(self, other: Dec) -> (r: Dec)
        ensures
            r.atomics == if other.atomics <= self.atomics {
                self.atomics - other.atomics
            } else {
                0
            },
    {
        if other.atomics <= self.atomics {
            Dec { atomics: self.atomics - other.atomics }
        } else {
            Dec { atomics: 0 }
        }
    }

    /// Absolute difference; never overflows.
    pub fn abs_diff(self, other: Dec) -> (r: Dec)
        ensures
            r.atomics == if self.atomics >= other.atomics {
                self.atomics - other.atomics
            } else {
                other.atomics - self.atomics
            },
    {
        if self.atomics >= other.atomics {
            Dec { atomics: self.atomics - other.atomics }
        } else {
            Dec { atomics: other.atomics - self.atomics }
        }
    }

    pub fn checked_mul(self, other: Dec) -> (r: Result<Dec, PoolError>)
        ensures
            match r {
                Ok(q) => q.atomics == mul_val(self.atomics as int, other.atomics as int),
                Err(e) => e == PoolError::ArithmeticOverflow && mul_val(
                    self.atomics as int,
                    other.atomics as int,
                ) > u128::MAX,
            },
    {
        match mul_div_floor(self.atomics, other.atomics, ONE) {
            Some(a) => Ok(Dec { atomics: a }),
            None => Err(PoolError::ArithmeticOverflow),
        }
    }

    pub fn checked_div(self, other: Dec) -> (r: Result<Dec, PoolError>)
        requires
            other.atomics > 0,
        ensures
            match r {
                Ok(q) => q.atomics == div_val(self.atomics as int, other.atomics as int),
                Err(e) => e == PoolError::ArithmeticOverflow && div_val(
                    self.atomics as int,
                    other.atomics as int,
                ) > u128::MAX,
            },
    {
        match mul_div_floor(self.atomics, ONE, other.atomics) {
            Some(a) => Ok(Dec { atomics: a }),
            None => Err(PoolError::ArithmeticOverflow),
        }
    }

    /// Fused `self * num / denom` with a single rounding step. The identity
    /// `(a/E) * (b/E) / (c/E) == (a*b/c) / E` over atomic counts makes this
    /// exact up to one final floor.
    pub fn checked_mul_div(self, num: Dec, denom: Dec) -> (r: Result<Dec, PoolError>)
        requires
            denom.atomics > 0,
        ensures
            match r {
                Ok(q) => q.atomics == self.atomics as int * num.atomics as int
                    / denom.atomics as int,
                Err(e) => e == PoolError::ArithmeticOverflow && self.atomics as int
                    * num.atomics as int / denom.atomics as int > u128::MAX,
            },
    {
        match mul_div_floor(self.atomics, num.atomics, denom.atomics) {
            Some(a) => Ok(Dec { atomics: a }),
            None => Err(PoolError::ArithmeticOverflow),
        }
    }

    /// The decimal value of the integer ratio `numerator / denominator`.
    pub fn from_ratio(numerator: u128, denominator: u128) -> (r: Result<Dec, PoolError>)
        requires
            denominator > 0,
        ensures
            match r {
                Ok(q) => q.atomics == numerator as int * ONE / denominator as int,
                Err(e) => e == PoolError::ArithmeticOverflow && numerator as int * ONE
                    / denominator as int > u128::MAX,
            },
    {
        match mul_div_floor(numerator, ONE, denominator) {
            Some(a) => Ok(Dec { atomics: a }),
            None => Err(PoolError::ArithmeticOverflow),
        }
    }

    /// Converts a raw integer amount held at the given decimal precision to
    /// the internal representation.
    pub fn with_precision(amount: u128, precision: u8) -> (r: Result<Dec, PoolError>)
        requires
            precision <= MAX_PRECISION,
        ensures
            match r {
                Ok(q) => q.atomics == amount * spec_pow10((18 - precision) as nat),
                Err(e) => e == PoolError::ArithmeticOverflow && amount * spec_pow10(
                    (18 - precision) as nat,
                ) > u128::MAX,
            },
    {
        let factor: u128 = pow10(18 - precision);
        match amount.checked_mul(factor) {
            Some(a) => Ok(Dec { atomics: a }),
            None => Err(PoolError::ArithmeticOverflow),
        }
    }

    /// Converts back to a raw integer amount at the given precision,
    /// truncating toward zero.
    pub fn to_uint(self, precision: u8) -> (r: u128)
        requires
            precision <= MAX_PRECISION,
        ensures
            r == self.atomics as int / spec_pow10((18 - precision) as nat),
    {
        let factor: u128 = pow10(18 - precision);
        self.atomics / factor
    }

    /// Largest whole multiple of 1.0 not above the value.
    pub fn floor(self) -> (r: Dec)
        ensures
            r.atomics == (self.atomics / ONE) * ONE,
    {
        Dec { atomics: (self.atomics / ONE) * ONE }
    }

    /// The whole part of the value as a plain integer.
    pub fn whole(self) -> (r: u128)
        ensures
            r == self.atomics / ONE,
    {
        self.atomics / ONE
    }

    /// Square root at full internal precision: the largest decimal whose
    /// square does not exceed the value.
    pub fn sqrt(self) -> (r: Dec)
        ensures
            r.atomics as int * r.atomics as int <= self.atomics as int * ONE,
            (r.atomics as int + 1) * (r.atomics as int + 1) > self.atomics as int * ONE,
            r.atomics == sqrt_atomics(self.atomics as int),
    {
        let (h, l) = mul_wide(self.atomics, ONE);
        proof {
            assert(h < 0x4000_0000_0000_0000_0000_0000_0000_0000) by (nonlinear_arith)
                requires
                    h as int * 0x1_0000_0000_0000_0000_0000_0000_0000_0000int + l as int
                        == self.atomics as int * ONE,
                    self.atomics <= 0xffff_ffff_ffff_ffff_ffff_ffff_ffff_ffff,
                    l >= 0,
                    ONE == 1_000_000_000_000_000_000,
            ;
        }
        let rr: u128 = isqrt_wide(h, l);
        proof {
            assert(rr >= 0 && rr as int * rr as int <= self.atomics as int * (ONE as int) && (
            rr as int + 1) * (rr as int + 1) > self.atomics as int * (ONE as int));
            assert(exists|r: int|
                r >= 0 && #[trigger] (r * r) <= self.atomics as int * (ONE as int) && (r + 1) * (r
                    + 1) > self.atomics as int * (ONE as int)) by {
                assert(rr as int * rr as int <= self.atomics as int * (ONE as int));
            }
            lemma_sqrt_unique(self.atomics as int, rr as int, sqrt_atomics(self.atomics as int));
        }
        Dec { atomics: rr }
    }
}

/// The product of two non-negative values is non-negative.
pub proof fn lemma_nonneg_mul(a: int, b: int)
    by (nonlinear_arith)
    requires
        a >= 0,
        b >= 0,
    ensures
        a * b >= 0,
{
}

/// The square root of a decimal value, in atomic units: the unique
/// non-negative `r` with `r * r <= v * ONE < (r + 1) * (r + 1)`.
pub open spec fn sqrt_atomics(v: int) -> int {
    choose|r: int|
        r >= 0 && #[trigger] (r * r) <= v * (ONE as int) && (r + 1) * (r + 1) > v * (ONE as int)
}

/// Two values both satisfying the square-root bounds are equal.
pub proof fn lemma_sqrt_unique(v: int, r1: int, r2: int)
    by (nonlinear_arith)
    requires
        v >= 0,
        r1 >= 0,
        r2 >= 0,
        r1 * r1 <= v * ONE,
        (r1 + 1) * (r1 + 1) > v * ONE,
        r2 * r2 <= v * ONE,
        (r2 + 1) * (r2 + 1) > v * ONE,
    ensures
        r1 == r2,
{
}

/// Converting a raw amount to the internal representation and back at the
/// same precision returns the amount unchanged whenever the conversion
/// itself succeeds.
pub proof fn lemma_round_trip_precision(amount: u128, precision: u8)
    requires
        precision <= MAX_PRECISION,
    ensures
        (amount * spec_pow10((18 - precision) as nat)) / spec_pow10((18 - precision) as nat)
            == amount,
{
    let p: int = spec_pow10((18 - precision) as nat);
    lemma_pow10_pos((18 - precision) as nat);
    lemma_mul_is_commutative(amount as int, p);
    lemma_div_multiples_vanish(amount as int, p);
}

} // verus!
