//! Signed fixed-point values.
//!
//! The invariant solver's Newton iteration moves through negative
//! intermediate values, so it works on a sign-and-magnitude pair around
//! [`Dec`]. Quotients and products round toward zero.

use vstd::prelude::*;
use crate::dec::{Dec, ONE};
use crate::error::PoolError;
use crate::wide::mul_div_floor;

verus! {

/// Division rounded toward zero, for a positive divisor.
pub open spec fn tz(n: int, d: int) -> int {
    if n >= 0 {
        n / d
    } else {
        -((-n) / d)
    }
}

/// Division rounded toward zero, for a signed non-zero divisor.
pub open spec fn tzdiv(n: int, d: int) -> int {
    if d > 0 {
        tz(n, d)
    } else {
        tz(-n, -d)
    }
}

/// The magnitudes of two signed values multiply to the magnitude of their
/// product.
proof fn lemma_abs_mul(a: int, b: int)
    by (nonlinear_arith)
    ensures
        (if a >= 0 {
            a
        } else {
            -a
        }) * (if b >= 0 {
            b
        } else {
            -b
        }) == if a * b >= 0 {
            a * b
        } else {
            -(a * b)
        },
        (a * b > 0) <==> ((a > 0 && b > 0) || (a < 0 && b < 0)),
        (a * b == 0) <==> (a == 0 || b == 0),
{
}

/// A signed decimal: a magnitude and a sign bit. A zero magnitude may carry
/// either sign; the signed value is what the contracts speak of.
#[derive(Clone, Copy, Debug, PartialEq, Eq, Structural)]
pub struct SDec {
    pub val: Dec,
    pub neg: bool,
}

impl SDec {
    /// The signed value, in atomic units.
    pub open spec fn sval(self) -> int {
        if self.neg {
            -(self.val.atomics as int)
        } else {
            self.val.atomics as int
        }
    }

    pub fn from_dec(d: Dec) -> (r: SDec)
        ensures
            r.sval() == d.atomics,
            r.val == d,
            !r.neg,
    {
        SDec { val: d, neg: false }
    }

    pub fn negated(self) -> (r: SDec)
        ensures
            r.sval() == -self.sval(),
            r.val == self.val,
    {
        SDec { val: self.val, neg: !self.neg }
    }

    /// The magnitude as a plain decimal when the value is non-negative.
    pub fn to_dec(self) -> (r: Option<Dec>)
        ensures
            self.sval() >= 0 ==> r == Some(self.val),
            self.sval() < 0 ==> r is None,
    {
        if !self.neg || self.val.atomics == 0 {
            Some(self.val)
        } else {
            None
        }
    }

    pub fn checked_add(self, rhs: SDec) -> (r: Result<SDec, PoolError>)
        ensures
            match r {
                Ok(q) => q.sval() == self.sval() + rhs.sval(),
                Err(e) => e == PoolError::ArithmeticOverflow && (self.sval() + rhs.sval()
                    > u128::MAX || self.sval() + rhs.sval() < -(u128::MAX as int)),
            },
    {
        if self.neg == rhs.neg {
            match self.val.checked_add(rhs.val) {
                Ok(v) => Ok(SDec { val: v, neg: self.neg }),
                Err(e) => Err(e),
            }
        } else if rhs.val.atomics < self.val.atomics {
            Ok(SDec { val: Dec::raw(self.val.atomics - rhs.val.atomics), neg: self.neg })
        } else {
            Ok(SDec { val: Dec::raw(rhs.val.atomics - self.val.atomics), neg: rhs.neg })
        }
    }

    pub fn checked_sub(self, rhs: SDec) -> (r: Result<SDec, PoolError>)
        ensures
            match r {
                Ok(q) => q.sval() == self.sval() - rhs.sval(),
                Err(e) => e == PoolError::ArithmeticOverflow && (self.sval() - rhs.sval()
                    > u128::MAX || self.sval() - rhs.sval() < -(u128::MAX as int)),
            },
    {
        self.checked_add(rhs.negated())
    }

    /// Product rounded toward zero: the magnitudes multiply and the signs
    /// combine.
    pub fn checked_mul(self, rhs: SDec) -> (r: Result<SDec, PoolError>)
        ensures
            match r {
                Ok(q) => q.sval() == tz(self.sval() * rhs.sval(), ONE as int),
                Err(e) => e == PoolError::ArithmeticOverflow && (tz(
                    self.sval() * rhs.sval(),
                    ONE as int,
                ) > u128::MAX || tz(self.sval() * rhs.sval(), ONE as int) < -(u128::MAX as int)),
            },
    {
        proof {
            lemma_abs_mul(self.sval(), rhs.sval());
        }
        match self.val.checked_mul(rhs.val) {
            Ok(v) => Ok(SDec { val: v, neg: self.neg != rhs.neg }),
            Err(e) => Err(e),
        }
    }

    /// Quotient rounded toward zero.
    pub fn checked_div(self, rhs: SDec) -> (r: Result<SDec, PoolError>)
        requires
            rhs.val.atomics > 0,
        ensures
            match r {
                Ok(q) => q.sval() == tzdiv(self.sval() * (ONE as int), rhs.sval()),
                Err(e) => e == PoolError::ArithmeticOverflow && (tzdiv(
                    self.sval() * (ONE as int),
                    rhs.sval(),
                ) > u128::MAX || tzdiv(self.sval() * (ONE as int), rhs.sval()) < -(
                u128::MAX as int)),
            },
    {
        match self.val.checked_div(rhs.val) {
            Ok(v) => Ok(SDec { val: v, neg: self.neg != rhs.neg }),
            Err(e) => Err(e),
        }
    }

    /// Fused `self * num / denom` with a single rounding toward zero.
    pub fn checked_mul_div(self, num: SDec, denom: SDec) -> (r: Result<SDec, PoolError>)
        requires
            denom.val.atomics > 0,
        ensures
            match r {
                Ok(q) => q.sval() == tzdiv(self.sval() * num.sval(), denom.sval()),
                Err(e) => e == PoolError::ArithmeticOverflow && (tzdiv(
                    self.sval() * num.sval(),
                    denom.sval(),
                ) > u128::MAX || tzdiv(self.sval() * num.sval(), denom.sval()) < -(
                u128::MAX as int)),
            },
    {
        proof {
            lemma_abs_mul(self.sval(), num.sval());
        }
        match mul_div_floor(self.val.atomics, num.val.atomics, denom.val.atomics) {
            Some(v) => Ok(
                SDec { val: Dec::raw(v), neg: (self.neg != num.neg) != denom.neg },
            ),
            None => Err(PoolError::ArithmeticOverflow),
        }
    }

    /// Absolute difference of the signed values. With opposite signs the
    /// magnitudes add, so the difference itself can overflow.
    pub fn checked_diff(self, rhs: SDec) -> (r: Result<Dec, PoolError>)
        ensures
            match r {
                Ok(q) => q.atomics == if self.sval() >= rhs.sval() {
                    self.sval() - rhs.sval()
                } else {
                    rhs.sval() - self.sval()
                },
                Err(e) => e == PoolError::ArithmeticOverflow && (self.sval() - rhs.sval()
                    > u128::MAX || rhs.sval() - self.sval() > u128::MAX),
            },
    {
        if self.neg == rhs.neg {
            Ok(self.val.abs_diff(rhs.val))
        } else {
            self.val.checked_add(rhs.val)
        }
    }
}

} // verus!
