//! Pool parameters: amplification, gamma, and the fee curve.
//!
//! `AmpGamma` holds the two curve parameters; `PoolParams` holds the fee
//! shape and the repeg thresholds. Both validate their fields against fixed
//! ranges on construction and update.

use vstd::prelude::*;
use vstd::arithmetic::div_mod::{
    lemma_fundamental_div_mod, lemma_div_multiples_vanish, lemma_div_multiples_vanish_quotient,
    lemma_div_is_ordered, lemma_div_is_ordered_by_denominator,
};
use crate::dec::{Dec, ONE};
use crate::error::PoolError;

verus! {

/// Lowest permitted fee (0.005%), in atomics.
pub const MIN_FEE: u128 = 50_000_000_000_000;

/// Highest permitted fee (1%), in atomics.
pub const MAX_FEE: u128 = 10_000_000_000_000_000;

/// Highest permitted fee gamma (1.0), in atomics; the lowest is zero.
pub const FEE_GAMMA_MAX: u128 = 1_000_000_000_000_000_000;

/// Highest permitted repeg profit threshold (0.01), in atomics.
pub const REPEG_PROFIT_THRESHOLD_MAX: u128 = 10_000_000_000_000_000;

/// Highest permitted minimum price-scale delta (1.0), in atomics.
pub const PRICE_SCALE_DELTA_MAX: u128 = 1_000_000_000_000_000_000;

/// Bounds on the oracle half-life, in seconds.
pub const MA_HALF_TIME_MIN: u64 = 1;

pub const MA_HALF_TIME_MAX: u64 = 604_800;

/// Bounds on the amplification (0.1 to 100000), in atomics.
pub const AMP_MIN: u128 = 100_000_000_000_000_000;

pub const AMP_MAX: u128 = 100_000_000_000_000_000_000_000;

/// Bounds on gamma (0.00000001 to 0.02), in atomics.
pub const GAMMA_MIN: u128 = 10_000_000_000;

pub const GAMMA_MAX: u128 = 20_000_000_000_000_000;

/// Fee-curve coefficients at most this size count as zero (0.001).
pub const FEE_TOL: u128 = 1_000_000_000_000_000;

/// Amplification and gamma of the curve.
#[derive(Clone, Copy, Debug, PartialEq, Eq, Structural)]
pub struct AmpGamma {
    pub amp: Dec,
    pub gamma: Dec,
}

impl AmpGamma {
    /// Both parameters lie inside their permitted ranges.
    pub open spec fn wf(self) -> bool {
        AMP_MIN <= self.amp.atomics <= AMP_MAX && GAMMA_MIN <= self.gamma.atomics <= GAMMA_MAX
    }

    /// Validates the parameters and builds the pair; rejects a value
    /// outside its range.
    pub fn new(amp: Dec, gamma: Dec) -> (r: Result<AmpGamma, PoolError>)
        ensures
            match r {
                Ok(v) => v == (AmpGamma { amp, gamma }) && v.wf(),
                Err(e) => e == PoolError::IncorrectPoolParam && !(AmpGamma { amp, gamma }).wf(),
            },
    {
        if amp.atomics < AMP_MIN || amp.atomics > AMP_MAX {
            return Err(PoolError::IncorrectPoolParam);
        }
        if gamma.atomics < GAMMA_MIN || gamma.atomics > GAMMA_MAX {
            return Err(PoolError::IncorrectPoolParam);
        }
        Ok(AmpGamma { amp, gamma })
    }
}

/// Requested updates to the adjustable pool parameters; a field left `None`
/// keeps its value.
#[derive(Clone, Copy, Debug, PartialEq, Eq, Structural)]
pub struct UpdatePoolParams {
    pub mid_fee: Option<Dec>,
    pub out_fee: Option<Dec>,
    pub fee_gamma: Option<Dec>,
    pub repeg_profit_threshold: Option<Dec>,
    pub min_price_scale_delta: Option<Dec>,
    pub ma_half_time: Option<u64>,
}

/// The adjustable pool parameters: fee curve shape and repeg thresholds.
#[derive(Clone, Copy, Debug, PartialEq, Eq, Structural)]
pub struct PoolParams {
    /// Fee charged when the pool is fully balanced.
    pub mid_fee: Dec,
    /// Fee charged when the pool is heavily imbalanced.
    pub out_fee: Dec,
    /// How gradually the fee moves from `mid_fee` to `out_fee` with
    /// distance from balance.
    pub fee_gamma: Dec,
    /// Minimum accumulated profit before a repeg.
    pub repeg_profit_threshold: Dec,
    /// Minimum relative drift of the price scale before a repeg.
    pub min_price_scale_delta: Dec,
    /// Half-life of the oracle price decay, in seconds.
    pub ma_half_time: u64,
}

/// The updated parameter set, field by field, before validation.
pub open spec fn apply_updates(p: PoolParams, up: UpdatePoolParams) -> PoolParams {
    PoolParams {
        mid_fee: if up.mid_fee is Some {
            up.mid_fee->0
        } else {
            p.mid_fee
        },
        out_fee: if up.out_fee is Some {
            up.out_fee->0
        } else {
            p.out_fee
        },
        fee_gamma: if up.fee_gamma is Some {
            up.fee_gamma->0
        } else {
            p.fee_gamma
        },
        repeg_profit_threshold: if up.repeg_profit_threshold is Some {
            up.repeg_profit_threshold->0
        } else {
            p.repeg_profit_threshold
        },
        min_price_scale_delta: if up.min_price_scale_delta is Some {
            up.min_price_scale_delta->0
        } else {
            p.min_price_scale_delta
        },
        ma_half_time: if up.ma_half_time is Some {
            up.ma_half_time->0
        } else {
            p.ma_half_time
        },
    }
}

impl PoolParams {
    /// Every adjustable field lies inside its permitted range, and the
    /// imbalanced fee exceeds the balanced fee.
    pub open spec fn wf(self) -> bool {
        &&& MIN_FEE <= self.mid_fee.atomics <= MAX_FEE
    &&& MIN_FEE <= self.out_fee.atomics <= MAX_FEE
    &&& self.out_fee.atomics > self.mid_fee.atomics
    &&& self.fee_gamma.atomics <= FEE_GAMMA_MAX
    &&& self.repeg_profit_threshold.atomics <= REPEG_PROFIT_THRESHOLD_MAX
    &&& self.min_price_scale_delta.atomics <= PRICE_SCALE_DELTA_MAX
    &&& MA_HALF_TIME_MIN <= self.ma_half_time <= MA_HALF_TIME_MAX
    }

    /// Applies the requested updates after validating each supplied value;
    /// the whole update is rejected if any value is out of range or the
    /// resulting fees are not ordered.
    pub fn update_params(&mut self, up: UpdatePoolParams) -> (r: Result<(), PoolError>)
        ensures
            match r {
                Ok(()) => *final(self) == apply_updates(*old(self), up) && final(self).wf(),
                Err(e) => e == PoolError::IncorrectPoolParam && *final(self) == *old(self) && !(
                apply_updates(*old(self), up)).wf(),
            },
    {
        let next = PoolParams {
            mid_fee: match up.mid_fee {
                Some(v) => v,
                None => self.mid_fee,
            },
            out_fee: match up.out_fee {
                Some(v) => v,
                None => self.out_fee,
            },
            fee_gamma: match up.fee_gamma {
                Some(v) => v,
                None => self.fee_gamma,
            },
            repeg_profit_threshold: match up.repeg_profit_threshold {
                Some(v) => v,
                None => self.repeg_profit_threshold,
            },
            min_price_scale_delta: match up.min_price_scale_delta {
                Some(v) => v,
                None => self.min_price_scale_delta,
            },
            ma_half_time: match up.ma_half_time {
                Some(v) => v,
                None => self.ma_half_time,
            },
        };
        if next.mid_fee.atomics < MIN_FEE || next.mid_fee.atomics > MAX_FEE {
            return Err(PoolError::IncorrectPoolParam);
        }
        if next.out_fee.atomics < MIN_FEE || next.out_fee.atomics > MAX_FEE {
            return Err(PoolError::IncorrectPoolParam);
        }
        if next.out_fee.atomics <= next.mid_fee.atomics {
            return Err(PoolError::IncorrectPoolParam);
        }
        if next.fee_gamma.atomics > FEE_GAMMA_MAX {
            return Err(PoolError::IncorrectPoolParam);
        }
        if next.repeg_profit_threshold.atomics > REPEG_PROFIT_THRESHOLD_MAX {
            return Err(PoolError::IncorrectPoolParam);
        }
        if next.min_price_scale_delta.atomics > PRICE_SCALE_DELTA_MAX {
            return Err(PoolError::IncorrectPoolParam);
        }
        if next.ma_half_time < MA_HALF_TIME_MIN || next.ma_half_time > MA_HALF_TIME_MAX {
            return Err(PoolError::IncorrectPoolParam);
        }
        *self = next;
        Ok(())
    }

    /// The fee rate for the scaled reserves `(xp0, xp1)`; exact mirror of
    /// [`fee_spec`].
    #[verifier::rlimit(100)]
    pub fn fee(&self, xp0: Dec, xp1: Dec) -> (r: Result<Dec, PoolError>)
        ensures
            match r {
                Ok(v) => fee_spec(
                    xp0.atomics as int,
                    xp1.atomics as int,
                    self.mid_fee.atomics as int,
                    self.out_fee.atomics as int,
                    self.fee_gamma.atomics as int,
                ) == Ok::<int, PoolError>(v.atomics as int),
                Err(e) => fee_spec(
                    xp0.atomics as int,
                    xp1.atomics as int,
                    self.mid_fee.atomics as int,
                    self.out_fee.atomics as int,
                    self.fee_gamma.atomics as int,
                ) == Err::<int, PoolError>(e),
            },
    {
        let one = Dec::one();
        let sum = xp0.checked_add(xp1)?;
        let mul = xp0.checked_mul(xp1)?;
        let p4 = mul.checked_mul(Dec::raw(4 * ONE))?;
        let sum2 = sum.checked_mul(sum)?;
        if sum2.atomics == 0 {
            return Err(PoolError::ArithmeticOverflow);
        }
        let k = p4.checked_div(sum2)?;
        let d1 = self.fee_gamma.checked_add(one)?;
        let d2 = d1.checked_sub(k)?;
        if d2.atomics == 0 {
            return Err(PoolError::ArithmeticOverflow);
        }
        let k2 = self.fee_gamma.checked_div(d2)?;
        let k3 = if k2.atomics <= FEE_TOL {
            Dec::zero()
        } else {
            k2
        };
        let r1 = k3.checked_mul(self.mid_fee)?;
        let im = one.checked_sub(k3)?;
        let r2 = im.checked_mul(self.out_fee)?;
        r1.checked_add(r2)
    }
}

/// A non-negative value only stands when it fits in 128 bits.
pub open spec fn ubnd(v: int) -> Result<int, PoolError> {
    if v > u128::MAX || v < 0 {
        Err(PoolError::ArithmeticOverflow)
    } else {
        Ok(v)
    }
}

/// The fee rate over atomic units, with the exact rounding of the
/// executable path: the balanced coefficient interpolates between the
/// balanced fee and the imbalanced fee. `Err` marks an overflowed
/// intermediate, reserves so small that their products underflow to zero,
/// or a coefficient pushed past its bound by rounding.
pub open spec fn fee_spec(xp0: int, xp1: int, mid: int, out: int, fg: int) -> Result<
    int,
    PoolError,
> {
    let one: int = ONE as int;
    match ubnd(xp0 + xp1) {
        Err(e) => Err(e),
        Ok(sum) => match ubnd(xp0 * xp1 / one) {
            Err(e) => Err(e),
            Ok(mul) => match ubnd(mul * (4 * one) / one) {
                Err(e) => Err(e),
                Ok(p4) => match ubnd(sum * sum / one) {
                    Err(e) => Err(e),
                    Ok(sum2) => if sum2 == 0 {
                        Err(PoolError::ArithmeticOverflow)
                    } else {
                        match ubnd(p4 * one / sum2) {
                            Err(e) => Err(e),
                            Ok(k) => match ubnd(fg + one) {
                                Err(e) => Err(e),
                                Ok(d1) => match ubnd(d1 - k) {
                                    Err(e) => Err(e),
                                    Ok(d2) => if d2 == 0 {
                                        Err(PoolError::ArithmeticOverflow)
                                    } else {
                                        fee_spec_tail(mid, out, fg, d2)
                                    },
                                },
                            },
                        }
                    },
                },
            },
        },
    }
}

/// The tail of [`fee_spec`]: the interpolation between the two fees.
pub open spec fn fee_spec_tail(mid: int, out: int, fg: int, d2: int) -> Result<int, PoolError> {
    let one: int = ONE as int;
    match ubnd(fg * one / d2) {
        Err(e) => Err(e),
        Ok(k2) => {
            let k3: int = if k2 <= FEE_TOL {
                0
            } else {
                k2
            };
            match ubnd(k3 * mid / one) {
                Err(e) => Err(e),
                Ok(r1) => match ubnd(one - k3) {
                    Err(e) => Err(e),
                    Ok(im) => match ubnd(im * out / one) {
                        Err(e) => Err(e),
                        Ok(r2) => ubnd(r1 + r2),
                    },
                },
            }
        },
    }
}


/// Fee monotonicity: with whole-unit reserves, the rate the fee curve
/// charges at a ten-to-one imbalance strictly exceeds the rate at perfect
/// balance, which is exactly the balanced fee. The strict step asks the
/// imbalanced fee to sit at least a few atomic units above the balanced
/// fee, since the two final floors can each lose one unit.
pub proof fn lemma_fee_monotonicity(n: int, mid: int, out: int, fg: int)
    requires
        1 <= n <= 1_000_000_000,
        MIN_FEE <= mid <= MAX_FEE,
        mid + 8 <= out <= MAX_FEE,
        1 <= fg <= FEE_GAMMA_MAX,
    ensures
        fee_spec(n * ONE, n * ONE, mid, out, fg) == Ok::<int, PoolError>(mid),
        fee_spec(10 * n * ONE, n * ONE, mid, out, fg) is Ok,
        fee_spec(10 * n * ONE, n * ONE, mid, out, fg)->Ok_0 > mid,
{
    let one: int = ONE as int;
    let x: int = n * one;
    let c: int = n * n * one;
    assert(n * n <= 1_000_000_000_000_000_000) by (nonlinear_arith)
        requires
            1 <= n <= 1_000_000_000,
    ;
    assert(n * n >= 1) by (nonlinear_arith)
        requires
            n >= 1,
    ;
    // the balanced evaluation collapses to the balanced fee
    assert(x * x == (c) * one) by (nonlinear_arith)
        requires
            x == n * one,
            c == n * n * one,
            one == ONE,
    ;
    lemma_div_multiples_vanish(c, one);
    assert((one * c) == (c * one)) by (nonlinear_arith);
    assert(x * x / one == c);
    let p4b: int = c * (4 * one);
    assert(c * (4 * one) == (4 * c) * one) by (nonlinear_arith);
    lemma_div_multiples_vanish(4 * c, one);
    assert((one * (4 * c)) == (4 * c) * one) by (nonlinear_arith);
    assert(c * (4 * one) / one == 4 * c);
    assert((x + x) * (x + x) == (4 * c) * one) by (nonlinear_arith)
        requires
            x == n * one,
            c == n * n * one,
            one == ONE,
    ;
    assert((x + x) * (x + x) / one == 4 * c);
    // the curve coefficient is exactly one at balance
    assert((4 * c) * one == (4 * c) * one);
    lemma_div_multiples_vanish(one, 4 * c);
    assert(((4 * c) * one) == ((4 * c) * one)) by (nonlinear_arith);
    assert((4 * c) * one / (4 * c) == one);
    // so the interpolation denominator is the fee gamma itself
    assert(fg + one - one == fg);
    lemma_div_multiples_vanish(one, fg);
    assert((fg * one) == (fg * one)) by (nonlinear_arith);
    assert(fg * one / fg == one);
    assert(one > FEE_TOL);
    lemma_div_multiples_vanish(mid, one);
    assert((one * mid) == (mid * one)) by (nonlinear_arith);
    assert(one * mid / one == mid);
    assert((one - one) * out == 0) by (nonlinear_arith);
    assert(0int / one == 0) by {
        lemma_div_multiples_vanish(0, one);
        assert(one * 0 == 0) by (nonlinear_arith);
    }
    assert(fee_spec(x, x, mid, out, fg) == Ok::<int, PoolError>(mid));
    // the imbalanced evaluation
    let y: int = 10 * x;
    assert(y * x == (10 * c) * one) by (nonlinear_arith)
        requires
            x == n * one,
            y == 10 * x,
            c == n * n * one,
            one == ONE,
    ;
    lemma_div_multiples_vanish(10 * c, one);
    assert((one * (10 * c)) == (10 * c) * one) by (nonlinear_arith);
    assert(y * x / one == 10 * c);
    assert((10 * c) * (4 * one) == (40 * c) * one) by (nonlinear_arith);
    lemma_div_multiples_vanish(40 * c, one);
    assert((one * (40 * c)) == (40 * c) * one) by (nonlinear_arith);
    assert((10 * c) * (4 * one) / one == 40 * c);
    assert((y + x) * (y + x) == (121 * c) * one) by (nonlinear_arith)
        requires
            x == n * one,
            y == 10 * x,
            c == n * n * one,
            one == ONE,
    ;
    lemma_div_multiples_vanish(121 * c, one);
    assert((one * (121 * c)) == (121 * c) * one) by (nonlinear_arith);
    assert((y + x) * (y + x) / one == 121 * c);
    assert(121 * c <= 0xffff_ffff_ffff_ffff_ffff_ffff_ffff_ffff) by (nonlinear_arith)
        requires
            c == n * n * one,
            n * n <= 1_000_000_000_000_000_000,
            one == ONE,
    ;
    assert(121 * c != 0);
    // the curve coefficient at ten-to-one: forty over one hundred
    // twenty-one
    let k: int = 40 * one / 121;
    assert((40 * c) * one == c * (40 * one)) by (nonlinear_arith);
    assert(121 * c == c * 121) by (nonlinear_arith);
    lemma_div_multiples_vanish_quotient(c, 40 * one, 121);
    assert((40 * c) * one / (121 * c) == k);
    assert(k == 330578512396694214);
    let b: int = one - k;
    assert(b == 669421487603305786);
    let d2: int = fg + one - k;
    assert(d2 == fg + b);
    assert(d2 != 0);
    // the interpolation coefficient stays well under one
    let k2: int = fg * one / d2;
    lemma_div_is_ordered_by_denominator(fg * one, fg, d2);
    lemma_div_multiples_vanish(one, fg);
    assert(fg * one == fg * one);
    assert(fg * one / fg == one);
    assert(k2 <= one);
    assert(k2 >= 0) by {
        vstd::arithmetic::div_mod::lemma_div_pos_is_pos(fg * one, d2);
        assert(fg * one >= 0) by (nonlinear_arith)
            requires
                fg >= 1,
                one == ONE,
        ;
    }
    // push the coefficient bound through the larger denominator
    lemma_fundamental_div_mod(fg * one, d2);
    vstd::arithmetic::div_mod::lemma_mod_division_less_than_divisor(fg * one, d2);
    assert(k2 * d2 <= fg * one) by (nonlinear_arith)
        requires
            fg * one == d2 * k2 + (fg * one) % d2,
            (fg * one) % d2 >= 0,
    ;
    assert(k2 * (one + b) <= one * one) by (nonlinear_arith)
        requires
            k2 * d2 <= fg * one,
            d2 == fg + b,
            0 <= k2 <= one,
            1 <= fg <= one,
            b > 0,
            one == ONE,
    ;
    lemma_div_multiples_vanish(k2, one + b);
    assert(((one + b) * k2) == k2 * (one + b)) by (nonlinear_arith);
    lemma_div_is_ordered(k2 * (one + b), one * one, one + b);
    assert(k2 <= one * one / (one + b));
    assert(one * one / (one + b) <= 600_000_000_000_000_000);
    assert(one - k2 >= 400_000_000_000_000_000);
    // walk the tail in both coefficient regimes
    let k3: int = if k2 <= FEE_TOL { 0int } else { k2 };
    if k2 <= FEE_TOL {
        assert((0int) * mid == 0) by (nonlinear_arith);
        assert(0int / one == 0) by {
            lemma_div_multiples_vanish(0, one);
            assert(one * 0 == 0) by (nonlinear_arith);
        }
        lemma_div_multiples_vanish(out, one);
        assert((one * out) == ((one - 0) * out)) by (nonlinear_arith);
        assert((one - 0) * out / one == out);
        assert(fee_spec_tail(mid, out, fg, d2) == Ok::<int, PoolError>(out));
        assert(out > mid);
    } else {
        let r1: int = k3 * mid / one;
        let r2: int = (one - k3) * out / one;
        lemma_fundamental_div_mod(k3 * mid, one);
        vstd::arithmetic::div_mod::lemma_mod_division_less_than_divisor(k3 * mid, one);
        assert(one * r1 > k3 * mid - one);
        lemma_fundamental_div_mod((one - k3) * out, one);
        vstd::arithmetic::div_mod::lemma_mod_division_less_than_divisor((one - k3) * out, one);
        assert(one * r2 > (one - k3) * out - one);
        assert(k3 * mid + (one - k3) * out == one * mid + (one - k3) * (out - mid))
            by (nonlinear_arith);
        assert((one - k3) * (out - mid) >= 400_000_000_000_000_000 * 8) by (nonlinear_arith)
            requires
                one - k3 >= 400_000_000_000_000_000,
                out - mid >= 8,
        ;
        assert(one * (r1 + r2) > one * mid) by (nonlinear_arith)
            requires
                one * r1 > k3 * mid - one,
                one * r2 > (one - k3) * out - one,
                k3 * mid + (one - k3) * out == one * mid + (one - k3) * (out - mid),
                (one - k3) * (out - mid) >= 3_200_000_000_000_000_000,
                one == ONE,
        ;
        assert(r1 + r2 > mid) by (nonlinear_arith)
            requires
                one * (r1 + r2) > one * mid,
                one > 0,
        ;
        // the pieces stay in range, so every step of the tail stands
        assert(r1 >= 0 && r2 >= 0) by {
            vstd::arithmetic::div_mod::lemma_div_pos_is_pos(k3 * mid, one);
            vstd::arithmetic::div_mod::lemma_div_pos_is_pos((one - k3) * out, one);
            assert(k3 * mid >= 0) by (nonlinear_arith)
                requires
                    k3 >= 0,
                    mid >= MIN_FEE,
            ;
            assert((one - k3) * out >= 0) by (nonlinear_arith)
                requires
                    k3 <= one,
                    out >= MIN_FEE,
                    one == ONE,
            ;
        }
        assert(r1 <= mid && r2 <= out) by {
            assert(k3 * mid <= one * mid) by (nonlinear_arith)
                requires
                    0 <= k3 <= one,
                    mid >= 0,
            ;
            assert((one - k3) * out <= one * out) by (nonlinear_arith)
                requires
                    0 <= k3 <= one,
                    out >= 0,
            ;
            lemma_div_is_ordered(k3 * mid, one * mid, one);
            lemma_div_is_ordered((one - k3) * out, one * out, one);
            lemma_div_multiples_vanish(mid, one);
            lemma_div_multiples_vanish(out, one);
            assert(one * mid == one * mid);
            assert(one * mid / one == mid);
            assert(one * out / one == out);
        }
        assert(fee_spec_tail(mid, out, fg, d2) == Ok::<int, PoolError>(r1 + r2));
    }
    assert(fee_spec(y, x, mid, out, fg) == fee_spec_tail(mid, out, fg, d2));
}

} // verus!
