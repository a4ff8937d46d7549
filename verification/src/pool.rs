//! Pool state: the parameter ramp and the price state.
//!
//! `CurveState` carries the amplification/gamma ramp schedule and the
//! `PriceState` with the internal price scale, the oracle price, and the
//! profit accumulators that gate repegging.

use vstd::prelude::*;
use crate::dec::{Dec, ONE};
use crate::sdec::{tz, tzdiv};
use crate::params::{AmpGamma, PoolParams};
use crate::math::{newton_d_spec, xcp_spec, calc_d, get_xcp, MAX_ITER};
use crate::error::PoolError;
use vstd::arithmetic::power2::{pow2, lemma_pow2_unfold, lemma_pow2_pos, lemma2_to64, lemma2_to64_rest, lemma_pow2_strictly_increases};

verus! {

/// Tolerance of the half-power series (10^-10), in atomics.
pub const HALFPOW_TOL: u128 = 100_000_000;

/// The lowest time interval a parameter ramp may take, in seconds.
pub const MIN_AMP_CHANGING_TIME: u64 = 86_400;

/// The largest permitted relative change of a ramped parameter (10.0).
pub const MAX_CHANGE: u128 = 10_000_000_000_000_000_000;

/// The price state of a pool.
#[derive(Clone, Copy, Debug, PartialEq, Eq, Structural)]
pub struct PriceState {
    /// Internal oracle price, an exponential moving average of trade
    /// prices.
    pub oracle_price: Dec,
    /// The last trade price seen.
    pub last_price: Dec,
    /// The internal unit that maps the second asset into the first asset's
    /// scale.
    pub price_scale: Dec,
    /// When the oracle price last advanced, in seconds.
    pub last_price_update: u64,
    /// Cumulative invariant growth from fees, per share.
    pub xcp_profit: Dec,
    /// The same growth net of realized repegging losses.
    pub xcp_profit_real: Dec,
}

/// The curve bookkeeping of one pool: the parameter ramp and the price
/// state.
#[derive(Clone, Copy, Debug, PartialEq, Eq, Structural)]
pub struct CurveState {
    /// Amp and gamma at the start of the current ramp.
    pub initial: AmpGamma,
    /// Amp and gamma the ramp moves toward.
    pub future: AmpGamma,
    /// When the ramp completes, in seconds.
    pub future_time: u64,
    /// When the ramp started, in seconds.
    pub initial_time: u64,
    /// The price state.
    pub price_state: PriceState,
}

/// A count of seconds as a decimal value.
pub fn secs_to_dec(s: u64) -> (r: Dec)
    ensures
        r.atomics == s as int * ONE,
{
    proof {
        assert(s as int * (ONE as int) <= 0xffff_ffff_ffff_ffff * (ONE as int))
            by (nonlinear_arith)
            requires
                s <= 0xffff_ffff_ffff_ffff,
        ;
    }
    Dec::raw((s as u128) * ONE)
}

/// The ramped amplification and gamma at time `t`: linear interpolation
/// between the initial and future values, clamped to the future values once
/// the ramp completes.
pub open spec fn amp_gamma_at(st: CurveState, t: u64) -> Result<AmpGamma, PoolError> {
    let one: int = ONE as int;
    if t < st.future_time {
        let total: int = (st.future_time - st.initial_time) * one;
        let passed: int = (t - st.initial_time) * one;
        let left: int = total - passed;
        match ubnd2(tz(st.initial.amp.atomics as int * left, one)) {
            Err(e) => Err(e),
            Ok(a1) => match ubnd2(tz(st.future.amp.atomics as int * passed, one)) {
                Err(e) => Err(e),
                Ok(a2) => match ubnd2(a1 + a2) {
                    Err(e) => Err(e),
                    Ok(a3) => match ubnd2(tzdiv(a3 * one, total)) {
                        Err(e) => Err(e),
                        Ok(amp) => match ubnd2(tz(st.initial.gamma.atomics as int * left, one)) {
                            Err(e) => Err(e),
                            Ok(g1) => match ubnd2(
                                tz(st.future.gamma.atomics as int * passed, one),
                            ) {
                                Err(e) => Err(e),
                                Ok(g2) => match ubnd2(g1 + g2) {
                                    Err(e) => Err(e),
                                    Ok(g3) => match ubnd2(tzdiv(g3 * one, total)) {
                                        Err(e) => Err(e),
                                        Ok(gamma) => Ok(
                                            AmpGamma {
                                                amp: Dec { atomics: amp as u128 },
                                                gamma: Dec { atomics: gamma as u128 },
                                            },
                                        ),
                                    },
                                },
                            },
                        },
                    },
                },
            },
        }
    } else {
        Ok(st.future)
    }
}

/// A signed value only stands when its magnitude fits in 128 bits.
pub open spec fn ubnd2(v: int) -> Result<int, PoolError> {
    if v > u128::MAX || v < -(u128::MAX as int) {
        Err(PoolError::ArithmeticOverflow)
    } else {
        Ok(v)
    }
}

/// `0.5` raised to a whole power, in atomics: `ONE / 2^n`, which repeated
/// floor-halving computes exactly; powers of 60 and above underflow to
/// zero.
pub open spec fn half_pow_int_spec(n: int) -> int {
    if n >= 60 {
        0
    } else {
        (ONE as int) / pow2(n as nat) as int
    }
}

/// `0.5^n` for a whole exponent; exact mirror of [`half_pow_int_spec`].
pub fn half_pow_int(n: u128) -> (r: Dec)
    ensures
        r.atomics == half_pow_int_spec(n as int),
{
    if n >= 60 {
        Dec::zero()
    } else {
        let mut acc: u128 = 1;
        let mut i: u64 = 0;
        proof {
            lemma2_to64();
        }
        while i < n as u64
            invariant
                i <= 59,
                i as u128 <= n,
                n < 60,
                acc == pow2(i as nat),
                acc <= 0x800_0000_0000_0000,
            decreases n - i,
        {
            proof {
                lemma_pow2_unfold(i as nat + 1);
                if i as nat + 1 < 60 {
                    lemma_pow2_strictly_increases(i as nat + 1, 60);
                }
                lemma2_to64();
                lemma2_to64_rest();
                assert(pow2(59) == 0x800_0000_0000_0000) by {
                    lemma_pow2_unfold(59);
                    lemma_pow2_unfold(58);
                    lemma_pow2_unfold(57);
                    lemma_pow2_unfold(56);
                    lemma_pow2_unfold(55);
                }
            }
            acc = acc * 2;
            i = i + 1;
        }
        proof {
            lemma_pow2_pos(n as nat);
        }
        Dec::raw(ONE / acc)
    }
}

/// One run of the alternating series for `0.5^frac` with `frac < 1`: each
/// term multiplies by `|frac - (k - 1)| / (2 * k)` and is taken off the
/// sum, until a term drops under [`HALFPOW_TOL`].
pub open spec fn halfpow_series_spec(frac: int, term: int, sum: int, k: int, fuel: nat) -> Result<
    int,
    PoolError,
>
    decreases fuel,
{
    let one: int = ONE as int;
    let half: int = ONE as int / 2;
    if fuel == 0 {
        Err(PoolError::InvariantDidNotConverge)
    } else {
        let kd: int = k * one;
        let km1: int = (k - 1) * one;
        let c: int = if frac >= km1 {
            frac - km1
        } else {
            km1 - frac
        };
        match ubnd2(tz(term * c, one)) {
            Err(e) => Err(e),
            Ok(t1) => match ubnd2(tz(t1 * half, one)) {
                Err(e) => Err(e),
                Ok(t2) => match ubnd2(tzdiv(t2 * one, kd)) {
                    Err(e) => Err(e),
                    Ok(t3) => if sum - t3 < 0 {
                        Err(PoolError::ArithmeticOverflow)
                    } else {
                        if t3 < HALFPOW_TOL {
                            Ok(sum - t3)
                        } else {
                            halfpow_series_spec(frac, t3, sum - t3, k + 1, (fuel - 1) as nat)
                        }
                    },
                },
            },
        }
    }
}

/// The executable series; exact mirror of [`halfpow_series_spec`].
#[verifier::rlimit(100)]
fn halfpow_series(frac: Dec, term: Dec, sum: Dec, k: u64, fuel: u64) -> (r: Result<Dec, PoolError>)
    requires
        1 <= k,
        k + fuel <= MAX_ITER + 1,
    ensures
        match r {
            Ok(v) => halfpow_series_spec(
                frac.atomics as int,
                term.atomics as int,
                sum.atomics as int,
                k as int,
                fuel as nat,
            ) == Ok::<int, PoolError>(v.atomics as int),
            Err(e) => halfpow_series_spec(
                frac.atomics as int,
                term.atomics as int,
                sum.atomics as int,
                k as int,
                fuel as nat,
            ) == Err::<int, PoolError>(e),
        },
    decreases fuel,
{
    if fuel == 0 {
        return Err(PoolError::InvariantDidNotConverge);
    }
    let kd = secs_to_dec(k);
    let km1 = secs_to_dec(k - 1);
    let c = frac.abs_diff(km1);
    proof {
        assert(term.atomics as int * c.atomics as int >= 0) by (nonlinear_arith);
    }
    let t1 = term.checked_mul(c)?;
    let t2 = t1.checked_mul(Dec::raw(ONE / 2))?;
    let t3 = t2.checked_div(kd)?;
    let sum2 = sum.checked_sub(t3)?;
    if t3.atomics < HALFPOW_TOL {
        Ok(sum2)
    } else {
        halfpow_series(frac, t3, sum2, k + 1, fuel - 1)
    }
}

/// `0.5` raised to a non-negative decimal power: the whole part by exact
/// halving, the fractional part by the alternating series.
pub open spec fn halfpow_spec(p: int) -> Result<int, PoolError> {
    let one: int = ONE as int;
    let ip: int = p / one;
    let frac: int = p - (p / one) * one;
    let base: int = half_pow_int_spec(ip);
    match halfpow_series_spec(frac, one, one, 1, MAX_ITER as nat) {
        Err(e) => Err(e),
        Ok(series) => ubnd2(tz(base * series, one)),
    }
}

/// The decay factor `0.5^power`; exact mirror of [`halfpow_spec`].
pub fn half_float_pow(power: Dec) -> (r: Result<Dec, PoolError>)
    ensures
        match r {
            Ok(v) => halfpow_spec(power.atomics as int) == Ok::<int, PoolError>(v.atomics as int),
            Err(e) => halfpow_spec(power.atomics as int) == Err::<int, PoolError>(e),
        },
{
    let ip = power.whole();
    let fl = power.floor();
    let frac = Dec::raw(power.atomics - fl.atomics);
    let base = half_pow_int(ip);
    let series = halfpow_series(frac, Dec::one(), Dec::one(), 1, MAX_ITER)?;
    proof {
        assert(base.atomics as int * series.atomics as int >= 0) by (nonlinear_arith);
    }
    base.checked_mul(series)
}

impl CurveState {
    /// The ramp is time-consistent and the price scale is positive.
    pub open spec fn wf(self) -> bool {
        self.initial_time <= self.future_time && self.price_state.price_scale.atomics > 0
    }

    /// The ramped amplification and gamma at time `t`; exact mirror of
    /// [`amp_gamma_at`].
    #[verifier::rlimit(100)]
    pub fn get_amp_gamma(&self, block_time: u64) -> (r: Result<AmpGamma, PoolError>)
        requires
            self.wf(),
            block_time >= self.initial_time,
        ensures
            r == amp_gamma_at(*self, block_time),
    {
        if block_time < self.future_time {
            let total = secs_to_dec(self.future_time - self.initial_time);
            let passed = secs_to_dec(block_time - self.initial_time);
            let left = Dec::raw(total.atomics - passed.atomics);
            proof {
                assert(self.initial.amp.atomics as int * left.atomics as int >= 0)
                    by (nonlinear_arith);
                assert(self.future.amp.atomics as int * passed.atomics as int >= 0)
                    by (nonlinear_arith);
                assert(self.initial.gamma.atomics as int * left.atomics as int >= 0)
                    by (nonlinear_arith);
                assert(self.future.gamma.atomics as int * passed.atomics as int >= 0)
                    by (nonlinear_arith);
            }
            let a1 = self.initial.amp.checked_mul(left)?;
            let a2 = self.future.amp.checked_mul(passed)?;
            let a3 = a1.checked_add(a2)?;
            let amp = a3.checked_div(total)?;
            let g1 = self.initial.gamma.checked_mul(left)?;
            let g2 = self.future.gamma.checked_mul(passed)?;
            let g3 = g1.checked_add(g2)?;
            let gamma = g3.checked_div(total)?;
            Ok(AmpGamma { amp, gamma })
        } else {
            Ok(self.future)
        }
    }
}

/// The advanced oracle price and its update time: the oracle decays toward
/// the last trade price with half-life `ma_half_time` over the elapsed
/// time.
pub open spec fn ema_spec(
    oracle: int,
    last_price: int,
    last_update: u64,
    block_time: u64,
    ma_half_time: u64,
) -> Result<(int, u64), PoolError> {
    let one: int = ONE as int;
    if last_update < block_time {
        let dt: int = block_time - last_update;
        match ubnd2(dt * one / (ma_half_time as int)) {
            Err(e) => Err(e),
            Ok(arg) => match halfpow_spec(arg) {
                Err(e) => Err(e),
                Ok(alpha) => if one - alpha < 0 {
                    Err(PoolError::ArithmeticOverflow)
                } else {
                    match ubnd2(tz(last_price * (one - alpha), one)) {
                        Err(e) => Err(e),
                        Ok(o1) => match ubnd2(tz(oracle * alpha, one)) {
                            Err(e) => Err(e),
                            Ok(o2) => match ubnd2(o1 + o2) {
                                Err(e) => Err(e),
                                Ok(o3) => Ok((o3, block_time)),
                            },
                        },
                    }
                },
            },
        }
    } else {
        Ok((oracle, last_update))
    }
}

/// The executable oracle advance; exact mirror of [`ema_spec`].
#[verifier::rlimit(100)]
fn ema_step(oracle: Dec, last_price: Dec, last_update: u64, block_time: u64, ma_half_time: u64) -> (r:
    Result<(Dec, u64), PoolError>)
    requires
        ma_half_time >= 1,
    ensures
        match r {
            Ok(v) => ema_spec(
                oracle.atomics as int,
                last_price.atomics as int,
                last_update,
                block_time,
                ma_half_time,
            ) == Ok::<(int, u64), PoolError>((v.0.atomics as int, v.1)),
            Err(e) => ema_spec(
                oracle.atomics as int,
                last_price.atomics as int,
                last_update,
                block_time,
                ma_half_time,
            ) == Err::<(int, u64), PoolError>(e),
        },
{
    if last_update < block_time {
        let dt: u64 = block_time - last_update;
        proof {
            crate::dec::lemma_nonneg_mul(dt as int, ONE as int);
        }
        let arg = Dec::from_ratio(dt as u128, ma_half_time as u128)?;
        let alpha = half_float_pow(arg)?;
        let ima = Dec::one().checked_sub(alpha)?;
        proof {
            crate::dec::lemma_nonneg_mul(last_price.atomics as int, ima.atomics as int);
            crate::dec::lemma_nonneg_mul(oracle.atomics as int, alpha.atomics as int);
        }
        let o1 = last_price.checked_mul(ima)?;
        let o2 = oracle.checked_mul(alpha)?;
        let o3 = o1.checked_add(o2)?;
        Ok((o3, block_time))
    } else {
        Ok((oracle, last_update))
    }
}

/// The advanced profit accumulators `(xcp_profit, xcp_profit_real)` for a
/// fresh invariant value `xcp`. A drop of the per-share invariant outside
/// a running ramp is a loss and is rejected.
pub open spec fn profit_spec(
    xcp_profit: int,
    xpr: int,
    xcp: int,
    total_lp: int,
    ramp_done: bool,
) -> Result<(int, int), PoolError> {
    let one: int = ONE as int;
    if xpr != 0 {
        match ubnd2(tzdiv(xcp * one, total_lp)) {
            Err(e) => Err(e),
            Ok(xpr_new) => if xpr_new < xpr && ramp_done {
                Err(PoolError::XcpProfitDropped)
            } else {
                match ubnd2(tzdiv(xcp_profit * xpr_new, xpr)) {
                    Err(e) => Err(e),
                    Ok(xp_new) => Ok((xp_new, xpr_new)),
                }
            },
        }
    } else {
        Ok((xcp_profit, xpr))
    }
}

/// The executable profit advance; exact mirror of [`profit_spec`].
#[verifier::rlimit(100)]
fn profit_step(xcp_profit: Dec, xpr: Dec, xcp: Dec, total_lp: Dec, ramp_done: bool) -> (r: Result<
    (Dec, Dec),
    PoolError,
>)
    requires
        total_lp.atomics > 0,
    ensures
        match r {
            Ok(v) => profit_spec(
                xcp_profit.atomics as int,
                xpr.atomics as int,
                xcp.atomics as int,
                total_lp.atomics as int,
                ramp_done,
            ) == Ok::<(int, int), PoolError>((v.0.atomics as int, v.1.atomics as int)),
            Err(e) => profit_spec(
                xcp_profit.atomics as int,
                xpr.atomics as int,
                xcp.atomics as int,
                total_lp.atomics as int,
                ramp_done,
            ) == Err::<(int, int), PoolError>(e),
        },
{
    if xpr.atomics != 0 {
        proof {
            crate::dec::lemma_nonneg_mul(xcp.atomics as int, ONE as int);
        }
        let xpr_new = xcp.checked_div(total_lp)?;
        if xpr_new.atomics < xpr.atomics && ramp_done {
            return Err(PoolError::XcpProfitDropped);
        }
        proof {
            crate::dec::lemma_nonneg_mul(xcp_profit.atomics as int, xpr_new.atomics as int);
        }
        let xp_new = xcp_profit.checked_mul_div(xpr_new, xpr)?;
        Ok((xp_new, xpr_new))
    } else {
        Ok((xcp_profit, xpr))
    }
}

/// The repeg decision: the new `(price_scale, xcp_profit_real)`, unchanged
/// unless the oracle has drifted at least the scale delta away from the
/// price scale, the accumulated profit clears the threshold, and the
/// recomputed per-share invariant at the moved scale keeps at least half
/// the profit.
pub open spec fn repeg_spec(
    pp: PoolParams,
    oracle: int,
    ps: int,
    xp: int,
    xpr: int,
    x0: int,
    x1: int,
    amp: int,
    gamma: int,
    total_lp: int,
) -> Result<(int, int), PoolError> {
    let one: int = ONE as int;
    match ubnd2(tzdiv(oracle * one, ps)) {
        Err(e) => Err(e),
        Ok(tr) => {
            let norm: int = if tr >= one {
                tr - one
            } else {
                one - tr
            };
            match ubnd2(tz(norm * (ONE as int / 10), one)) {
                Err(e) => Err(e),
                Ok(nm) => {
                    let sd: int = if pp.min_price_scale_delta.atomics >= nm {
                        pp.min_price_scale_delta.atomics as int
                    } else {
                        nm
                    };
                    if norm >= sd && norm > 0 && xpr >= one && xp >= one {
                        let lhs: int = xpr - one;
                        match ubnd2(tzdiv((xp - one) * one, 2 * one)) {
                            Err(e) => Err(e),
                            Ok(rhs1) => match ubnd2(
                                rhs1 + pp.repeg_profit_threshold.atomics as int,
                            ) {
                                Err(e) => Err(e),
                                Ok(rhs) => if lhs > rhs {
                                    repeg_commit_spec(oracle, ps, xp, xpr, x0, x1, amp, gamma, total_lp, norm, sd)
                                } else {
                                    Ok((ps, xpr))
                                },
                            },
                        }
                    } else {
                        Ok((ps, xpr))
                    }
                },
            }
        },
    }
}

/// The attempted scale move of [`repeg_spec`] once both repeg conditions
/// hold.
pub open spec fn repeg_commit_spec(
    oracle: int,
    ps: int,
    xp: int,
    xpr: int,
    x0: int,
    x1: int,
    amp: int,
    gamma: int,
    total_lp: int,
    norm: int,
    sd: int,
) -> Result<(int, int), PoolError> {
    let one: int = ONE as int;
    match ubnd2(tz(ps * (norm - sd), one)) {
        Err(e) => Err(e),
        Ok(p1) => match ubnd2(tz(sd * oracle, one)) {
            Err(e) => Err(e),
            Ok(p2) => match ubnd2(p1 + p2) {
                Err(e) => Err(e),
                Ok(pnum) => match ubnd2(tzdiv(pnum * one, norm)) {
                    Err(e) => Err(e),
                    Ok(psn) => if psn == 0 {
                        Err(PoolError::ArithmeticOverflow)
                    } else {
                        match ubnd2(tzdiv(x1 * psn, ps)) {
                            Err(e) => Err(e),
                            Ok(xs1) => match newton_d_spec(x0, xs1, amp, gamma) {
                                Err(e) => Err(e),
                                Ok(nd) => match xcp_spec(nd, psn) {
                                    Err(e) => Err(e),
                                    Ok(nxcp) => match ubnd2(tzdiv(nxcp * one, total_lp)) {
                                        Err(e) => Err(e),
                                        Ok(nxpr) => match ubnd2(tz(nxpr * (2 * one), one)) {
                                            Err(e) => Err(e),
                                            Ok(two_nxpr) => match ubnd2(xp + one) {
                                                Err(e) => Err(e),
                                                Ok(xp1) => if two_nxpr > xp1 {
                                                    Ok((psn, nxpr))
                                                } else {
                                                    Ok((ps, xpr))
                                                },
                                            },
                                        },
                                    },
                                },
                            },
                        }
                    },
                },
            },
        },
    }
}

/// The executable scale move; exact mirror of [`repeg_commit_spec`].
#[verifier::rlimit(100)]
fn repeg_commit(
    oracle: Dec,
    ps: Dec,
    xp: Dec,
    xpr: Dec,
    x0: Dec,
    x1: Dec,
    ag: AmpGamma,
    total_lp: Dec,
    norm: Dec,
    sd: Dec,
) -> (r: Result<(Dec, Dec), PoolError>)
    requires
        ps.atomics > 0,
        total_lp.atomics > 0,
        norm.atomics >= sd.atomics,
        norm.atomics > 0,
    ensures
        match r {
            Ok(v) => repeg_commit_spec(
                oracle.atomics as int,
                ps.atomics as int,
                xp.atomics as int,
                xpr.atomics as int,
                x0.atomics as int,
                x1.atomics as int,
                ag.amp.atomics as int,
                ag.gamma.atomics as int,
                total_lp.atomics as int,
                norm.atomics as int,
                sd.atomics as int,
            ) == Ok::<(int, int), PoolError>((v.0.atomics as int, v.1.atomics as int)),
            Err(e) => repeg_commit_spec(
                oracle.atomics as int,
                ps.atomics as int,
                xp.atomics as int,
                xpr.atomics as int,
                x0.atomics as int,
                x1.atomics as int,
                ag.amp.atomics as int,
                ag.gamma.atomics as int,
                total_lp.atomics as int,
                norm.atomics as int,
                sd.atomics as int,
            ) == Err::<(int, int), PoolError>(e),
        },
{
    proof {
        crate::dec::lemma_nonneg_mul(ps.atomics as int, norm.atomics - sd.atomics);
        crate::dec::lemma_nonneg_mul(sd.atomics as int, oracle.atomics as int);
    }
    let p1 = ps.checked_mul(Dec::raw(norm.atomics - sd.atomics))?;
    let p2 = sd.checked_mul(oracle)?;
    let pnum = p1.checked_add(p2)?;
    proof {
        crate::dec::lemma_nonneg_mul(pnum.atomics as int, ONE as int);
    }
    let psn = pnum.checked_div(norm)?;
    if psn.atomics == 0 {
        return Err(PoolError::ArithmeticOverflow);
    }
    proof {
        crate::dec::lemma_nonneg_mul(x1.atomics as int, psn.atomics as int);
    }
    let xs1 = x1.checked_mul_div(psn, ps)?;
    let nd = calc_d(x0, xs1, ag.amp, ag.gamma)?;
    let nxcp = get_xcp(nd, psn)?;
    proof {
        crate::dec::lemma_nonneg_mul(nxcp.atomics as int, ONE as int);
        crate::dec::lemma_nonneg_mul(nxcp.atomics as int, total_lp.atomics as int);
    }
    let nxpr = nxcp.checked_div(total_lp)?;
    proof {
        crate::dec::lemma_nonneg_mul(nxpr.atomics as int, 2 * ONE as int);
    }
    let two_nxpr = nxpr.checked_mul(Dec::raw(2 * ONE))?;
    let xp1 = xp.checked_add(Dec::one())?;
    if two_nxpr.atomics > xp1.atomics {
        Ok((psn, nxpr))
    } else {
        Ok((ps, xpr))
    }
}

/// The executable repeg decision; exact mirror of [`repeg_spec`].
#[verifier::rlimit(100)]
fn repeg_step(
    pp: &PoolParams,
    oracle: Dec,
    ps: Dec,
    xp: Dec,
    xpr: Dec,
    x0: Dec,
    x1: Dec,
    ag: AmpGamma,
    total_lp: Dec,
) -> (r: Result<(Dec, Dec), PoolError>)
    requires
        ps.atomics > 0,
        total_lp.atomics > 0,
    ensures
        match r {
            Ok(v) => repeg_spec(
                *pp,
                oracle.atomics as int,
                ps.atomics as int,
                xp.atomics as int,
                xpr.atomics as int,
                x0.atomics as int,
                x1.atomics as int,
                ag.amp.atomics as int,
                ag.gamma.atomics as int,
                total_lp.atomics as int,
            ) == Ok::<(int, int), PoolError>((v.0.atomics as int, v.1.atomics as int)),
            Err(e) => repeg_spec(
                *pp,
                oracle.atomics as int,
                ps.atomics as int,
                xp.atomics as int,
                xpr.atomics as int,
                x0.atomics as int,
                x1.atomics as int,
                ag.amp.atomics as int,
                ag.gamma.atomics as int,
                total_lp.atomics as int,
            ) == Err::<(int, int), PoolError>(e),
        },
{
    proof {
        crate::dec::lemma_nonneg_mul(oracle.atomics as int, ONE as int);
    }
    let tr = oracle.checked_div(ps)?;
    let norm = tr.abs_diff(Dec::one());
    proof {
        crate::dec::lemma_nonneg_mul(norm.atomics as int, (ONE / 10) as int);
    }
    let nm = norm.checked_mul(Dec::raw(ONE / 10))?;
    let sd = pp.min_price_scale_delta.max(nm);
    if norm.atomics >= sd.atomics && norm.atomics > 0 && xpr.atomics >= ONE && xp.atomics >= ONE {
        proof {
            crate::dec::lemma_nonneg_mul(xp.atomics - ONE, ONE as int);
        }
        let rhs1 = Dec::raw(xp.atomics - ONE).checked_div(Dec::raw(2 * ONE))?;
        let rhs = rhs1.checked_add(pp.repeg_profit_threshold)?;
        if xpr.atomics - ONE > rhs.atomics {
            repeg_commit(oracle, ps, xp, xpr, x0, x1, ag, total_lp, norm, sd)
        } else {
            Ok((ps, xpr))
        }
    } else {
        Ok((ps, xpr))
    }
}

/// The advanced price state after an action at `block_time` that left the
/// pool with scaled reserves `(x0, x1)`, share supply `total_lp`, and last
/// trade price `cur_price`: the oracle decays, the profit accumulators
/// advance from the fresh invariant, and the price scale moves toward the
/// oracle when both repeg conditions hold.
pub open spec fn update_price_spec(
    st: CurveState,
    pp: PoolParams,
    block_time: u64,
    total_lp: int,
    x0: int,
    x1: int,
    cur_price: Dec,
) -> Result<PriceState, PoolError> {
    match amp_gamma_at(st, block_time) {
        Err(e) => Err(e),
        Ok(ag) => match ema_spec(
            st.price_state.oracle_price.atomics as int,
            st.price_state.last_price.atomics as int,
            st.price_state.last_price_update,
            block_time,
            pp.ma_half_time,
        ) {
            Err(e) => Err(e),
            Ok(ema) => match newton_d_spec(x0, x1, ag.amp.atomics as int, ag.gamma.atomics as int) {
                Err(e) => Err(e),
                Ok(cur_d) => match xcp_spec(cur_d, st.price_state.price_scale.atomics as int) {
                    Err(e) => Err(e),
                    Ok(xcp) => match profit_spec(
                        st.price_state.xcp_profit.atomics as int,
                        st.price_state.xcp_profit_real.atomics as int,
                        xcp,
                        total_lp,
                        block_time >= st.future_time,
                    ) {
                        Err(e) => Err(e),
                        Ok(profits) => match repeg_spec(
                            pp,
                            ema.0,
                            st.price_state.price_scale.atomics as int,
                            profits.0,
                            profits.1,
                            x0,
                            x1,
                            ag.amp.atomics as int,
                            ag.gamma.atomics as int,
                            total_lp,
                        ) {
                            Err(e) => Err(e),
                            Ok(scale) => Ok(
                                PriceState {
                                    oracle_price: Dec { atomics: ema.0 as u128 },
                                    last_price: cur_price,
                                    price_scale: Dec { atomics: scale.0 as u128 },
                                    last_price_update: ema.1,
                                    xcp_profit: Dec { atomics: profits.0 as u128 },
                                    xcp_profit_real: Dec { atomics: scale.1 as u128 },
                                },
                            ),
                        },
                    },
                },
            },
        },
    }
}

impl CurveState {
    /// Advances the oracle price, the profit accumulators, and — when the
    /// both repeg conditions hold — the price scale, after an action that left the
    /// pool with scaled reserves `(x0, x1)`. On any failure the state is
    /// unchanged; exact mirror of [`update_price_spec`].
    pub fn update_price(
        &mut self,
        pool_params: &PoolParams,
        block_time: u64,
        total_lp: Dec,
        x0: Dec,
        x1: Dec,
        cur_price: Dec,
    ) -> (r: Result<(), PoolError>)
        requires
            old(self).wf(),
            pool_params.wf(),
            block_time >= old(self).initial_time,
            total_lp.atomics > 0,
        ensures
            match r {
                Ok(()) => {
                    &&& update_price_spec(
                        *old(self),
                        *pool_params,
                        block_time,
                        total_lp.atomics as int,
                        x0.atomics as int,
                        x1.atomics as int,
                        cur_price,
                    ) == Ok::<PriceState, PoolError>(final(self).price_state)
                    &&& final(self).initial == old(self).initial
                    &&& final(self).future == old(self).future
                    &&& final(self).initial_time == old(self).initial_time
                    &&& final(self).future_time == old(self).future_time
                },
                Err(e) => update_price_spec(
                    *old(self),
                    *pool_params,
                    block_time,
                    total_lp.atomics as int,
                    x0.atomics as int,
                    x1.atomics as int,
                    cur_price,
                ) == Err::<PriceState, PoolError>(e) && *final(self) == *old(self),
            },
    {
        let ag = self.get_amp_gamma(block_time)?;
        let ema = ema_step(
            self.price_state.oracle_price,
            self.price_state.last_price,
            self.price_state.last_price_update,
            block_time,
            pool_params.ma_half_time,
        )?;
        let cur_d = calc_d(x0, x1, ag.amp, ag.gamma)?;
        let xcp = get_xcp(cur_d, self.price_state.price_scale)?;
        let profits = profit_step(
            self.price_state.xcp_profit,
            self.price_state.xcp_profit_real,
            xcp,
            total_lp,
            block_time >= self.future_time,
        )?;
        let scale = repeg_step(
            pool_params,
            ema.0,
            self.price_state.price_scale,
            profits.0,
            profits.1,
            x0,
            x1,
            ag,
            total_lp,
        )?;
        self.price_state = PriceState {
            oracle_price: ema.0,
            last_price: cur_price,
            price_scale: scale.0,
            last_price_update: ema.1,
            xcp_profit: profits.0,
            xcp_profit_real: scale.1,
        };
        Ok(())
    }
}

} // verus!
