//! Liquidity engine: share minted on deposit, reserves returned on
//! withdrawal.
//!
//! An initial deposit on an empty pool must be two-sided; the minted share
//! is the pool's virtual balanced value less a fixed minimum burned
//! forever, which keeps the share price out of manipulation range. Later
//! deposits mint in proportion to invariant growth, less a provide fee
//! charged on imbalanced deposits. Withdrawal is pro-rata.

use vstd::prelude::*;
use crate::dec::{Dec, ONE, lemma_nonneg_mul};
use crate::sdec::{tz, tzdiv};
use crate::params::{PoolParams, fee_spec};
use crate::pool::{CurveState, PriceState, ubnd2, update_price_spec, amp_gamma_at};
use crate::math::{newton_d_spec, xcp_spec, calc_d, get_xcp};
use crate::swap::{DEFAULT_SLIPPAGE, MAX_ALLOWED_SLIPPAGE, MIN_TRADE_SIZE};
use crate::error::PoolError;

verus! {

/// Share burned to the null holder on the first provide, in atomics of the
/// internal representation (1000 raw units at the share token's precision
/// of 6).
pub const MINIMUM_LIQUIDITY_AMOUNT: u128 = 1_000_000_000_000_000;

/// The provide fee rate for a deposit `(d0, d1)` against the post-deposit
/// scaled reserves `(xp0, xp1)`: the deposit's distance from balance times
/// the swap fee rate, as a share of the deposit.
pub open spec fn provide_fee_spec(d0: int, d1: int, xp0: int, xp1: int, pp: PoolParams) -> Result<
    int,
    PoolError,
> {
    let one: int = ONE as int;
    match ubnd2(d0 + d1) {
        Err(e) => Err(e),
        Ok(sum) => match ubnd2(tzdiv(sum * one, 2 * one)) {
            Err(e) => Err(e),
            Ok(avg) => {
                let diff: int = if d0 >= avg {
                    d0 - avg
                } else {
                    avg - d0
                };
                match fee_spec(
                    xp0,
                    xp1,
                    pp.mid_fee.atomics as int,
                    pp.out_fee.atomics as int,
                    pp.fee_gamma.atomics as int,
                ) {
                    Err(e) => Err(e),
                    Ok(f) => match ubnd2(tz(diff * f, one)) {
                        Err(e) => Err(e),
                        Ok(m) => ubnd2(tzdiv(m * one, sum)),
                    },
                }
            },
        },
    }
}

/// The fee charged on an imbalanced provide; exact mirror of
/// [`provide_fee_spec`].
#[verifier::rlimit(100)]
pub fn calc_provide_fee(d0: Dec, d1: Dec, xp0: Dec, xp1: Dec, pp: &PoolParams) -> (r: Result<
    Dec,
    PoolError,
>)
    requires
        d0.atomics + d1.atomics > 0,
    ensures
        match r {
            Ok(v) => provide_fee_spec(
                d0.atomics as int,
                d1.atomics as int,
                xp0.atomics as int,
                xp1.atomics as int,
                *pp,
            ) == Ok::<int, PoolError>(v.atomics as int),
            Err(e) => provide_fee_spec(
                d0.atomics as int,
                d1.atomics as int,
                xp0.atomics as int,
                xp1.atomics as int,
                *pp,
            ) == Err::<int, PoolError>(e),
        },
{
    let sum = d0.checked_add(d1)?;
    proof {
        lemma_nonneg_mul(sum.atomics as int, ONE as int);
    }
    let avg = sum.checked_div(Dec::raw(2 * ONE))?;
    let diff = d0.abs_diff(avg);
    let f = pp.fee(xp0, xp1)?;
    proof {
        lemma_nonneg_mul(diff.atomics as int, f.atomics as int);
    }
    let m = diff.checked_mul(f)?;
    proof {
        lemma_nonneg_mul(m.atomics as int, ONE as int);
    }
    m.checked_div(sum)
}

/// The realized provide slippage against the balanced expectation: the
/// shortfall of the minted share under the share a perfectly balanced
/// deposit of the same value would mint.
pub open spec fn slippage_spec(
    d0: int,
    d1: int,
    actual_share: int,
    ps: int,
    xpr: int,
    tolerance: Option<Dec>,
) -> Result<int, PoolError> {
    let one: int = ONE as int;
    let cap: int = if tolerance is Some {
        tolerance->0.atomics as int
    } else {
        DEFAULT_SLIPPAGE as int
    };
    if cap > MAX_ALLOWED_SLIPPAGE {
        Err(PoolError::ExcessiveSpread)
    } else {
        match ubnd2(tz(d1 * ps, one)) {
            Err(e) => Err(e),
            Ok(dv1) => match ubnd2(d0 + dv1) {
                Err(e) => Err(e),
                Ok(dv) => match ubnd2(tzdiv(dv * one, 2 * one)) {
                    Err(e) => Err(e),
                    Ok(a) => match ubnd2(tz((2 * one) * ps, one)) {
                        Err(e) => Err(e),
                        Ok(b0) => if b0 == 0 {
                            Err(PoolError::ArithmeticOverflow)
                        } else {
                            match ubnd2(tzdiv(dv * one, b0)) {
                                Err(e) => Err(e),
                                Ok(b) => match ubnd2(tz(a * b, one)) {
                                    Err(e) => Err(e),
                                    Ok(m) => slippage_tail_spec(
                                        crate::dec::sqrt_atomics(m),
                                        actual_share,
                                        xpr,
                                        cap,
                                    ),
                                },
                            }
                        },
                    },
                },
            },
        }
    }
}

/// The tail of [`slippage_spec`]: the expected share and the bounded
/// shortfall.
pub open spec fn slippage_tail_spec(s: int, actual_share: int, xpr: int, cap: int) -> Result<
    int,
    PoolError,
> {
    let one: int = ONE as int;
    if xpr == 0 {
        Err(PoolError::ArithmeticOverflow)
    } else {
        match ubnd2(tzdiv(s * one, xpr)) {
            Err(e) => Err(e),
            Ok(lp) => if lp == 0 {
                Err(PoolError::ArithmeticOverflow)
            } else {
                let short: int = if lp >= actual_share {
                    lp - actual_share
                } else {
                    0
                };
                match ubnd2(tzdiv(short * one, lp)) {
                    Err(e) => Err(e),
                    Ok(sl) => if sl > cap {
                        Err(PoolError::SlippageToleranceExceeded)
                    } else {
                        Ok(sl)
                    },
                }
            },
        }
    }
}

/// Enforces the caller's slippage tolerance on a provide and returns the
/// realized slippage; exact mirror of [`slippage_spec`].
#[verifier::rlimit(100)]
pub fn assert_slippage_tolerance(
    d0: Dec,
    d1: Dec,
    actual_share: Dec,
    price_state: &PriceState,
    tolerance: Option<Dec>,
) -> (r: Result<Dec, PoolError>)
    ensures
        match r {
            Ok(v) => slippage_spec(
                d0.atomics as int,
                d1.atomics as int,
                actual_share.atomics as int,
                price_state.price_scale.atomics as int,
                price_state.xcp_profit_real.atomics as int,
                tolerance,
            ) == Ok::<int, PoolError>(v.atomics as int),
            Err(e) => slippage_spec(
                d0.atomics as int,
                d1.atomics as int,
                actual_share.atomics as int,
                price_state.price_scale.atomics as int,
                price_state.xcp_profit_real.atomics as int,
                tolerance,
            ) == Err::<int, PoolError>(e),
        },
{
    let cap = match tolerance {
        Some(v) => v,
        None => Dec::raw(DEFAULT_SLIPPAGE),
    };
    if cap.atomics > MAX_ALLOWED_SLIPPAGE {
        return Err(PoolError::ExcessiveSpread);
    }
    let ps = price_state.price_scale;
    proof {
        lemma_nonneg_mul(d1.atomics as int, ps.atomics as int);
        lemma_nonneg_mul(2 * ONE as int, ps.atomics as int);
    }
    let dv1 = d1.checked_mul(ps)?;
    let dv = d0.checked_add(dv1)?;
    proof {
        lemma_nonneg_mul(dv.atomics as int, ONE as int);
    }
    let a = dv.checked_div(Dec::raw(2 * ONE))?;
    let b0 = Dec::raw(2 * ONE).checked_mul(ps)?;
    if b0.atomics == 0 {
        return Err(PoolError::ArithmeticOverflow);
    }
    let b = dv.checked_div(b0)?;
    proof {
        lemma_nonneg_mul(a.atomics as int, b.atomics as int);
    }
    let m = a.checked_mul(b)?;
    let s = m.sqrt();
    if price_state.xcp_profit_real.atomics == 0 {
        return Err(PoolError::ArithmeticOverflow);
    }
    proof {
        lemma_nonneg_mul(s.atomics as int, ONE as int);
    }
    let lp = s.checked_div(price_state.xcp_profit_real)?;
    if lp.atomics == 0 {
        return Err(PoolError::ArithmeticOverflow);
    }
    let short = lp.saturating_sub(actual_share);
    proof {
        lemma_nonneg_mul(short.atomics as int, ONE as int);
    }
    let sl = short.checked_div(lp)?;
    if sl.atomics > cap.atomics {
        return Err(PoolError::SlippageToleranceExceeded);
    }
    Ok(sl)
}

/// The pro-rata value of a share amount, as `(refund0, refund1)`.
pub open spec fn share_in_assets_spec(p0: int, p1: int, amount: int, total: int) -> Result<
    (int, int),
    PoolError,
> {
    let one: int = ONE as int;
    let ratio: int = if total == 0 {
        0
    } else {
        tzdiv(amount * one, total)
    };
    if ratio > u128::MAX {
        Err(PoolError::ArithmeticOverflow)
    } else {
        match ubnd2(tz(p0 * ratio, one)) {
            Err(e) => Err(e),
            Ok(r0) => match ubnd2(tz(p1 * ratio, one)) {
                Err(e) => Err(e),
                Ok(r1) => Ok((r0, r1)),
            },
        }
    }
}

/// The amounts a share amount withdraws from the reserves; exact mirror of
/// [`share_in_assets_spec`].
#[verifier::rlimit(100)]
pub fn get_share_in_assets(p0: Dec, p1: Dec, amount: Dec, total: Dec) -> (r: Result<
    (Dec, Dec),
    PoolError,
>)
    ensures
        match r {
            Ok(v) => share_in_assets_spec(
                p0.atomics as int,
                p1.atomics as int,
                amount.atomics as int,
                total.atomics as int,
            ) == Ok::<(int, int), PoolError>((v.0.atomics as int, v.1.atomics as int)),
            Err(e) => share_in_assets_spec(
                p0.atomics as int,
                p1.atomics as int,
                amount.atomics as int,
                total.atomics as int,
            ) == Err::<(int, int), PoolError>(e),
        },
{
    let ratio = if total.atomics == 0 {
        Dec::zero()
    } else {
        proof {
            lemma_nonneg_mul(amount.atomics as int, ONE as int);
        }
        amount.checked_div(total)?
    };
    proof {
        lemma_nonneg_mul(p0.atomics as int, ratio.atomics as int);
        lemma_nonneg_mul(p1.atomics as int, ratio.atomics as int);
    }
    let r0 = p0.checked_mul(ratio)?;
    let r1 = p1.checked_mul(ratio)?;
    Ok((r0, r1))
}

/// What a withdrawal leaves and returns: the refunds and the new reserves.
#[derive(Clone, Copy, Debug, PartialEq, Eq, Structural)]
pub struct WithdrawResult {
    /// Amount of the first asset returned.
    pub refund0: Dec,
    /// Amount of the second asset returned.
    pub refund1: Dec,
    /// First reserve after the withdrawal.
    pub new_reserve0: Dec,
    /// Second reserve after the withdrawal.
    pub new_reserve1: Dec,
}

/// The pro-rata withdrawal over atomic units: rejected when nothing is
/// burned or the supply is empty, and when rounding would drive a reserve
/// negative.
pub open spec fn withdraw_spec(xs0: int, xs1: int, burn: int, total: int) -> Result<
    WithdrawResult,
    PoolError,
> {
    if burn == 0 || total == 0 {
        Err(PoolError::InvalidZeroAmount)
    } else {
        match share_in_assets_spec(xs0, xs1, burn, total) {
            Err(e) => Err(e),
            Ok(refunds) => if xs0 - refunds.0 < 0 || xs1 - refunds.1 < 0 {
                Err(PoolError::ArithmeticOverflow)
            } else {
                Ok(
                    WithdrawResult {
                        refund0: Dec { atomics: refunds.0 as u128 },
                        refund1: Dec { atomics: refunds.1 as u128 },
                        new_reserve0: Dec { atomics: (xs0 - refunds.0) as u128 },
                        new_reserve1: Dec { atomics: (xs1 - refunds.1) as u128 },
                    },
                )
            },
        }
    }
}

/// Burns `burn` of `total` shares and returns each reserve's pro-rata
/// part; exact mirror of [`withdraw_spec`].
pub fn withdraw_liquidity(xs0: Dec, xs1: Dec, burn: Dec, total: Dec) -> (r: Result<
    WithdrawResult,
    PoolError,
>)
    ensures
        match r {
            Ok(v) => withdraw_spec(
                xs0.atomics as int,
                xs1.atomics as int,
                burn.atomics as int,
                total.atomics as int,
            ) == Ok::<WithdrawResult, PoolError>(v),
            Err(e) => withdraw_spec(
                xs0.atomics as int,
                xs1.atomics as int,
                burn.atomics as int,
                total.atomics as int,
            ) == Err::<WithdrawResult, PoolError>(e),
        },
{
    if burn.atomics == 0 || total.atomics == 0 {
        return Err(PoolError::InvalidZeroAmount);
    }
    let (r0, r1) = get_share_in_assets(xs0, xs1, burn, total)?;
    let n0 = xs0.checked_sub(r0)?;
    let n1 = xs1.checked_sub(r1)?;
    Ok(WithdrawResult { refund0: r0, refund1: r1, new_reserve0: n0, new_reserve1: n1 })
}

/// A withdrawal within the supply always succeeds, and each refund never
/// exceeds its reserve: burning every share drains at most the pool, never
/// more.
pub proof fn lemma_withdraw_within_supply(xs0: int, xs1: int, burn: int, total: int)
    requires
        0 <= xs0 <= u128::MAX,
        0 <= xs1 <= u128::MAX,
        1 <= burn <= total <= u128::MAX,
    ensures
        withdraw_spec(xs0, xs1, burn, total) is Ok,
        withdraw_spec(xs0, xs1, burn, total)->Ok_0.refund0.atomics <= xs0,
        withdraw_spec(xs0, xs1, burn, total)->Ok_0.refund1.atomics <= xs1,
{
    let one: int = ONE as int;
    let ratio: int = tzdiv(burn * one, total);
    assert(burn * one >= 0) by (nonlinear_arith)
        requires
            burn >= 1,
            one == ONE,
    ;
    assert(ratio == burn * one / total);
    vstd::arithmetic::div_mod::lemma_div_pos_is_pos(burn * one, total);
    assert(burn * one <= total * one) by (nonlinear_arith)
        requires
            burn <= total,
            one == ONE,
    ;
    vstd::arithmetic::div_mod::lemma_div_is_ordered(burn * one, total * one, total);
    vstd::arithmetic::div_mod::lemma_div_multiples_vanish(one, total);
    assert(total * one == total * one);
    assert(total * one / total == one);
    assert(0 <= ratio <= one);
    assert(xs0 * ratio >= 0 && xs1 * ratio >= 0) by (nonlinear_arith)
        requires
            xs0 >= 0,
            xs1 >= 0,
            ratio >= 0,
    ;
    assert(xs0 * ratio <= xs0 * one && xs1 * ratio <= xs1 * one) by (nonlinear_arith)
        requires
            0 <= ratio <= one,
            xs0 >= 0,
            xs1 >= 0,
    ;
    vstd::arithmetic::div_mod::lemma_div_is_ordered(xs0 * ratio, xs0 * one, one);
    vstd::arithmetic::div_mod::lemma_div_is_ordered(xs1 * ratio, xs1 * one, one);
    vstd::arithmetic::div_mod::lemma_div_multiples_vanish(xs0, one);
    vstd::arithmetic::div_mod::lemma_div_multiples_vanish(xs1, one);
    assert(one * xs0 == xs0 * one && one * xs1 == xs1 * one) by (nonlinear_arith);
    assert(xs0 * one / one == xs0);
    assert(xs1 * one / one == xs1);
    vstd::arithmetic::div_mod::lemma_div_pos_is_pos(xs0 * ratio, one);
    vstd::arithmetic::div_mod::lemma_div_pos_is_pos(xs1 * ratio, one);
    assert(tz(xs0 * ratio, one) == xs0 * ratio / one);
    assert(tz(xs1 * ratio, one) == xs1 * ratio / one);
}

/// What a provide mints and leaves behind.
#[derive(Clone, Copy, Debug, PartialEq, Eq, Structural)]
pub struct ProvideResult {
    /// Share minted to the receiver.
    pub minted_share: Dec,
    /// Share burned to the null holder; non-zero only on the first provide.
    pub burned_minimum: Dec,
    /// First reserve after the deposit.
    pub new_reserve0: Dec,
    /// Second reserve after the deposit.
    pub new_reserve1: Dec,
    /// The pool state after the deposit and any price update.
    pub state: CurveState,
    /// The realized slippage, zero when the deposit was near balance.
    pub slippage: Dec,
}

/// The share minted by the first, two-sided deposit: the virtual balanced
/// value of the new reserves less the burned minimum, with the profit
/// accumulators reset to one. Returns
/// `(share, burned, price_state)`.
pub open spec fn provide_empty_spec(st: CurveState, new_d: int) -> Result<
    (int, int, PriceState),
    PoolError,
> {
    let ps: int = st.price_state.price_scale.atomics as int;
    match xcp_spec(new_d, ps) {
        Err(e) => Err(e),
        Ok(xcp) => if xcp < MINIMUM_LIQUIDITY_AMOUNT {
            Err(PoolError::MinimumLiquidityAmountError)
        } else {
            let mint: int = xcp - MINIMUM_LIQUIDITY_AMOUNT;
            if mint == 0 {
                Err(PoolError::MinimumLiquidityAmountError)
            } else {
                Ok(
                    (
                        mint,
                        MINIMUM_LIQUIDITY_AMOUNT as int,
                        PriceState {
                            xcp_profit: Dec { atomics: ONE },
                            xcp_profit_real: Dec { atomics: ONE },
                            ..st.price_state
                        },
                    ),
                )
            }
        },
    }
}

/// The share minted by a deposit on a non-empty pool: the invariant growth
/// ratio applied to the supply, less the provide fee on the deposit's
/// imbalance.
pub open spec fn provide_grown_spec(
    st: CurveState,
    pp: PoolParams,
    amp: int,
    gamma: int,
    new_d: int,
    xs0: int,
    xs1: int,
    d0: int,
    d1: int,
    nr0: int,
    nx1: int,
    total: int,
) -> Result<int, PoolError> {
    let one: int = ONE as int;
    let ps: int = st.price_state.price_scale.atomics as int;
    match ubnd2(tz(xs1 * ps, one)) {
        Err(e) => Err(e),
        Ok(ox1) => match newton_d_spec(xs0, ox1, amp, gamma) {
            Err(e) => Err(e),
            Ok(old_d) => if old_d == 0 {
                Err(PoolError::ArithmeticOverflow)
            } else {
                match ubnd2(tzdiv(total * new_d, old_d)) {
                    Err(e) => Err(e),
                    Ok(share0) => {
                        let growth: int = if share0 >= total {
                            share0 - total
                        } else {
                            0
                        };
                        match ubnd2(tz(d1 * ps, one)) {
                            Err(e) => Err(e),
                            Ok(id1) => if d0 + id1 == 0 {
                                Err(PoolError::InvalidZeroAmount)
                            } else {
                                match provide_fee_spec(d0, id1, nr0, nx1, pp) {
                                    Err(e) => Err(e),
                                    Ok(pf) => if one - pf < 0 {
                                        Err(PoolError::ArithmeticOverflow)
                                    } else {
                                        ubnd2(tz(growth * (one - pf), one))
                                    },
                                }
                            },
                        }
                    },
                }
            },
        },
    }
}

/// The slippage gate and price update shared by both provide paths.
/// Returns the final `(state, slippage)`.
pub open spec fn provide_tail_spec(
    st1: CurveState,
    pp: PoolParams,
    block_time: u64,
    share: int,
    total: int,
    d0: int,
    d1: int,
    nr0: int,
    nx1: int,
    tolerance: Option<Dec>,
) -> Result<(CurveState, int), PoolError> {
    let one: int = ONE as int;
    let ps: int = st1.price_state.price_scale.atomics as int;
    match ubnd2(total + share) {
        Err(e) => Err(e),
        Ok(denom) => if denom == 0 {
            Err(PoolError::InvalidZeroAmount)
        } else {
            match ubnd2(tzdiv(share * one, denom)) {
                Err(e) => Err(e),
                Ok(ratio) => match ubnd2(tz(nr0 * ratio, one)) {
                    Err(e) => Err(e),
                    Ok(bal0) => match ubnd2(tz(nx1 * ratio, one)) {
                        Err(e) => Err(e),
                        Ok(balt) => match ubnd2(tzdiv(balt * one, ps)) {
                            Err(e) => Err(e),
                            Ok(bal1) => {
                                let diff0: int = if d0 >= bal0 {
                                    d0 - bal0
                                } else {
                                    bal0 - d0
                                };
                                let diff1: int = if d1 >= bal1 {
                                    d1 - bal1
                                } else {
                                    bal1 - d1
                                };
                                if diff0 >= MIN_TRADE_SIZE && diff1 >= MIN_TRADE_SIZE {
                                    match slippage_spec(
                                        d0,
                                        d1,
                                        share,
                                        ps,
                                        st1.price_state.xcp_profit_real.atomics as int,
                                        tolerance,
                                    ) {
                                        Err(e) => Err(e),
                                        Ok(sl) => match ubnd2(tzdiv(diff0 * one, diff1)) {
                                            Err(e) => Err(e),
                                            Ok(lp) => match update_price_spec(
                                                st1,
                                                pp,
                                                block_time,
                                                denom,
                                                nr0,
                                                nx1,
                                                Dec { atomics: lp as u128 },
                                            ) {
                                                Err(e) => Err(e),
                                                Ok(nps) => Ok(
                                                    (CurveState { price_state: nps, ..st1 }, sl),
                                                ),
                                            },
                                        },
                                    }
                                } else {
                                    Ok((st1, 0))
                                }
                            },
                        },
                    },
                },
            }
        },
    }
}

/// The whole provide computation over atomic units.
pub open spec fn provide_spec(
    st: CurveState,
    pp: PoolParams,
    block_time: u64,
    xs0: int,
    xs1: int,
    d0: int,
    d1: int,
    total: int,
    tolerance: Option<Dec>,
) -> Result<ProvideResult, PoolError> {
    let one: int = ONE as int;
    let ps: int = st.price_state.price_scale.atomics as int;
    if d0 == 0 && d1 == 0 {
        Err(PoolError::InvalidZeroAmount)
    } else if total == 0 && (d0 == 0 || d1 == 0) {
        Err(PoolError::InvalidZeroAmount)
    } else {
        match ubnd2(xs0 + d0) {
            Err(e) => Err(e),
            Ok(nr0) => match ubnd2(xs1 + d1) {
                Err(e) => Err(e),
                Ok(nr1) => match ubnd2(tz(nr1 * ps, one)) {
                    Err(e) => Err(e),
                    Ok(nx1) => match amp_gamma_at(st, block_time) {
                        Err(e) => Err(e),
                        Ok(ag) => match newton_d_spec(
                            nr0,
                            nx1,
                            ag.amp.atomics as int,
                            ag.gamma.atomics as int,
                        ) {
                            Err(e) => Err(e),
                            Ok(new_d) => {
                                let arm: Result<(int, int, PriceState), PoolError> = if total
                                    == 0 {
                                    provide_empty_spec(st, new_d)
                                } else {
                                    match provide_grown_spec(
                                        st,
                                        pp,
                                        ag.amp.atomics as int,
                                        ag.gamma.atomics as int,
                                        new_d,
                                        xs0,
                                        xs1,
                                        d0,
                                        d1,
                                        nr0,
                                        nx1,
                                        total,
                                    ) {
                                        Err(e) => Err(e),
                                        Ok(share) => Ok((share, 0int, st.price_state)),
                                    }
                                };
                                match arm {
                                    Err(e) => Err(e),
                                    Ok(a) => {
                                        let st1 = CurveState { price_state: a.2, ..st };
                                        match provide_tail_spec(
                                            st1,
                                            pp,
                                            block_time,
                                            a.0,
                                            total,
                                            d0,
                                            d1,
                                            nr0,
                                            nx1,
                                            tolerance,
                                        ) {
                                            Err(e) => Err(e),
                                            Ok(t) => Ok(
                                                ProvideResult {
                                                    minted_share: Dec { atomics: a.0 as u128 },
                                                    burned_minimum: Dec { atomics: a.1 as u128 },
                                                    new_reserve0: Dec { atomics: nr0 as u128 },
                                                    new_reserve1: Dec { atomics: nr1 as u128 },
                                                    state: t.0,
                                                    slippage: Dec { atomics: t.1 as u128 },
                                                },
                                            ),
                                        }
                                    },
                                }
                            },
                        },
                    },
                },
            },
        }
    }
}

/// The executable first-provide arm; exact mirror of
/// [`provide_empty_spec`].
#[verifier::rlimit(100)]
fn provide_empty(st: &CurveState, new_d: Dec) -> (r: Result<(Dec, Dec, PriceState), PoolError>)
    ensures
        match r {
            Ok(v) => provide_empty_spec(*st, new_d.atomics as int) == Ok::<
                (int, int, PriceState),
                PoolError,
            >((v.0.atomics as int, v.1.atomics as int, v.2)),
            Err(e) => provide_empty_spec(*st, new_d.atomics as int) == Err::<
                (int, int, PriceState),
                PoolError,
            >(e),
        },
{
    let xcp = get_xcp(new_d, st.price_state.price_scale)?;
    let mint = match xcp.checked_sub(Dec::raw(MINIMUM_LIQUIDITY_AMOUNT)) {
        Ok(v) => v,
        Err(_) => {
            return Err(PoolError::MinimumLiquidityAmountError);
        },
    };
    if mint.atomics == 0 {
        return Err(PoolError::MinimumLiquidityAmountError);
    }
    let ps1 = PriceState {
        xcp_profit: Dec::one(),
        xcp_profit_real: Dec::one(),
        ..st.price_state
    };
    Ok((mint, Dec::raw(MINIMUM_LIQUIDITY_AMOUNT), ps1))
}

/// The executable grown-pool arm; exact mirror of [`provide_grown_spec`].
#[verifier::rlimit(100)]
fn provide_grown(
    st: &CurveState,
    pp: &PoolParams,
    amp: Dec,
    gamma: Dec,
    new_d: Dec,
    xs0: Dec,
    xs1: Dec,
    d0: Dec,
    d1: Dec,
    nr0: Dec,
    nx1: Dec,
    total: Dec,
) -> (r: Result<Dec, PoolError>)
    ensures
        match r {
            Ok(v) => provide_grown_spec(
                *st,
                *pp,
                amp.atomics as int,
                gamma.atomics as int,
                new_d.atomics as int,
                xs0.atomics as int,
                xs1.atomics as int,
                d0.atomics as int,
                d1.atomics as int,
                nr0.atomics as int,
                nx1.atomics as int,
                total.atomics as int,
            ) == Ok::<int, PoolError>(v.atomics as int),
            Err(e) => provide_grown_spec(
                *st,
                *pp,
                amp.atomics as int,
                gamma.atomics as int,
                new_d.atomics as int,
                xs0.atomics as int,
                xs1.atomics as int,
                d0.atomics as int,
                d1.atomics as int,
                nr0.atomics as int,
                nx1.atomics as int,
                total.atomics as int,
            ) == Err::<int, PoolError>(e),
        },
{
    let ps = st.price_state.price_scale;
    proof {
        lemma_nonneg_mul(xs1.atomics as int, ps.atomics as int);
        lemma_nonneg_mul(d1.atomics as int, ps.atomics as int);
        lemma_nonneg_mul(total.atomics as int, new_d.atomics as int);
    }
    let ox1 = xs1.checked_mul(ps)?;
    let old_d = calc_d(xs0, ox1, amp, gamma)?;
    if old_d.atomics == 0 {
        return Err(PoolError::ArithmeticOverflow);
    }
    let share0 = total.checked_mul_div(new_d, old_d)?;
    let growth = share0.saturating_sub(total);
    let id1 = d1.checked_mul(ps)?;
    if d0.atomics == 0 && id1.atomics == 0 {
        return Err(PoolError::InvalidZeroAmount);
    }
    let pf = calc_provide_fee(d0, id1, nr0, nx1, pp)?;
    let im = Dec::one().checked_sub(pf)?;
    proof {
        lemma_nonneg_mul(growth.atomics as int, im.atomics as int);
    }
    growth.checked_mul(im)
}

/// The executable slippage gate and price update; exact mirror of
/// [`provide_tail_spec`].
#[verifier::rlimit(100)]
fn provide_tail(
    st1: CurveState,
    pp: &PoolParams,
    block_time: u64,
    share: Dec,
    total: Dec,
    d0: Dec,
    d1: Dec,
    nr0: Dec,
    nx1: Dec,
    tolerance: Option<Dec>,
) -> (r: Result<(CurveState, Dec), PoolError>)
    requires
        st1.wf(),
        pp.wf(),
        block_time >= st1.initial_time,
    ensures
        match r {
            Ok(v) => provide_tail_spec(
                st1,
                *pp,
                block_time,
                share.atomics as int,
                total.atomics as int,
                d0.atomics as int,
                d1.atomics as int,
                nr0.atomics as int,
                nx1.atomics as int,
                tolerance,
            ) == Ok::<(CurveState, int), PoolError>((v.0, v.1.atomics as int)),
            Err(e) => provide_tail_spec(
                st1,
                *pp,
                block_time,
                share.atomics as int,
                total.atomics as int,
                d0.atomics as int,
                d1.atomics as int,
                nr0.atomics as int,
                nx1.atomics as int,
                tolerance,
            ) == Err::<(CurveState, int), PoolError>(e),
        },
{
    let ps = st1.price_state.price_scale;
    let denom = total.checked_add(share)?;
    if denom.atomics == 0 {
        return Err(PoolError::InvalidZeroAmount);
    }
    proof {
        lemma_nonneg_mul(share.atomics as int, ONE as int);
    }
    let ratio = share.checked_div(denom)?;
    proof {
        lemma_nonneg_mul(nr0.atomics as int, ratio.atomics as int);
        lemma_nonneg_mul(nx1.atomics as int, ratio.atomics as int);
    }
    let bal0 = nr0.checked_mul(ratio)?;
    let balt = nx1.checked_mul(ratio)?;
    proof {
        lemma_nonneg_mul(balt.atomics as int, ONE as int);
    }
    let bal1 = balt.checked_div(ps)?;
    let diff0 = d0.abs_diff(bal0);
    let diff1 = d1.abs_diff(bal1);
    if diff0.atomics >= MIN_TRADE_SIZE && diff1.atomics >= MIN_TRADE_SIZE {
        let sl = assert_slippage_tolerance(d0, d1, share, &st1.price_state, tolerance)?;
        proof {
            lemma_nonneg_mul(diff0.atomics as int, ONE as int);
        }
        let lp = diff0.checked_div(diff1)?;
        let mut st2 = st1;
        st2.update_price(pp, block_time, denom, nr0, nx1, lp)?;
        Ok((st2, sl))
    } else {
        Ok((st1, Dec::zero()))
    }
}

/// Computes what a deposit mints and how it moves the pool; exact mirror
/// of [`provide_spec`]. The deposits arrive in the pool's asset order and
/// in internal decimals; the reserves are the pre-deposit balances.
#[verifier::rlimit(100)]
pub fn provide_liquidity(
    st: &CurveState,
    pp: &PoolParams,
    block_time: u64,
    xs0: Dec,
    xs1: Dec,
    d0: Dec,
    d1: Dec,
    total: Dec,
    tolerance: Option<Dec>,
) -> (r: Result<ProvideResult, PoolError>)
    requires
        st.wf(),
        pp.wf(),
        block_time >= st.initial_time,
    ensures
        match r {
            Ok(v) => provide_spec(
                *st,
                *pp,
                block_time,
                xs0.atomics as int,
                xs1.atomics as int,
                d0.atomics as int,
                d1.atomics as int,
                total.atomics as int,
                tolerance,
            ) == Ok::<ProvideResult, PoolError>(v),
            Err(e) => provide_spec(
                *st,
                *pp,
                block_time,
                xs0.atomics as int,
                xs1.atomics as int,
                d0.atomics as int,
                d1.atomics as int,
                total.atomics as int,
                tolerance,
            ) == Err::<ProvideResult, PoolError>(e),
        },
{
    if d0.atomics == 0 && d1.atomics == 0 {
        return Err(PoolError::InvalidZeroAmount);
    }
    if total.atomics == 0 && (d0.atomics == 0 || d1.atomics == 0) {
        return Err(PoolError::InvalidZeroAmount);
    }
    let ps = st.price_state.price_scale;
    let nr0 = xs0.checked_add(d0)?;
    let nr1 = xs1.checked_add(d1)?;
    proof {
        lemma_nonneg_mul(nr1.atomics as int, ps.atomics as int);
    }
    let nx1 = nr1.checked_mul(ps)?;
    let ag = st.get_amp_gamma(block_time)?;
    let new_d = calc_d(nr0, nx1, ag.amp, ag.gamma)?;
    let (share, burned, ps1) = if total.atomics == 0 {
        provide_empty(st, new_d)?
    } else {
        let s = provide_grown(st, pp, ag.amp, ag.gamma, new_d, xs0, xs1, d0, d1, nr0, nx1, total)?;
        (s, Dec::zero(), st.price_state)
    };
    let st1 = CurveState { price_state: ps1, ..*st };
    let (st2, sl) = provide_tail(st1, pp, block_time, share, total, d0, d1, nr0, nx1, tolerance)?;
    Ok(
        ProvideResult {
            minted_share: share,
            burned_minimum: burned,
            new_reserve0: nr0,
            new_reserve1: nr1,
            state: st2,
            slippage: sl,
        },
    )
}

} // verus!
