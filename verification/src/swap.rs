//! Swap engine: output amount, spread, and the fee decomposition.
//!
//! A swap solves the invariant for the pre-trade reserves, adds the offer
//! to its side, re-solves the ask side, and takes the difference. The fee
//! rate interpolates between the balanced and imbalanced fee with the
//! post-trade imbalance; the total fee decomposes into the spread retained
//! by the pool, a maker fee, and a revenue-share fee.

use vstd::prelude::*;
use crate::dec::{Dec, ONE, lemma_nonneg_mul};
use crate::sdec::{tz, tzdiv};
use crate::params::{AmpGamma, PoolParams, fee_spec};
use crate::pool::{CurveState, amp_gamma_at, ubnd2};
use crate::math::{newton_d_spec, newton_y_spec, calc_d, calc_y};
use crate::error::PoolError;

verus! {

/// Default spread cap when the caller supplies none (0.05).
pub const DEFAULT_SLIPPAGE: u128 = 50_000_000_000_000_000;

/// Largest spread cap a caller may supply (0.5).
pub const MAX_ALLOWED_SLIPPAGE: u128 = 500_000_000_000_000_000;

/// Smallest trade size that moves the price oracle (10^-9 of a unit);
/// smaller trades settle but skip the price update, so rounding noise
/// cannot drive repegs.
pub const MIN_TRADE_SIZE: u128 = 1_000_000_000;

/// A swap's result: the output and the fee decomposition, all in internal
/// decimals of the ask asset.
#[derive(Clone, Copy, Debug, PartialEq, Eq, Structural)]
pub struct SwapResult {
    /// Output amount after all fees.
    pub dy: Dec,
    /// Spread against the oracle price, retained by the pool.
    pub spread_fee: Dec,
    /// Fee routed to the protocol fee recipient.
    pub maker_fee: Dec,
    /// Fee routed to the configured revenue-share recipient.
    pub share_fee: Dec,
    /// The whole fee taken out of the gross output.
    pub total_fee: Dec,
}

/// The output and the post-trade scaled reserves before fees, as
/// `(dy, spread_fee, post0, post1)`.
pub open spec fn swap_gross_spec(
    st: CurveState,
    block_time: u64,
    xs0: int,
    xs1: int,
    offer: int,
    ask_ind: int,
) -> Result<(int, int, int, int), PoolError> {
    let one: int = ONE as int;
    let ps: int = st.price_state.price_scale.atomics as int;
    let oracle: int = st.price_state.oracle_price.atomics as int;
    match amp_gamma_at(st, block_time) {
        Err(e) => Err(e),
        Ok(ag) => {
            let amp: int = ag.amp.atomics as int;
            let gamma: int = ag.gamma.atomics as int;
            match ubnd2(tz(xs1 * ps, one)) {
                Err(e) => Err(e),
                Ok(ix1) => match newton_d_spec(xs0, ix1, amp, gamma) {
                    Err(e) => Err(e),
                    Ok(cur_d) => if ask_ind == 1 {
                        match ubnd2(xs0 + offer) {
                            Err(e) => Err(e),
                            Ok(nx0) => if nx0 == 0 {
                                Err(PoolError::InvalidZeroAmount)
                            } else {
                                match newton_y_spec(nx0, amp, gamma, cur_d) {
                                    Err(e) => Err(e),
                                    Ok(new_y) => if ix1 - new_y < 0 {
                                        Err(PoolError::ArithmeticOverflow)
                                    } else {
                                        match ubnd2(tzdiv((ix1 - new_y) * one, ps)) {
                                            Err(e) => Err(e),
                                            Ok(dy) => match ubnd2(tzdiv(offer * one, oracle)) {
                                                Err(e) => Err(e),
                                                Ok(t) => Ok(
                                                    (
                                                        dy,
                                                        if t >= dy {
                                                            t - dy
                                                        } else {
                                                            0
                                                        },
                                                        nx0,
                                                        new_y,
                                                    ),
                                                ),
                                            },
                                        }
                                    },
                                }
                            },
                        }
                    } else {
                        match ubnd2(tz(offer * ps, one)) {
                            Err(e) => Err(e),
                            Ok(offs) => match ubnd2(ix1 + offs) {
                                Err(e) => Err(e),
                                Ok(nx1) => if nx1 == 0 {
                                    Err(PoolError::InvalidZeroAmount)
                                } else {
                                    match newton_y_spec(nx1, amp, gamma, cur_d) {
                                        Err(e) => Err(e),
                                        Ok(new_y) => if xs0 - new_y < 0 {
                                            Err(PoolError::ArithmeticOverflow)
                                        } else {
                                            match ubnd2(tz(offer * oracle, one)) {
                                                Err(e) => Err(e),
                                                Ok(t) => Ok(
                                                    (
                                                        xs0 - new_y,
                                                        if t >= xs0 - new_y {
                                                            t - (xs0 - new_y)
                                                        } else {
                                                            0
                                                        },
                                                        new_y,
                                                        nx1,
                                                    ),
                                                ),
                                            }
                                        },
                                    }
                                },
                            },
                        }
                    },
                },
            }
        },
    }
}

/// The fee decomposition over the gross output, as
/// `(dy, maker_fee, share_fee, total_fee)`.
pub open spec fn swap_fees_spec(
    dy: int,
    post0: int,
    post1: int,
    pp: PoolParams,
    maker_fee_share: int,
    share_fee_share: int,
) -> Result<(int, int, int, int), PoolError> {
    let one: int = ONE as int;
    match fee_spec(
        post0,
        post1,
        pp.mid_fee.atomics as int,
        pp.out_fee.atomics as int,
        pp.fee_gamma.atomics as int,
    ) {
        Err(e) => Err(e),
        Ok(fee_rate) => match ubnd2(tz(fee_rate * dy, one)) {
            Err(e) => Err(e),
            Ok(total) => if dy - total < 0 {
                Err(PoolError::ArithmeticOverflow)
            } else {
                match ubnd2(tz(total * share_fee_share, one)) {
                    Err(e) => Err(e),
                    Ok(share) => if total - share < 0 {
                        Err(PoolError::ArithmeticOverflow)
                    } else {
                        match ubnd2(tz((total - share) * maker_fee_share, one)) {
                            Err(e) => Err(e),
                            Ok(maker) => Ok((dy - total, maker, share, total)),
                        }
                    },
                }
            },
        },
    }
}

/// The whole swap computation over atomic units.
pub open spec fn compute_swap_spec(
    st: CurveState,
    pp: PoolParams,
    block_time: u64,
    xs0: int,
    xs1: int,
    offer: int,
    ask_ind: int,
    maker_fee_share: int,
    share_fee_share: int,
) -> Result<SwapResult, PoolError> {
    match swap_gross_spec(st, block_time, xs0, xs1, offer, ask_ind) {
        Err(e) => Err(e),
        Ok(g) => match swap_fees_spec(g.0, g.2, g.3, pp, maker_fee_share, share_fee_share) {
            Err(e) => Err(e),
            Ok(f) => Ok(
                SwapResult {
                    dy: Dec { atomics: f.0 as u128 },
                    spread_fee: Dec { atomics: g.1 as u128 },
                    maker_fee: Dec { atomics: f.1 as u128 },
                    share_fee: Dec { atomics: f.2 as u128 },
                    total_fee: Dec { atomics: f.3 as u128 },
                },
            ),
        },
    }
}

/// The executable gross swap; exact mirror of [`swap_gross_spec`].
#[verifier::rlimit(100)]
fn swap_gross(st: &CurveState, block_time: u64, xs0: Dec, xs1: Dec, offer: Dec, ask_ind: usize) -> (r:
    Result<(Dec, Dec, Dec, Dec), PoolError>)
    requires
        st.wf(),
        block_time >= st.initial_time,
        st.price_state.oracle_price.atomics > 0,
        ask_ind <= 1,
    ensures
        match r {
            Ok(v) => swap_gross_spec(
                *st,
                block_time,
                xs0.atomics as int,
                xs1.atomics as int,
                offer.atomics as int,
                ask_ind as int,
            ) == Ok::<(int, int, int, int), PoolError>(
                (v.0.atomics as int, v.1.atomics as int, v.2.atomics as int, v.3.atomics as int),
            ),
            Err(e) => swap_gross_spec(
                *st,
                block_time,
                xs0.atomics as int,
                xs1.atomics as int,
                offer.atomics as int,
                ask_ind as int,
            ) == Err::<(int, int, int, int), PoolError>(e),
        },
{
    let ps = st.price_state.price_scale;
    let oracle = st.price_state.oracle_price;
    let ag = st.get_amp_gamma(block_time)?;
    proof {
        lemma_nonneg_mul(xs1.atomics as int, ps.atomics as int);
        lemma_nonneg_mul(offer.atomics as int, ps.atomics as int);
        lemma_nonneg_mul(offer.atomics as int, oracle.atomics as int);
        lemma_nonneg_mul(offer.atomics as int, ONE as int);
    }
    let ix1 = xs1.checked_mul(ps)?;
    let cur_d = calc_d(xs0, ix1, ag.amp, ag.gamma)?;
    if ask_ind == 1 {
        let nx0 = xs0.checked_add(offer)?;
        if nx0.atomics == 0 {
            return Err(PoolError::InvalidZeroAmount);
        }
        let new_y = calc_y(nx0, cur_d, ag.amp, ag.gamma)?;
        let dy0 = ix1.checked_sub(new_y)?;
        proof {
            lemma_nonneg_mul(dy0.atomics as int, ONE as int);
        }
        let dy = dy0.checked_div(ps)?;
        let t = offer.checked_div(oracle)?;
        Ok((dy, t.saturating_sub(dy), nx0, new_y))
    } else {
        let offs = offer.checked_mul(ps)?;
        let nx1 = ix1.checked_add(offs)?;
        if nx1.atomics == 0 {
            return Err(PoolError::InvalidZeroAmount);
        }
        let new_y = calc_y(nx1, cur_d, ag.amp, ag.gamma)?;
        let dy = xs0.checked_sub(new_y)?;
        let t = offer.checked_mul(oracle)?;
        Ok((dy, t.saturating_sub(dy), new_y, nx1))
    }
}

/// The executable fee decomposition; exact mirror of [`swap_fees_spec`].
#[verifier::rlimit(100)]
fn swap_fees(dy: Dec, post0: Dec, post1: Dec, pp: &PoolParams, maker_fee_share: Dec, share_fee_share: Dec) -> (r:
    Result<(Dec, Dec, Dec, Dec), PoolError>)
    ensures
        match r {
            Ok(v) => swap_fees_spec(
                dy.atomics as int,
                post0.atomics as int,
                post1.atomics as int,
                *pp,
                maker_fee_share.atomics as int,
                share_fee_share.atomics as int,
            ) == Ok::<(int, int, int, int), PoolError>(
                (v.0.atomics as int, v.1.atomics as int, v.2.atomics as int, v.3.atomics as int),
            ),
            Err(e) => swap_fees_spec(
                dy.atomics as int,
                post0.atomics as int,
                post1.atomics as int,
                *pp,
                maker_fee_share.atomics as int,
                share_fee_share.atomics as int,
            ) == Err::<(int, int, int, int), PoolError>(e),
        },
{
    let fee_rate = pp.fee(post0, post1)?;
    proof {
        lemma_nonneg_mul(fee_rate.atomics as int, dy.atomics as int);
        lemma_nonneg_mul(dy.atomics as int, share_fee_share.atomics as int);
    }
    let total = fee_rate.checked_mul(dy)?;
    let dy2 = dy.checked_sub(total)?;
    proof {
        lemma_nonneg_mul(total.atomics as int, share_fee_share.atomics as int);
    }
    let share = total.checked_mul(share_fee_share)?;
    let mk0 = total.checked_sub(share)?;
    proof {
        lemma_nonneg_mul(mk0.atomics as int, maker_fee_share.atomics as int);
    }
    let maker = mk0.checked_mul(maker_fee_share)?;
    Ok((dy2, maker, share, total))
}

/// Computes a swap's output, spread, and fee decomposition from the
/// unscaled reserves `(xs0, xs1)`; exact mirror of [`compute_swap_spec`].
pub fn compute_swap(
    st: &CurveState,
    pp: &PoolParams,
    block_time: u64,
    xs0: Dec,
    xs1: Dec,
    offer: Dec,
    ask_ind: usize,
    maker_fee_share: Dec,
    share_fee_share: Dec,
) -> (r: Result<SwapResult, PoolError>)
    requires
        st.wf(),
        block_time >= st.initial_time,
        st.price_state.oracle_price.atomics > 0,
        ask_ind <= 1,
    ensures
        match r {
            Ok(v) => compute_swap_spec(
                *st,
                *pp,
                block_time,
                xs0.atomics as int,
                xs1.atomics as int,
                offer.atomics as int,
                ask_ind as int,
                maker_fee_share.atomics as int,
                share_fee_share.atomics as int,
            ) == Ok::<SwapResult, PoolError>(v),
            Err(e) => compute_swap_spec(
                *st,
                *pp,
                block_time,
                xs0.atomics as int,
                xs1.atomics as int,
                offer.atomics as int,
                ask_ind as int,
                maker_fee_share.atomics as int,
                share_fee_share.atomics as int,
            ) == Err::<SwapResult, PoolError>(e),
        },
{
    let (dy, spread, post0, post1) = swap_gross(st, block_time, xs0, xs1, offer, ask_ind)?;
    let (dy2, maker, share, total) = swap_fees(dy, post0, post1, pp, maker_fee_share, share_fee_share)?;
    Ok(SwapResult { dy: dy2, spread_fee: spread, maker_fee: maker, share_fee: share, total_fee: total })
}

impl SwapResult {
    /// The trade price this swap realized, for the repeg logic: output
    /// before maker and share fees over input, oriented first-over-second.
    pub fn calc_last_price(&self, offer_amount: Dec, offer_ind: usize) -> (r: Result<
        Dec,
        PoolError,
    >)
        requires
            offer_ind <= 1,
        ensures
            match r {
                Ok(v) => last_price_spec(*self, offer_amount.atomics as int, offer_ind as int)
                    == Ok::<int, PoolError>(v.atomics as int),
                Err(e) => last_price_spec(*self, offer_amount.atomics as int, offer_ind as int)
                    == Err::<int, PoolError>(e),
            },
    {
        let g1 = self.dy.checked_add(self.maker_fee)?;
        let gross = g1.checked_add(self.share_fee)?;
        if offer_ind == 0 {
            if gross.atomics == 0 {
                return Err(PoolError::ArithmeticOverflow);
            }
            proof {
                lemma_nonneg_mul(offer_amount.atomics as int, ONE as int);
            }
            offer_amount.checked_div(gross)
        } else {
            if offer_amount.atomics == 0 {
                return Err(PoolError::ArithmeticOverflow);
            }
            proof {
                lemma_nonneg_mul(gross.atomics as int, ONE as int);
            }
            gross.checked_div(offer_amount)
        }
    }
}

/// The realized trade price: output before maker and share fees over
/// input, oriented so the price is of the first asset in the second.
pub open spec fn last_price_spec(sr: SwapResult, offer: int, offer_ind: int) -> Result<
    int,
    PoolError,
> {
    let one: int = ONE as int;
    match ubnd2(sr.dy.atomics + sr.maker_fee.atomics) {
        Err(e) => Err(e),
        Ok(g1) => match ubnd2(g1 + sr.share_fee.atomics) {
            Err(e) => Err(e),
            Ok(gross) => if offer_ind == 0 {
                if gross == 0 {
                    Err(PoolError::ArithmeticOverflow)
                } else {
                    ubnd2(tzdiv(offer * one, gross))
                }
            } else {
                if offer == 0 {
                    Err(PoolError::ArithmeticOverflow)
                } else {
                    ubnd2(tzdiv(gross * one, offer))
                }
            },
        },
    }
}

/// Rejects a swap whose realized spread exceeds the caller's cap, either
/// against the caller's belief price or against the swap's own spread; the
/// cap itself may not exceed [`MAX_ALLOWED_SLIPPAGE`]. Amounts are raw
/// integers of the ask asset.
pub fn assert_max_spread(
    belief_price: Option<Dec>,
    max_spread: Option<Dec>,
    offer_amount: u128,
    return_amount: u128,
    spread_amount: u128,
) -> (r: Result<(), PoolError>)
    ensures
        match r {
            Ok(()) => max_spread_spec(
                belief_price,
                max_spread,
                offer_amount as int,
                return_amount as int,
                spread_amount as int,
            ) == Ok::<(), PoolError>(()),
            Err(e) => max_spread_spec(
                belief_price,
                max_spread,
                offer_amount as int,
                return_amount as int,
                spread_amount as int,
            ) == Err::<(), PoolError>(e),
        },
{
    let cap = match max_spread {
        Some(v) => v,
        None => Dec::raw(DEFAULT_SLIPPAGE),
    };
    if cap.atomics > MAX_ALLOWED_SLIPPAGE {
        return Err(PoolError::ExcessiveSpread);
    }
    match belief_price {
        Some(bp) => {
            if bp.atomics == 0 {
                return Err(PoolError::IncorrectPoolParam);
            }
            let inv = Dec::one().checked_div(bp)?;
            proof {
                lemma_nonneg_mul(offer_amount as int, inv.atomics as int);
            }
            match crate::wide::mul_div_floor(offer_amount, inv.atomics, ONE) {
                Some(expected) => {
                    if return_amount < expected {
                        let short: u128 = expected - return_amount;
                        let ratio = Dec::from_ratio(short, expected)?;
                        if ratio.atomics > cap.atomics {
                            return Err(PoolError::ExcessiveSpread);
                        }
                    }
                    Ok(())
                },
                None => Err(PoolError::ArithmeticOverflow),
            }
        },
        None => {
            let denom = match return_amount.checked_add(spread_amount) {
                Some(v) => v,
                None => {
                    return Err(PoolError::ArithmeticOverflow);
                },
            };
            if denom == 0 {
                return Ok(());
            }
            let ratio = Dec::from_ratio(spread_amount, denom)?;
            if ratio.atomics > cap.atomics {
                return Err(PoolError::ExcessiveSpread);
            }
            Ok(())
        },
    }
}

/// The spread check over atomic units: with a belief price the shortfall
/// against the expected return is bounded; without one the spread share of
/// the gross output is bounded.
pub open spec fn max_spread_spec(
    belief_price: Option<Dec>,
    max_spread: Option<Dec>,
    offer: int,
    ret: int,
    spread: int,
) -> Result<(), PoolError> {
    let one: int = ONE as int;
    let cap: int = if max_spread is Some {
        max_spread->0.atomics as int
    } else {
        DEFAULT_SLIPPAGE as int
    };
    if cap > MAX_ALLOWED_SLIPPAGE {
        Err(PoolError::ExcessiveSpread)
    } else {
        match belief_price {
            Some(bp) => if bp.atomics == 0 {
                Err(PoolError::IncorrectPoolParam)
            } else {
                match ubnd2(tzdiv(one * one, bp.atomics as int)) {
                    Err(e) => Err(e),
                    Ok(inv) => if offer * inv / one > u128::MAX {
                        Err(PoolError::ArithmeticOverflow)
                    } else {
                        let expected: int = offer * inv / one;
                        if ret < expected {
                            match ubnd2(tzdiv((expected - ret) * one, expected)) {
                                Err(e) => Err(e),
                                Ok(ratio) => if ratio > cap {
                                    Err(PoolError::ExcessiveSpread)
                                } else {
                                    Ok(())
                                },
                            }
                        } else {
                            Ok(())
                        }
                    },
                }
            },
            None => if ret + spread > u128::MAX {
                Err(PoolError::ArithmeticOverflow)
            } else if ret + spread == 0 {
                Ok(())
            } else {
                match ubnd2(tzdiv(spread * one, ret + spread)) {
                    Err(e) => Err(e),
                    Ok(ratio) => if ratio > cap {
                        Err(PoolError::ExcessiveSpread)
                    } else {
                        Ok(())
                    },
                }
            },
        }
    }
}

/// Rejects a swap before any computation: the offer must be non-zero and
/// both reserves present. Returns `InvalidZeroAmount` exactly on those
/// inputs.
pub fn before_swap_check(x0: Dec, x1: Dec, offer: Dec) -> (r: Result<(), PoolError>)
    ensures
        r is Ok <==> (offer.atomics > 0 && x0.atomics > 0 && x1.atomics > 0),
        r is Err ==> r == Err::<(), PoolError>(PoolError::InvalidZeroAmount),
{
    if offer.atomics == 0 {
        return Err(PoolError::InvalidZeroAmount);
    }
    if x0.atomics == 0 || x1.atomics == 0 {
        return Err(PoolError::InvalidZeroAmount);
    }
    Ok(())
}

} // verus!
