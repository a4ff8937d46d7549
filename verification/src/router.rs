//! Multi-hop router: path validation, single-hop settlement, and the
//! atomic swap chain.
//!
//! A chain is a sequence of single-pool swaps, each hop's output becoming
//! the next hop's input. Every hop settles against the registry; if any
//! hop fails, or the end-to-end minimum receive is not met, the whole
//! chain's effects are rolled back and the registry is left exactly as it
//! was.

use vstd::prelude::*;
use crate::dec::{Dec, ONE, spec_pow10, lemma_nonneg_mul};
use crate::sdec::tz;
use crate::pool::{CurveState, update_price_spec};
use crate::manager::{PairKey, PoolManager, PoolSlot, PoolState, pair_key};
use crate::swap::{
    SwapResult, compute_swap, compute_swap_spec, last_price_spec, max_spread_spec,
    assert_max_spread, MIN_TRADE_SIZE,
};
use crate::error::PoolError;

verus! {

/// The most hops one chain may take.
pub const MAX_SWAP_OPERATIONS: usize = 50;

/// One requested hop of a chain.
#[derive(Clone, Copy, Debug, PartialEq, Eq, Structural)]
pub enum SwapOperation {
    /// A swap through a pool of this engine.
    Pool { offer_asset_info: u64, ask_asset_info: u64 },
    /// A direct native-to-native conversion, which the engine does not
    /// perform.
    Native { offer_denom: u64, ask_denom: u64 },
}

impl SwapOperation {
    /// The asset the hop pays out.
    pub fn get_target_asset_info(&self) -> (r: u64)
        ensures
            r == match *self {
                SwapOperation::Pool { ask_asset_info, .. } => ask_asset_info,
                SwapOperation::Native { ask_denom, .. } => ask_denom,
            },
    {
        match self {
            SwapOperation::Pool { ask_asset_info, .. } => *ask_asset_info,
            SwapOperation::Native { ask_denom, .. } => *ask_denom,
        }
    }
}

/// The per-hop validation walk: native hops, self-trades, a hop that
/// reverses its predecessor, and adjacent hops that do not share an asset
/// are rejected. `prev` carries the previous hop's offer and ask assets.
pub open spec fn assert_ops_rec(ops: Seq<SwapOperation>, prev: Option<(u64, u64)>) -> Result<
    (),
    PoolError,
>
    decreases ops.len(),
{
    if ops.len() == 0 {
        Ok(())
    } else {
        match ops[0] {
            SwapOperation::Native { .. } => Err(PoolError::NativeSwapUnsupported),
            SwapOperation::Pool { offer_asset_info, ask_asset_info } => {
                if offer_asset_info == ask_asset_info {
                    Err(PoolError::DoublingAssetsPath)
                } else if prev is Some && (prev->0).1 != offer_asset_info {
                    Err(PoolError::InvalidPathOperations)
                } else if prev is Some && (prev->0).0 == ask_asset_info {
                    Err(PoolError::DoublingAssetsPath)
                } else {
                    assert_ops_rec(
                        ops.subrange(1, ops.len() as int),
                        Some((offer_asset_info, ask_asset_info)),
                    )
                }
            },
        }
    }
}

/// The whole validation: a chain must have one to [`MAX_SWAP_OPERATIONS`]
/// hops and pass the per-hop walk.
pub open spec fn assert_ops_spec(ops: Seq<SwapOperation>) -> Result<(), PoolError> {
    if ops.len() == 0 {
        Err(PoolError::InvalidPathOperations)
    } else if ops.len() > MAX_SWAP_OPERATIONS {
        Err(PoolError::InvalidPathOperations)
    } else {
        assert_ops_rec(ops, None)
    }
}

/// A sequence of hops is a valid path: non-empty, within the length cap,
/// every hop a pool swap of two distinct assets, each hop's ask asset the
/// next hop's offer asset, and no hop reversing its predecessor.
pub open spec fn valid_path(ops: Seq<SwapOperation>) -> bool {
    &&& 1 <= ops.len() <= MAX_SWAP_OPERATIONS
&&& forall|i: int| 0 <= i < ops.len() ==> (#[trigger] ops[i]) is Pool
&&& forall|i: int|
    0 <= i < ops.len() ==> (#[trigger] ops[i])->Pool_offer_asset_info != ops[i]->Pool_ask_asset_info
&&& forall|i: int|
    1 <= i < ops.len() ==> (#[trigger] ops[i])->Pool_offer_asset_info == ops[i
        - 1]->Pool_ask_asset_info
&&& forall|i: int|
    1 <= i < ops.len() ==> (#[trigger] ops[i])->Pool_ask_asset_info != ops[i
        - 1]->Pool_offer_asset_info
}

/// The validation walk accepts a suffix exactly when every hop in it is a
/// distinct-asset pool swap chained to its predecessor.
proof fn lemma_ops_rec_ok(ops: Seq<SwapOperation>, prev: Option<(u64, u64)>)
    ensures
        assert_ops_rec(ops, prev) is Ok <==> ((forall|i: int|
            0 <= i < ops.len() ==> (#[trigger] ops[i]) is Pool) && (forall|i: int|
            0 <= i < ops.len() ==> (#[trigger] ops[i])->Pool_offer_asset_info
                != ops[i]->Pool_ask_asset_info) && (forall|i: int|
            1 <= i < ops.len() ==> (#[trigger] ops[i])->Pool_offer_asset_info == ops[i
                - 1]->Pool_ask_asset_info) && (forall|i: int|
            1 <= i < ops.len() ==> (#[trigger] ops[i])->Pool_ask_asset_info != ops[i
                - 1]->Pool_offer_asset_info) && (ops.len() > 0 && prev is Some ==> ((prev->0).1
            == ops[0]->Pool_offer_asset_info && (prev->0).0 != ops[0]->Pool_ask_asset_info))),
    decreases ops.len(),
{
    if ops.len() > 0 {
        let tail = ops.subrange(1, ops.len() as int);
        match ops[0] {
            SwapOperation::Native { .. } => {},
            SwapOperation::Pool { offer_asset_info, ask_asset_info } => {
                lemma_ops_rec_ok(tail, Some((offer_asset_info, ask_asset_info)));
                assert(forall|i: int| 1 <= i < ops.len() ==> #[trigger] ops[i] == tail[i - 1]);
                if assert_ops_rec(ops, prev) is Ok {
                    assert(forall|i: int|
                        0 <= i < ops.len() ==> (#[trigger] ops[i]) is Pool) by {
                        assert(forall|i: int|
                            0 <= i < tail.len() ==> (#[trigger] tail[i]) is Pool);
                    }
                }
            },
        }
    }
}

/// A chain passes validation exactly when it is a valid path.
pub proof fn lemma_path_validation(ops: Seq<SwapOperation>)
    ensures
        assert_ops_spec(ops) is Ok <==> valid_path(ops),
{
    if 1 <= ops.len() <= MAX_SWAP_OPERATIONS {
        lemma_ops_rec_ok(ops, None);
    }
}

/// Validates a hop sequence; exact mirror of [`assert_ops_spec`].
pub fn assert_operations(operations: &Vec<SwapOperation>) -> (r: Result<(), PoolError>)
    ensures
        r == assert_ops_spec(operations@),
        r is Ok <==> valid_path(operations@),
{
    proof {
        lemma_path_validation(operations@);
    }
    if operations.len() == 0 {
        return Err(PoolError::InvalidPathOperations);
    }
    if operations.len() > MAX_SWAP_OPERATIONS {
        return Err(PoolError::InvalidPathOperations);
    }
    let mut prev: Option<(u64, u64)> = None;
    let mut i: usize = 0;
    proof {
        assert(operations@.subrange(0, operations@.len() as int) =~= operations@);
    }
    while i < operations.len()
        invariant
            i <= operations@.len(),
            1 <= operations@.len() <= MAX_SWAP_OPERATIONS,
            assert_ops_spec(operations@) == assert_ops_rec(operations@, None),
            assert_ops_spec(operations@) is Ok <==> valid_path(operations@),
            assert_ops_rec(operations@, None) == assert_ops_rec(
                operations@.subrange(i as int, operations@.len() as int),
                prev,
            ),
        decreases operations@.len() - i,
    {
        let ghost pre = operations@.subrange(i as int, operations@.len() as int);
        match operations[i] {
            SwapOperation::Native { .. } => {
                proof {
                    assert(pre[0] == operations@[i as int]);
                }
                return Err(PoolError::NativeSwapUnsupported);
            },
            SwapOperation::Pool { offer_asset_info, ask_asset_info } => {
                proof {
                    assert(pre[0] == operations@[i as int]);
                }
                if offer_asset_info == ask_asset_info {
                    return Err(PoolError::DoublingAssetsPath);
                }
                match prev {
                    Some(p) => {
                        if p.1 != offer_asset_info {
                            return Err(PoolError::InvalidPathOperations);
                        }
                        if p.0 == ask_asset_info {
                            return Err(PoolError::DoublingAssetsPath);
                        }
                    },
                    None => {},
                }
                proof {
                    assert(pre.subrange(1, pre.len() as int) =~= operations@.subrange(
                        i + 1,
                        operations@.len() as int,
                    ));
                }
                prev = Some((offer_asset_info, ask_asset_info));
            },
        }
        i = i + 1;
    }
    proof {
        assert(operations@.subrange(
            operations@.len() as int,
            operations@.len() as int,
        ).len() == 0);
    }
    Ok(())
}

/// A settled swap: the raw amounts leaving the pool and the pool record
/// after the trade.
#[derive(Clone, Copy, Debug, PartialEq, Eq, Structural)]
pub struct SwapSettlement {
    /// Output paid to the receiver, raw integer of the ask asset.
    pub return_amount: u128,
    /// Spread against the oracle price, raw integer of the ask asset.
    pub spread_amount: u128,
    /// Fee paid to the protocol fee recipient, raw integer.
    pub maker_fee_amount: u128,
    /// Fee paid to the revenue-share recipient, raw integer.
    pub share_fee_amount: u128,
    /// The pool after the trade.
    pub state: PoolState,
}

/// The offer side of a pool for an offer asset: 0, 1, or no side at all.
pub open spec fn offer_side(pool: PoolState, offer_asset: u64) -> Result<int, PoolError> {
    if offer_asset == pool.asset0 {
        Ok(0int)
    } else if offer_asset == pool.asset1 {
        Ok(1int)
    } else {
        Err(PoolError::InvalidAsset)
    }
}

/// The settlement tail: the new reserves and the gated price update, as
/// the pool record after the trade.
pub open spec fn settle_tail_spec(
    pool: PoolState,
    block_time: u64,
    offer_ind: int,
    offer_dec: int,
    sr: SwapResult,
) -> Result<PoolState, PoolError> {
    let one: int = ONE as int;
    let ps: int = pool.curve.price_state.price_scale.atomics as int;
    match crate::pool::ubnd2(sr.dy.atomics + sr.maker_fee.atomics) {
        Err(e) => Err(e),
        Ok(o1) => match crate::pool::ubnd2(o1 + sr.share_fee.atomics) {
            Err(e) => Err(e),
            Ok(out_tot) => {
                let (inr, outr): (int, int) = if offer_ind == 0 {
                    (pool.reserve0.atomics as int, pool.reserve1.atomics as int)
                } else {
                    (pool.reserve1.atomics as int, pool.reserve0.atomics as int)
                };
                match crate::pool::ubnd2(inr + offer_dec) {
                    Err(e) => Err(e),
                    Ok(nin) => if outr - out_tot < 0 {
                        Err(PoolError::ArithmeticOverflow)
                    } else {
                        let nout: int = outr - out_tot;
                        let (nr0, nr1): (int, int) = if offer_ind == 0 {
                            (nin, nout)
                        } else {
                            (nout, nin)
                        };
                        if out_tot >= MIN_TRADE_SIZE && offer_dec >= MIN_TRADE_SIZE {
                            match last_price_spec(sr, offer_dec, offer_ind) {
                                Err(e) => Err(e),
                                Ok(lp) => match crate::pool::ubnd2(tz(nr1 * ps, one)) {
                                    Err(e) => Err(e),
                                    Ok(nx1) => match update_price_spec(
                                        pool.curve,
                                        pool.params,
                                        block_time,
                                        pool.total_share_supply.atomics as int,
                                        nr0,
                                        nx1,
                                        Dec { atomics: lp as u128 },
                                    ) {
                                        Err(e) => Err(e),
                                        Ok(nps) => Ok(
                                            PoolState {
                                                reserve0: Dec { atomics: nr0 as u128 },
                                                reserve1: Dec { atomics: nr1 as u128 },
                                                curve: CurveState {
                                                    price_state: nps,
                                                    ..pool.curve
                                                },
                                                ..pool
                                            },
                                        ),
                                    },
                                },
                            }
                        } else {
                            Ok(
                                PoolState {
                                    reserve0: Dec { atomics: nr0 as u128 },
                                    reserve1: Dec { atomics: nr1 as u128 },
                                    ..pool
                                },
                            )
                        }
                    },
                }
            },
        },
    }
}

/// The whole single-hop settlement over atomic units.
#[verifier::opaque]
pub open spec fn settle_spec(
    pool: PoolState,
    offer_asset: u64,
    offer_amount: int,
    belief_price: Option<Dec>,
    max_spread: Option<Dec>,
    block_time: u64,
) -> Result<SwapSettlement, PoolError> {
    match offer_side(pool, offer_asset) {
        Err(e) => Err(e),
        Ok(offer_ind) => {
            let offer_prec: int = if offer_ind == 0 {
                pool.precision0 as int
            } else {
                pool.precision1 as int
            };
            let ask_prec: int = if offer_ind == 0 {
                pool.precision1 as int
            } else {
                pool.precision0 as int
            };
            match crate::pool::ubnd2(offer_amount * spec_pow10((18 - offer_prec) as nat)) {
                Err(e) => Err(e),
                Ok(offer_dec) => if !(offer_dec > 0 && pool.reserve0.atomics > 0
                    && pool.reserve1.atomics > 0) {
                    Err(PoolError::InvalidZeroAmount)
                } else {
                    match compute_swap_spec(
                        pool.curve,
                        pool.params,
                        block_time,
                        pool.reserve0.atomics as int,
                        pool.reserve1.atomics as int,
                        offer_dec,
                        1 - offer_ind,
                        pool.maker_fee_share.atomics as int,
                        pool.share_fee_share.atomics as int,
                    ) {
                        Err(e) => Err(e),
                        Ok(sr) => {
                            let ret: int = sr.dy.atomics as int / spec_pow10((18 - ask_prec) as nat);
                            let spr: int = sr.spread_fee.atomics as int / spec_pow10(
                                (18 - ask_prec) as nat,
                            );
                            match max_spread_spec(
                                belief_price,
                                max_spread,
                                offer_amount,
                                ret,
                                spr,
                            ) {
                                Err(e) => Err(e),
                                Ok(()) => match settle_tail_spec(
                                    pool,
                                    block_time,
                                    offer_ind,
                                    offer_dec,
                                    sr,
                                ) {
                                    Err(e) => Err(e),
                                    Ok(np) => Ok(
                                        SwapSettlement {
                                            return_amount: ret as u128,
                                            spread_amount: spr as u128,
                                            maker_fee_amount: (sr.maker_fee.atomics as int
                                                / spec_pow10((18 - ask_prec) as nat)) as u128,
                                            share_fee_amount: (sr.share_fee.atomics as int
                                                / spec_pow10((18 - ask_prec) as nat)) as u128,
                                            state: np,
                                        },
                                    ),
                                },
                            }
                        },
                    }
                },
            }
        },
    }
}

impl PoolState {
    /// Whether the record satisfies its well-formedness conditions, plus
    /// the operational conditions a settlement needs: a positive oracle
    /// price and a positive share supply.
    pub fn ready_for_swap(&self, block_time: u64) -> (r: bool)
        ensures
            r == (self.wf() && self.curve.price_state.oracle_price.atomics > 0
                && self.total_share_supply.atomics > 0 && block_time >= self.curve.initial_time),
    {
        self.asset0 != self.asset1 && self.precision0 <= crate::dec::MAX_PRECISION
            && self.precision1 <= crate::dec::MAX_PRECISION && self.curve.initial_time
            <= self.curve.future_time && self.curve.price_state.price_scale.atomics > 0
            && self.params.mid_fee.atomics >= crate::params::MIN_FEE && self.params.mid_fee.atomics
            <= crate::params::MAX_FEE && self.params.out_fee.atomics >= crate::params::MIN_FEE
            && self.params.out_fee.atomics <= crate::params::MAX_FEE
            && self.params.out_fee.atomics > self.params.mid_fee.atomics
            && self.params.fee_gamma.atomics <= crate::params::FEE_GAMMA_MAX
            && self.params.repeg_profit_threshold.atomics
            <= crate::params::REPEG_PROFIT_THRESHOLD_MAX && self.params.min_price_scale_delta.atomics
            <= crate::params::PRICE_SCALE_DELTA_MAX && self.params.ma_half_time
            >= crate::params::MA_HALF_TIME_MIN && self.params.ma_half_time
            <= crate::params::MA_HALF_TIME_MAX && self.maker_fee_share.atomics <= crate::dec::ONE
            && self.share_fee_share.atomics <= crate::dec::ONE
            && self.curve.price_state.oracle_price.atomics > 0 && self.total_share_supply.atomics
            > 0 && block_time >= self.curve.initial_time
    }
}

/// Settles one swap against a pool record; exact mirror of
/// [`settle_spec`]. The pool record is returned updated; nothing is
/// persisted here.
#[verifier::rlimit(100)]
pub fn swap(
    pool: &PoolState,
    offer_asset: u64,
    offer_amount: u128,
    belief_price: Option<Dec>,
    max_spread: Option<Dec>,
    block_time: u64,
) -> (r: Result<SwapSettlement, PoolError>)
    requires
        pool.wf(),
        pool.curve.price_state.oracle_price.atomics > 0,
        pool.total_share_supply.atomics > 0,
        block_time >= pool.curve.initial_time,
    ensures
        match r {
            Ok(v) => settle_spec(
                *pool,
                offer_asset,
                offer_amount as int,
                belief_price,
                max_spread,
                block_time,
            ) == Ok::<SwapSettlement, PoolError>(v),
            Err(e) => settle_spec(
                *pool,
                offer_asset,
                offer_amount as int,
                belief_price,
                max_spread,
                block_time,
            ) == Err::<SwapSettlement, PoolError>(e),
        },
{
    proof {
        reveal(settle_spec);
    }
    let offer_ind: usize = if offer_asset == pool.asset0 {
        0
    } else if offer_asset == pool.asset1 {
        1
    } else {
        return Err(PoolError::InvalidAsset);
    };
    let (offer_prec, ask_prec) = if offer_ind == 0 {
        (pool.precision0, pool.precision1)
    } else {
        (pool.precision1, pool.precision0)
    };
    let offer_dec = match Dec::with_precision(offer_amount, offer_prec) {
        Ok(v) => v,
        Err(e) => {
            return Err(e);
        },
    };
    if crate::swap::before_swap_check(pool.reserve0, pool.reserve1, offer_dec).is_err() {
        return Err(PoolError::InvalidZeroAmount);
    }
    let sr = compute_swap(
        &pool.curve,
        &pool.params,
        block_time,
        pool.reserve0,
        pool.reserve1,
        offer_dec,
        1 - offer_ind,
        pool.maker_fee_share,
        pool.share_fee_share,
    )?;
    let ret: u128 = sr.dy.to_uint(ask_prec);
    let spr: u128 = sr.spread_fee.to_uint(ask_prec);
    assert_max_spread(belief_price, max_spread, offer_amount, ret, spr)?;
    let np = settle_tail(pool, block_time, offer_ind, offer_dec, sr)?;
    Ok(
        SwapSettlement {
            return_amount: ret,
            spread_amount: spr,
            maker_fee_amount: sr.maker_fee.to_uint(ask_prec),
            share_fee_amount: sr.share_fee.to_uint(ask_prec),
            state: np,
        },
    )
}

/// The executable settlement tail; exact mirror of [`settle_tail_spec`].
#[verifier::rlimit(100)]
fn settle_tail(pool: &PoolState, block_time: u64, offer_ind: usize, offer_dec: Dec, sr: SwapResult) -> (r:
    Result<PoolState, PoolError>)
    requires
        pool.wf(),
        pool.total_share_supply.atomics > 0,
        block_time >= pool.curve.initial_time,
        offer_ind <= 1,
    ensures
        match r {
            Ok(v) => settle_tail_spec(
                *pool,
                block_time,
                offer_ind as int,
                offer_dec.atomics as int,
                sr,
            ) == Ok::<PoolState, PoolError>(v),
            Err(e) => settle_tail_spec(
                *pool,
                block_time,
                offer_ind as int,
                offer_dec.atomics as int,
                sr,
            ) == Err::<PoolState, PoolError>(e),
        },
{
    let o1 = sr.dy.checked_add(sr.maker_fee)?;
    let out_tot = o1.checked_add(sr.share_fee)?;
    let (inr, outr) = if offer_ind == 0 {
        (pool.reserve0, pool.reserve1)
    } else {
        (pool.reserve1, pool.reserve0)
    };
    let nin = inr.checked_add(offer_dec)?;
    let nout = outr.checked_sub(out_tot)?;
    let (nr0, nr1) = if offer_ind == 0 {
        (nin, nout)
    } else {
        (nout, nin)
    };
    if out_tot.atomics >= MIN_TRADE_SIZE && offer_dec.atomics >= MIN_TRADE_SIZE {
        let lp = sr.calc_last_price(offer_dec, offer_ind)?;
        proof {
            lemma_nonneg_mul(nr1.atomics as int, pool.curve.price_state.price_scale.atomics as int);
        }
        let nx1 = nr1.checked_mul(pool.curve.price_state.price_scale)?;
        let mut curve = pool.curve;
        curve.update_price(
            &pool.params,
            block_time,
            pool.total_share_supply,
            nr0,
            nx1,
            lp,
        )?;
        Ok(PoolState { reserve0: nr0, reserve1: nr1, curve, ..*pool })
    } else {
        Ok(PoolState { reserve0: nr0, reserve1: nr1, ..*pool })
    }
}

/// The transient record of a chain in flight: created before the first
/// hop's dispatch, consumed when the terminal settlement completes.
#[derive(Clone, Copy, Debug, PartialEq, Eq, Structural)]
pub struct ReplyContinuation {
    /// The asset the chain pays out.
    pub target_asset: u64,
    /// The receiver's balance of the target asset before the chain.
    pub balance_before: u128,
    /// The least raw amount the whole chain must pay out, if the caller
    /// set one.
    pub minimum_receive: Option<u128>,
    /// The receiver of the payout.
    pub receiver: u64,
}

/// Completes a chain from its continuation record: the payout is the
/// balance delta, and a shortfall under the caller's minimum fails the
/// whole chain.
pub fn complete_chain(cont: &ReplyContinuation, balance_after: u128) -> (r: Result<
    u128,
    PoolError,
>)
    ensures
        match r {
            Ok(delta) => {
                &&& balance_after >= cont.balance_before
            &&& delta == balance_after - cont.balance_before
            &&& (cont.minimum_receive is Some ==> delta >= cont.minimum_receive->0)
            },
            Err(e) => (e == PoolError::MinimumReceiveNotMet && (balance_after
                < cont.balance_before || (cont.minimum_receive is Some && balance_after
                - cont.balance_before < cont.minimum_receive->0))),
        },
{
    if balance_after < cont.balance_before {
        return Err(PoolError::MinimumReceiveNotMet);
    }
    let delta: u128 = balance_after - cont.balance_before;
    match cont.minimum_receive {
        Some(m) => {
            if delta < m {
                return Err(PoolError::MinimumReceiveNotMet);
            }
        },
        None => {},
    }
    Ok(delta)
}

/// Whether a slot sequence has a key.
pub open spec fn slots_have(pools: Seq<PoolSlot>, key: PairKey) -> bool {
    exists|i: int| 0 <= i < pools.len() && (#[trigger] pools[i]).key == key
}

/// The index of a key in a slot sequence (unique under distinct keys).
pub open spec fn slot_idx(pools: Seq<PoolSlot>, key: PairKey) -> int {
    choose|i: int| 0 <= i < pools.len() && (#[trigger] pools[i]).key == key
}

/// The canonical key of a hop's asset pair.
pub open spec fn hop_key(offer: u64, ask: u64) -> PairKey {
    if offer <= ask {
        PairKey { lo: offer, hi: ask }
    } else {
        PairKey { lo: ask, hi: offer }
    }
}

/// One run of a swap chain over a slot sequence: each hop settles against
/// its pool and its output funds the next hop. Returns the final slots and
/// the terminal payout.
pub open spec fn chain_spec(
    pools: Seq<PoolSlot>,
    ops: Seq<SwapOperation>,
    amount: int,
    max_spread: Option<Dec>,
    block_time: u64,
) -> Result<(Seq<PoolSlot>, int), PoolError>
    decreases ops.len(),
{
    if ops.len() == 0 {
        Ok((pools, amount))
    } else {
        match ops[0] {
            SwapOperation::Native { .. } => Err(PoolError::NativeSwapUnsupported),
            SwapOperation::Pool { offer_asset_info, ask_asset_info } => {
                let k = hop_key(offer_asset_info, ask_asset_info);
                if !slots_have(pools, k) {
                    Err(PoolError::NotFound)
                } else {
                    let i = slot_idx(pools, k);
                    let slot = pools[i];
                    if slot.locked {
                        Err(PoolError::PoolLocked)
                    } else if !(slot.state.wf()
                        && slot.state.curve.price_state.oracle_price.atomics > 0
                        && slot.state.total_share_supply.atomics > 0 && block_time
                        >= slot.state.curve.initial_time) {
                        Err(PoolError::IncorrectPoolParam)
                    } else {
                        match settle_spec(
                            slot.state,
                            offer_asset_info,
                            amount,
                            None,
                            max_spread,
                            block_time,
                        ) {
                            Err(e) => Err(e),
                            Ok(s) => chain_spec(
                                pools.update(
                                    i,
                                    PoolSlot { key: k, state: s.state, locked: slot.locked },
                                ),
                                ops.subrange(1, ops.len() as int),
                                s.return_amount as int,
                                max_spread,
                                block_time,
                            ),
                        }
                    }
                }
            },
        }
    }
}

/// A whole chain request: validation, a non-zero offer, the hop walk, and
/// the end-to-end minimum receive.
pub open spec fn swap_chain_spec(
    pools: Seq<PoolSlot>,
    ops: Seq<SwapOperation>,
    amount: int,
    minimum_receive: Option<u128>,
    max_spread: Option<Dec>,
    block_time: u64,
) -> Result<(Seq<PoolSlot>, int), PoolError> {
    match assert_ops_spec(ops) {
        Err(e) => Err(e),
        Ok(()) => if amount == 0 {
            Err(PoolError::InvalidZeroAmount)
        } else {
            match chain_spec(pools, ops, amount, max_spread, block_time) {
                Err(e) => Err(e),
                Ok(np) => if minimum_receive is Some && np.1 < minimum_receive->0 {
                    Err(PoolError::MinimumReceiveNotMet)
                } else {
                    Ok(np)
                },
            }
        },
    }
}

/// Runs a swap chain against the registry; exact mirror of
/// [`swap_chain_spec`]. On any failure — of validation, of any hop, or of
/// the minimum-receive check — the registry is left exactly as it was:
/// no effect of an earlier hop survives.
#[verifier::rlimit(100)]
pub fn execute_swap_operations(
    mgr: &mut PoolManager,
    operations: &Vec<SwapOperation>,
    offer_amount: u128,
    minimum_receive: Option<u128>,
    max_spread: Option<Dec>,
    block_time: u64,
) -> (r: Result<u128, PoolError>)
    requires
        old(mgr).wf(),
    ensures
        final(mgr).wf(),
        match r {
            Ok(recv) => swap_chain_spec(
                old(mgr).pools@,
                operations@,
                offer_amount as int,
                minimum_receive,
                max_spread,
                block_time,
            ) == Ok::<(Seq<PoolSlot>, int), PoolError>((final(mgr).pools@, recv as int)),
            Err(e) => swap_chain_spec(
                old(mgr).pools@,
                operations@,
                offer_amount as int,
                minimum_receive,
                max_spread,
                block_time,
            ) == Err::<(Seq<PoolSlot>, int), PoolError>(e) && *final(mgr) == *old(mgr),
        },
{
    match assert_operations(operations) {
        Ok(()) => {},
        Err(e) => {
            return Err(e);
        },
    }
    if offer_amount == 0 {
        return Err(PoolError::InvalidZeroAmount);
    }
    let mut tmp = PoolManager { pools: Vec::new() };
    let mut c: usize = 0;
    while c < mgr.pools.len()
        invariant
            c <= mgr.pools@.len(),
            tmp.pools@ =~= mgr.pools@.subrange(0, c as int),
            *mgr == *old(mgr),
        decreases mgr.pools@.len() - c,
    {
        let slot = mgr.pools[c];
        tmp.pools.push(slot);
        proof {
            assert(tmp.pools@ =~= mgr.pools@.subrange(0, c + 1));
        }
        c = c + 1;
    }
    proof {
        assert(mgr.pools@.subrange(0, mgr.pools@.len() as int) =~= mgr.pools@);
        assert(tmp.pools@ == mgr.pools@);
        assert(operations@.subrange(0, operations@.len() as int) =~= operations@);
    }
    let mut amount: u128 = offer_amount;
    let mut i: usize = 0;
    while i < operations.len()
        invariant
            i <= operations@.len(),
            *mgr == *old(mgr),
            old(mgr).wf(),
            tmp.wf(),
            valid_path(operations@),
            assert_ops_spec(operations@) is Ok,
            offer_amount > 0,
            chain_spec(
                old(mgr).pools@,
                operations@,
                offer_amount as int,
                max_spread,
                block_time,
            ) == chain_spec(
                tmp.pools@,
                operations@.subrange(i as int, operations@.len() as int),
                amount as int,
                max_spread,
                block_time,
            ),
        decreases operations@.len() - i,
    {
        let ghost pre_ops = operations@.subrange(i as int, operations@.len() as int);
        proof {
            assert(pre_ops[0] == operations@[i as int]);
        }
        match operations[i] {
            SwapOperation::Native { .. } => {
                proof {
                    assert(operations@[i as int] is Pool);
                    assert(false);
                }
                return Err(PoolError::NativeSwapUnsupported);
            },
            SwapOperation::Pool { offer_asset_info, ask_asset_info } => {
                let k = pair_key((offer_asset_info, ask_asset_info));
                proof {
                    assert(k == hop_key(offer_asset_info, ask_asset_info));
                }
                match tmp.find_slot(k) {
                    None => {
                        proof {
                            assert(!slots_have(tmp.pools@, k));
                        }
                        return Err(PoolError::NotFound);
                    },
                    Some(ix) => {
                        proof {
                            assert(slots_have(tmp.pools@, k)) by {
                                assert(tmp.pools@[ix as int].key == k);
                            }
                            let j = slot_idx(tmp.pools@, k);
                            assert(tmp.pools@[j].key == k);
                            assert(j == ix as int);
                        }
                        let slot = tmp.pools[ix];
                        if slot.locked {
                            return Err(PoolError::PoolLocked);
                        }
                        if !slot.state.ready_for_swap(block_time) {
                            return Err(PoolError::IncorrectPoolParam);
                        }
                        let settled = match swap(
                            &slot.state,
                            offer_asset_info,
                            amount,
                            None,
                            max_spread,
                            block_time,
                        ) {
                            Ok(s) => s,
                            Err(e) => {
                                return Err(e);
                            },
                        };
                        let ghost pre_pools = tmp.pools@;
                        tmp.pools.set(
                            ix,
                            PoolSlot { key: k, state: settled.state, locked: slot.locked },
                        );
                        proof {
                            assert(forall|j: int|
                                0 <= j < tmp.pools@.len() ==> (#[trigger] tmp.pools@[j]).key
                                    == pre_pools[j].key);
                            assert(pre_ops.subrange(1, pre_ops.len() as int) =~= operations@.subrange(
                                i + 1,
                                operations@.len() as int,
                            ));
                        }
                        amount = settled.return_amount;
                    },
                }
            },
        }
        i = i + 1;
    }
    proof {
        assert(operations@.subrange(operations@.len() as int, operations@.len() as int).len()
            == 0);
    }
    match minimum_receive {
        Some(m) => {
            if amount < m {
                return Err(PoolError::MinimumReceiveNotMet);
            }
        },
        None => {},
    }
    mgr.pools = tmp.pools;
    Ok(amount)
}

/// A read-only swap forecast over a pool record, as
/// `(return, spread, commission)` raw amounts; no fee is routed anywhere,
/// matching a pure simulation.
#[verifier::opaque]
pub open spec fn sim_spec(pool: PoolState, offer_asset: u64, offer_amount: int, block_time: u64) -> Result<
    (int, int, int),
    PoolError,
> {
    match offer_side(pool, offer_asset) {
        Err(e) => Err(e),
        Ok(offer_ind) => {
            let offer_prec: int = if offer_ind == 0 {
                pool.precision0 as int
            } else {
                pool.precision1 as int
            };
            let ask_prec: int = if offer_ind == 0 {
                pool.precision1 as int
            } else {
                pool.precision0 as int
            };
            match crate::pool::ubnd2(offer_amount * spec_pow10((18 - offer_prec) as nat)) {
                Err(e) => Err(e),
                Ok(offer_dec) => if !(offer_dec > 0 && pool.reserve0.atomics > 0
                    && pool.reserve1.atomics > 0) {
                    Err(PoolError::InvalidZeroAmount)
                } else {
                    match compute_swap_spec(
                        pool.curve,
                        pool.params,
                        block_time,
                        pool.reserve0.atomics as int,
                        pool.reserve1.atomics as int,
                        offer_dec,
                        1 - offer_ind,
                        0,
                        0,
                    ) {
                        Err(e) => Err(e),
                        Ok(sr) => Ok(
                            (
                                sr.dy.atomics as int / spec_pow10((18 - ask_prec) as nat),
                                sr.spread_fee.atomics as int / spec_pow10((18 - ask_prec) as nat),
                                sr.total_fee.atomics as int / spec_pow10((18 - ask_prec) as nat),
                            ),
                        ),
                    }
                },
            }
        },
    }
}

/// Forecasts one swap without touching any state; exact mirror of
/// [`sim_spec`]. Returns the raw return, spread, and commission amounts.
#[verifier::rlimit(100)]
pub fn query_simulation(pool: &PoolState, offer_asset: u64, offer_amount: u128, block_time: u64) -> (r:
    Result<(u128, u128, u128), PoolError>)
    requires
        pool.wf(),
        pool.curve.price_state.oracle_price.atomics > 0,
        block_time >= pool.curve.initial_time,
    ensures
        match r {
            Ok(v) => sim_spec(*pool, offer_asset, offer_amount as int, block_time) == Ok::<
                (int, int, int),
                PoolError,
            >((v.0 as int, v.1 as int, v.2 as int)),
            Err(e) => sim_spec(*pool, offer_asset, offer_amount as int, block_time) == Err::<
                (int, int, int),
                PoolError,
            >(e),
        },
{
    proof {
        reveal(sim_spec);
    }
    let offer_ind: usize = if offer_asset == pool.asset0 {
        0
    } else if offer_asset == pool.asset1 {
        1
    } else {
        return Err(PoolError::InvalidAsset);
    };
    let ask_prec: u8 = if offer_ind == 0 {
        pool.precision1
    } else {
        pool.precision0
    };
    let offer_prec: u8 = if offer_ind == 0 {
        pool.precision0
    } else {
        pool.precision1
    };
    let offer_dec = match Dec::with_precision(offer_amount, offer_prec) {
        Ok(v) => v,
        Err(e) => {
            return Err(e);
        },
    };
    if crate::swap::before_swap_check(pool.reserve0, pool.reserve1, offer_dec).is_err() {
        return Err(PoolError::InvalidZeroAmount);
    }
    let sr = compute_swap(
        &pool.curve,
        &pool.params,
        block_time,
        pool.reserve0,
        pool.reserve1,
        offer_dec,
        1 - offer_ind,
        Dec::zero(),
        Dec::zero(),
    )?;
    Ok((sr.dy.to_uint(ask_prec), sr.spread_fee.to_uint(ask_prec), sr.total_fee.to_uint(ask_prec)))
}

/// A read-only walk of a whole chain: each hop's forecast output funds the
/// next hop.
pub open spec fn sim_chain_spec(
    pools: Seq<PoolSlot>,
    ops: Seq<SwapOperation>,
    amount: int,
    block_time: u64,
) -> Result<int, PoolError>
    decreases ops.len(),
{
    if ops.len() == 0 {
        Ok(amount)
    } else {
        match ops[0] {
            SwapOperation::Native { .. } => Err(PoolError::NativeSwapUnsupported),
            SwapOperation::Pool { offer_asset_info, ask_asset_info } => {
                let k = hop_key(offer_asset_info, ask_asset_info);
                if !slots_have(pools, k) {
                    Err(PoolError::NotFound)
                } else {
                    let slot = pools[slot_idx(pools, k)];
                    if !(slot.state.wf() && slot.state.curve.price_state.oracle_price.atomics > 0
                        && slot.state.total_share_supply.atomics > 0 && block_time
                        >= slot.state.curve.initial_time) {
                        Err(PoolError::IncorrectPoolParam)
                    } else {
                        match sim_spec(slot.state, offer_asset_info, amount, block_time) {
                            Err(e) => Err(e),
                            Ok(v) => sim_chain_spec(
                                pools,
                                ops.subrange(1, ops.len() as int),
                                v.0,
                                block_time,
                            ),
                        }
                    }
                }
            },
        }
    }
}

/// The whole simulation request: validation, then the read-only walk.
pub open spec fn simulate_spec(
    pools: Seq<PoolSlot>,
    ops: Seq<SwapOperation>,
    amount: int,
    block_time: u64,
) -> Result<int, PoolError> {
    match assert_ops_spec(ops) {
        Err(e) => Err(e),
        Ok(()) => sim_chain_spec(pools, ops, amount, block_time),
    }
}

/// Forecasts the end result of a whole swap chain without touching any
/// state; exact mirror of [`simulate_spec`].
#[verifier::rlimit(100)]
pub fn simulate_swap_operations(
    mgr: &PoolManager,
    offer_amount: u128,
    operations: &Vec<SwapOperation>,
    block_time: u64,
) -> (r: Result<u128, PoolError>)
    requires
        mgr.wf(),
    ensures
        match r {
            Ok(recv) => simulate_spec(
                mgr.pools@,
                operations@,
                offer_amount as int,
                block_time,
            ) == Ok::<int, PoolError>(recv as int),
            Err(e) => simulate_spec(mgr.pools@, operations@, offer_amount as int, block_time)
                == Err::<int, PoolError>(e),
        },
{
    match assert_operations(operations) {
        Ok(()) => {},
        Err(e) => {
            return Err(e);
        },
    }
    proof {
        assert(operations@.subrange(0, operations@.len() as int) =~= operations@);
    }
    let mut amount: u128 = offer_amount;
    let mut i: usize = 0;
    while i < operations.len()
        invariant
            i <= operations@.len(),
            mgr.wf(),
            valid_path(operations@),
            assert_ops_spec(operations@) is Ok,
            sim_chain_spec(mgr.pools@, operations@, offer_amount as int, block_time)
                == sim_chain_spec(
                mgr.pools@,
                operations@.subrange(i as int, operations@.len() as int),
                amount as int,
                block_time,
            ),
        decreases operations@.len() - i,
    {
        let ghost pre_ops = operations@.subrange(i as int, operations@.len() as int);
        proof {
            assert(pre_ops[0] == operations@[i as int]);
        }
        match operations[i] {
            SwapOperation::Native { .. } => {
                proof {
                    assert(operations@[i as int] is Pool);
                    assert(false);
                }
                return Err(PoolError::NativeSwapUnsupported);
            },
            SwapOperation::Pool { offer_asset_info, ask_asset_info } => {
                let k = pair_key((offer_asset_info, ask_asset_info));
                proof {
                    assert(k == hop_key(offer_asset_info, ask_asset_info));
                }
                match mgr.find_slot(k) {
                    None => {
                        proof {
                            assert(!slots_have(mgr.pools@, k));
                        }
                        return Err(PoolError::NotFound);
                    },
                    Some(ix) => {
                        proof {
                            assert(slots_have(mgr.pools@, k)) by {
                                assert(mgr.pools@[ix as int].key == k);
                            }
                            let j = slot_idx(mgr.pools@, k);
                            assert(mgr.pools@[j].key == k);
                            assert(j == ix as int);
                        }
                        let slot = mgr.pools[ix];
                        if !slot.state.ready_for_swap(block_time) {
                            return Err(PoolError::IncorrectPoolParam);
                        }
                        let sim = match query_simulation(
                            &slot.state,
                            offer_asset_info,
                            amount,
                            block_time,
                        ) {
                            Ok(v) => v,
                            Err(e) => {
                                return Err(e);
                            },
                        };
                        proof {
                            assert(pre_ops.subrange(1, pre_ops.len() as int) =~= operations@.subrange(
                                i + 1,
                                operations@.len() as int,
                            ));
                        }
                        amount = sim.0;
                    },
                }
            },
        }
        i = i + 1;
    }
    proof {
        assert(operations@.subrange(operations@.len() as int, operations@.len() as int).len()
            == 0);
    }
    Ok(amount)
}

} // verus!
