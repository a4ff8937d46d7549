//! Tests of path validation, single-hop settlement, the atomic chain, and
//! the registry.

use pool_manager::dec::{Dec, ONE};
use pool_manager::error::PoolError;
use pool_manager::math::calc_d;
use pool_manager::params::{AmpGamma, PoolParams};
use pool_manager::pool::{CurveState, PriceState};
use pool_manager::manager::{
    pair_key, check_asset_infos, find_asset_index, increment_asset_balance,
    decrease_asset_balance, increment_pair_balances, decrease_pair_balances, PairKey, PoolManager,
    PoolState, Precisions,
};
use pool_manager::router::{
    assert_operations, complete_chain, execute_swap_operations, query_simulation,
    simulate_swap_operations, swap, ReplyContinuation, SwapOperation,
};

fn amp() -> Dec {
    Dec::raw(40 * ONE)
}

fn gamma() -> Dec {
    Dec::raw(145_000_000_000_000)
}

fn params() -> PoolParams {
    PoolParams {
        mid_fee: Dec::raw(2_600_000_000_000_000),
        out_fee: Dec::raw(4_500_000_000_000_000),
        fee_gamma: Dec::raw(230_000_000_000_000),
        repeg_profit_threshold: Dec::raw(2_000_000_000_000),
        min_price_scale_delta: Dec::raw(146_000_000_000_000),
        ma_half_time: 600,
    }
}

fn seeded_pool(asset0: u64, asset1: u64, block_time: u64) -> PoolState {
    PoolState {
        asset0,
        asset1,
        precision0: 6,
        precision1: 6,
        reserve0: Dec::raw(1_000_000 * ONE),
        reserve1: Dec::raw(1_000_000 * ONE),
        curve: CurveState {
            initial: AmpGamma { amp: amp(), gamma: gamma() },
            future: AmpGamma { amp: amp(), gamma: gamma() },
            future_time: 0,
            initial_time: 0,
            price_state: PriceState {
                oracle_price: Dec::one(),
                last_price: Dec::one(),
                price_scale: Dec::one(),
                last_price_update: block_time,
                xcp_profit: Dec::one(),
                xcp_profit_real: Dec::one(),
            },
        },
        params: params(),
        total_share_supply: Dec::raw(1_000_000 * ONE),
        track_balances: false,
        maker_fee_share: Dec::zero(),
        share_fee_share: Dec::zero(),
    }
}

#[test]
fn path_validation_rejects_reversal_and_mismatch() {
    // an asset reused as both offer and ask across adjacent hops
    let reversal = vec![
        SwapOperation::Pool { offer_asset_info: 1, ask_asset_info: 2 },
        SwapOperation::Pool { offer_asset_info: 2, ask_asset_info: 1 },
    ];
    assert_eq!(assert_operations(&reversal), Err(PoolError::DoublingAssetsPath));
    // adjacent hops that do not share an asset
    let mismatch = vec![
        SwapOperation::Pool { offer_asset_info: 1, ask_asset_info: 2 },
        SwapOperation::Pool { offer_asset_info: 3, ask_asset_info: 4 },
    ];
    assert_eq!(assert_operations(&mismatch), Err(PoolError::InvalidPathOperations));
}

#[test]
fn path_validation_rejects_edge_shapes() {
    let empty: Vec<SwapOperation> = vec![];
    assert_eq!(assert_operations(&empty), Err(PoolError::InvalidPathOperations));
    let self_trade = vec![SwapOperation::Pool { offer_asset_info: 7, ask_asset_info: 7 }];
    assert_eq!(assert_operations(&self_trade), Err(PoolError::DoublingAssetsPath));
    let native = vec![SwapOperation::Native { offer_denom: 1, ask_denom: 2 }];
    assert_eq!(assert_operations(&native), Err(PoolError::NativeSwapUnsupported));
    let mut too_long = Vec::new();
    for i in 0..51u64 {
        too_long.push(SwapOperation::Pool { offer_asset_info: i, ask_asset_info: i + 1 });
    }
    assert_eq!(assert_operations(&too_long), Err(PoolError::InvalidPathOperations));
}

#[test]
fn path_validation_accepts_chain() {
    let good = vec![
        SwapOperation::Pool { offer_asset_info: 1, ask_asset_info: 2 },
        SwapOperation::Pool { offer_asset_info: 2, ask_asset_info: 3 },
    ];
    assert_eq!(assert_operations(&good), Ok(()));
}

#[test]
fn pair_key_is_order_independent() {
    assert_eq!(pair_key((1, 2)), pair_key((2, 1)));
    assert_eq!(pair_key((5, 5)).lo, 5);
    assert_eq!(pair_key((9, 3)), PairKey { lo: 3, hi: 9 });
}

#[test]
fn swap_conserves_invariant() {
    // recompute the invariant from post-trade reserves, retained fees
    // included: it never drops below the pre-trade invariant
    let pool = seeded_pool(1, 2, 1000);
    let d_pre = calc_d(pool.reserve0, pool.reserve1, amp(), gamma()).unwrap();
    let settled = swap(&pool, 1, 10_000_000_000, None, None, 1000).unwrap();
    assert!(settled.return_amount > 0);
    assert!(settled.return_amount < 10_000_000_000);
    let d_post = calc_d(
        settled.state.reserve0,
        settled.state.reserve1,
        amp(),
        gamma(),
    )
    .unwrap();
    assert!(d_post.atomics >= d_pre.atomics);
}

#[test]
fn swap_advances_oracle_clock() {
    // the pool was last observed at 1000; a swap at 1600 decays the oracle
    // and stamps the new time
    let pool = seeded_pool(1, 2, 1000);
    let settled = swap(&pool, 1, 10_000_000_000, None, None, 1600).unwrap();
    assert_eq!(settled.state.curve.price_state.last_price_update, 1600);
    // with oracle and last price both at one, the decayed oracle stays one
    assert_eq!(settled.state.curve.price_state.oracle_price.atomics, ONE);
    assert!(settled.state.curve.price_state.last_price.atomics > 0);
}

#[test]
fn swap_rejects_foreign_asset_and_zero() {
    let pool = seeded_pool(1, 2, 1000);
    assert_eq!(
        swap(&pool, 9, 1_000_000, None, None, 1000),
        Err(PoolError::InvalidAsset)
    );
    assert_eq!(
        swap(&pool, 1, 0, None, None, 1000),
        Err(PoolError::InvalidZeroAmount)
    );
}

#[test]
fn swap_that_dilutes_profit_is_rejected() {
    // the recorded per-share profit claims twice the pool's real value, so
    // any settlement would register a loss and is refused
    let mut pool = seeded_pool(1, 2, 1000);
    pool.curve.price_state.xcp_profit_real = Dec::raw(2 * ONE);
    let r = swap(&pool, 1, 10_000_000_000, None, None, 1000);
    assert_eq!(r, Err(PoolError::XcpProfitDropped));
}

#[test]
fn swap_enforces_max_spread() {
    let pool = seeded_pool(1, 2, 1000);
    // a cap above the allowed maximum is itself rejected
    let r = swap(&pool, 1, 10_000_000_000, None, Some(Dec::raw(600_000_000_000_000_000)), 1000);
    assert_eq!(r, Err(PoolError::ExcessiveSpread));
    // an absurd belief price makes any return a shortfall
    let r = swap(
        &pool,
        1,
        10_000_000_000,
        Some(Dec::raw(ONE / 1000)),
        Some(Dec::raw(100_000_000_000_000_000)),
        1000,
    );
    assert_eq!(r, Err(PoolError::ExcessiveSpread));
}

#[test]
fn chain_settles_and_pays_out() {
    let mut mgr = PoolManager::new();
    mgr.create_pool(pair_key((1, 2)), seeded_pool(1, 2, 1000));
    mgr.create_pool(pair_key((2, 3)), seeded_pool(2, 3, 1000));
    let ops = vec![
        SwapOperation::Pool { offer_asset_info: 1, ask_asset_info: 2 },
        SwapOperation::Pool { offer_asset_info: 2, ask_asset_info: 3 },
    ];
    let received = execute_swap_operations(&mut mgr, &ops, 10_000_000_000, None, None, 1000)
        .unwrap();
    assert!(received > 0);
    assert!(received < 10_000_000_000);
    // the first pool's reserves moved
    let ab = mgr.get_pool_state(pair_key((1, 2))).unwrap();
    assert!(ab.reserve0.atomics > 1_000_000 * ONE);
}

#[test]
fn chain_is_atomic_when_second_hop_fails() {
    // second hop locked: the whole chain fails and pool 1-2 keeps its
    // reserves exactly
    let mut mgr = PoolManager::new();
    mgr.create_pool(pair_key((1, 2)), seeded_pool(1, 2, 1000));
    mgr.create_pool(pair_key((2, 3)), seeded_pool(2, 3, 1000));
    mgr.acquire_lock(pair_key((2, 3))).unwrap();
    let ops = vec![
        SwapOperation::Pool { offer_asset_info: 1, ask_asset_info: 2 },
        SwapOperation::Pool { offer_asset_info: 2, ask_asset_info: 3 },
    ];
    let r = execute_swap_operations(&mut mgr, &ops, 10_000_000_000, None, None, 1000);
    assert_eq!(r, Err(PoolError::PoolLocked));
    let ab = mgr.get_pool_state(pair_key((1, 2))).unwrap();
    assert_eq!(ab.reserve0.atomics, 1_000_000 * ONE);
    assert_eq!(ab.reserve1.atomics, 1_000_000 * ONE);
}

#[test]
fn chain_enforces_minimum_receive() {
    let mut mgr = PoolManager::new();
    mgr.create_pool(pair_key((1, 2)), seeded_pool(1, 2, 1000));
    let ops = vec![SwapOperation::Pool { offer_asset_info: 1, ask_asset_info: 2 }];
    let r = execute_swap_operations(
        &mut mgr,
        &ops,
        10_000_000_000,
        Some(20_000_000_000),
        None,
        1000,
    );
    assert_eq!(r, Err(PoolError::MinimumReceiveNotMet));
    let ab = mgr.get_pool_state(pair_key((1, 2))).unwrap();
    assert_eq!(ab.reserve0.atomics, 1_000_000 * ONE);
}

#[test]
fn chain_rejects_zero_offer() {
    let mut mgr = PoolManager::new();
    mgr.create_pool(pair_key((1, 2)), seeded_pool(1, 2, 1000));
    let ops = vec![SwapOperation::Pool { offer_asset_info: 1, ask_asset_info: 2 }];
    let r = execute_swap_operations(&mut mgr, &ops, 0, None, None, 1000);
    assert_eq!(r, Err(PoolError::InvalidZeroAmount));
}

#[test]
fn chain_missing_pool_not_found() {
    let mut mgr = PoolManager::new();
    let ops = vec![SwapOperation::Pool { offer_asset_info: 1, ask_asset_info: 2 }];
    let r = execute_swap_operations(&mut mgr, &ops, 5, None, None, 1000);
    assert_eq!(r, Err(PoolError::NotFound));
}

#[test]
fn simulation_matches_settlement_output() {
    let mut mgr = PoolManager::new();
    mgr.create_pool(pair_key((1, 2)), seeded_pool(1, 2, 1000));
    mgr.create_pool(pair_key((2, 3)), seeded_pool(2, 3, 1000));
    let ops = vec![
        SwapOperation::Pool { offer_asset_info: 1, ask_asset_info: 2 },
        SwapOperation::Pool { offer_asset_info: 2, ask_asset_info: 3 },
    ];
    let forecast = simulate_swap_operations(&mgr, 10_000_000_000, &ops, 1000).unwrap();
    let received = execute_swap_operations(&mut mgr, &ops, 10_000_000_000, None, None, 1000)
        .unwrap();
    // the pools carry no maker or share fee, so the dry run matches
    assert_eq!(forecast, received);
}

#[test]
fn query_simulation_reports_commission() {
    let pool = seeded_pool(1, 2, 1000);
    let (ret, _spread, commission) = query_simulation(&pool, 1, 10_000_000_000, 1000).unwrap();
    assert!(ret > 0);
    assert!(commission > 0);
}

#[test]
fn continuation_completes_with_delta() {
    let cont = ReplyContinuation {
        target_asset: 3,
        balance_before: 1000,
        minimum_receive: Some(50),
        receiver: 77,
    };
    assert_eq!(complete_chain(&cont, 1060), Ok(60));
    assert_eq!(complete_chain(&cont, 1040), Err(PoolError::MinimumReceiveNotMet));
    assert_eq!(complete_chain(&cont, 900), Err(PoolError::MinimumReceiveNotMet));
}

#[test]
fn registry_lock_lifecycle() {
    let mut mgr = PoolManager::new();
    let k = pair_key((1, 2));
    assert_eq!(mgr.acquire_lock(k), Err(PoolError::NotFound));
    mgr.create_pool(k, seeded_pool(1, 2, 1000));
    assert_eq!(mgr.acquire_lock(k), Ok(()));
    assert_eq!(mgr.acquire_lock(k), Err(PoolError::PoolLocked));
    assert_eq!(mgr.release_lock(k), Ok(()));
    assert_eq!(mgr.release_lock(k), Err(PoolError::PoolLocked));
    assert_eq!(mgr.acquire_lock(k), Ok(()));
}

#[test]
fn registry_update_and_missing_pool() {
    let mut mgr = PoolManager::new();
    let k = pair_key((1, 2));
    assert_eq!(mgr.get_pool_state(k), Err(PoolError::NotFound));
    mgr.create_pool(k, seeded_pool(1, 2, 1000));
    let mut st = mgr.get_pool_state(k).unwrap();
    st.reserve0 = Dec::raw(5 * ONE);
    assert_eq!(mgr.update_pool_state(k, st), Ok(()));
    assert_eq!(mgr.get_pool_state(k).unwrap().reserve0.atomics, 5 * ONE);
    assert_eq!(
        mgr.update_pool_state(pair_key((8, 9)), st),
        Err(PoolError::NotFound)
    );
}

#[test]
fn precision_table_lookup() {
    let mut p = Precisions::new(vec![(1, 6), (2, 18)]);
    assert_eq!(p.get_precision(1), Ok(6));
    assert_eq!(p.get_precision(2), Ok(18));
    assert_eq!(p.get_precision(3), Err(PoolError::InvalidAsset));
    p.store_precisions(&vec![(3, 9), (1, 12)]).unwrap();
    assert_eq!(p.get_precision(3), Ok(9));
    assert_eq!(p.get_precision(1), Ok(12));
    assert_eq!(
        p.store_precisions(&vec![(4, 19)]),
        Err(PoolError::IncorrectPoolParam)
    );
}

#[test]
fn asset_uniqueness_check() {
    assert_eq!(check_asset_infos(&vec![1, 2, 3]), Ok(()));
    assert_eq!(check_asset_infos(&vec![1, 2, 1]), Err(PoolError::DoublingAssetsPath));
}

#[test]
fn balance_helpers() {
    let mut balances: Vec<(u64, u128)> = vec![(1, 100), (2, 200)];
    assert_eq!(find_asset_index(&balances, 2), Ok(1));
    assert_eq!(find_asset_index(&balances, 5), Err(PoolError::NotFound));
    increment_asset_balance(&mut balances, 0, 50).unwrap();
    assert_eq!(balances[0], (1, 150));
    decrease_asset_balance(&mut balances, 0, 25).unwrap();
    assert_eq!(balances[0], (1, 125));
    assert_eq!(
        decrease_asset_balance(&mut balances, 0, 1000),
        Err(PoolError::ArithmeticOverflow)
    );
    increment_pair_balances(&mut balances, &vec![10, 20]).unwrap();
    assert_eq!(balances, vec![(1, 135), (2, 220)]);
    decrease_pair_balances(&mut balances, &vec![35, 20]).unwrap();
    assert_eq!(balances, vec![(1, 100), (2, 200)]);
    // a single overflowing entry leaves everything unchanged
    assert_eq!(
        decrease_pair_balances(&mut balances, &vec![50, 500]),
        Err(PoolError::ArithmeticOverflow)
    );
    assert_eq!(balances, vec![(1, 100), (2, 200)]);
}
