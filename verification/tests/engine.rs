//! Tests of the invariant solver, the fee curve, the price evolution, and
//! the liquidity engine.

use pool_manager::dec::{Dec, ONE};
use pool_manager::error::PoolError;
use pool_manager::math::{calc_d, calc_y, get_xcp};
use pool_manager::params::{AmpGamma, PoolParams, UpdatePoolParams};
use pool_manager::pool::{CurveState, PriceState, half_float_pow, half_pow_int};
use pool_manager::liquidity::{
    calc_provide_fee, provide_liquidity, withdraw_liquidity, MINIMUM_LIQUIDITY_AMOUNT,
};
use pool_manager::manager::{create_pool_state, InitPoolParams};

fn amp() -> Dec {
    Dec::raw(40 * ONE)
}

fn gamma() -> Dec {
    Dec::raw(145_000_000_000_000)
}

fn params() -> PoolParams {
    PoolParams {
        mid_fee: Dec::raw(2_600_000_000_000_000),
        out_fee: Dec::raw(4_500_000_000_000_000),
        fee_gamma: Dec::raw(230_000_000_000_000),
        repeg_profit_threshold: Dec::raw(2_000_000_000_000),
        min_price_scale_delta: Dec::raw(146_000_000_000_000),
        ma_half_time: 600,
    }
}

fn balanced_curve(block_time: u64) -> CurveState {
    CurveState {
        initial: AmpGamma { amp: amp(), gamma: gamma() },
        future: AmpGamma { amp: amp(), gamma: gamma() },
        future_time: 0,
        initial_time: 0,
        price_state: PriceState {
            oracle_price: Dec::one(),
            last_price: Dec::one(),
            price_scale: Dec::one(),
            last_price_update: block_time,
            xcp_profit: Dec::one(),
            xcp_profit_real: Dec::one(),
        },
    }
}

#[test]
fn invariant_of_balanced_pool_is_the_sum() {
    let d = calc_d(Dec::raw(1000 * ONE), Dec::raw(1000 * ONE), amp(), gamma()).unwrap();
    assert_eq!(d.atomics, 2000 * ONE);
}

#[test]
fn invariant_solver_is_deterministic() {
    let x0 = Dec::raw(1_173_700 * ONE);
    let x1 = Dec::raw(900_244 * ONE);
    let a = calc_d(x0, x1, amp(), gamma()).unwrap();
    let b = calc_d(x0, x1, amp(), gamma()).unwrap();
    assert_eq!(a, b);
    assert!(a.atomics > 0);
}

#[test]
fn solver_inverts_itself() {
    // solve D, nudge one side, re-solve the other, and check the invariant
    // is preserved within tolerance
    let x0 = Dec::raw(1_000_000 * ONE);
    let x1 = Dec::raw(1_000_000 * ONE);
    let d = calc_d(x0, x1, amp(), gamma()).unwrap();
    let nx0 = Dec::raw(1_010_000 * ONE);
    let ny = calc_y(nx0, d, amp(), gamma()).unwrap();
    assert!(ny.atomics < x1.atomics);
    let d2 = calc_d(nx0, ny, amp(), gamma()).unwrap();
    let diff = if d2.atomics >= d.atomics {
        d2.atomics - d.atomics
    } else {
        d.atomics - d2.atomics
    };
    // within a few tolerance units of the stopping criterion
    assert!(diff < 100_000_000_000_000);
}

#[test]
fn xcp_of_balanced_pool() {
    let xcp = get_xcp(Dec::raw(2000 * ONE), Dec::one()).unwrap();
    assert_eq!(xcp.atomics, 1000 * ONE);
}

#[test]
fn fee_rate_balanced_equals_mid_fee() {
    let pp = params();
    let f = pp.fee(Dec::raw(100_000 * ONE), Dec::raw(100_000 * ONE)).unwrap();
    assert_eq!(f.atomics, 2_600_000_000_000_000);
}

#[test]
fn fee_rate_imbalanced_strictly_higher() {
    let pp = params();
    let balanced = pp.fee(Dec::raw(100_000 * ONE), Dec::raw(100_000 * ONE)).unwrap();
    let imbalanced = pp.fee(Dec::raw(1_000_000 * ONE), Dec::raw(100_000 * ONE)).unwrap();
    assert!(imbalanced.atomics > balanced.atomics);
    assert!(imbalanced.atomics <= pp.out_fee.atomics);
}

#[test]
fn provide_fee_matches_known_rates() {
    let pp = params();
    let zero = calc_provide_fee(
        Dec::raw(50_000 * ONE),
        Dec::raw(50_000 * ONE),
        Dec::raw(100_000 * ONE),
        Dec::raw(100_000 * ONE),
        &pp,
    )
    .unwrap();
    assert_eq!(zero.atomics, 0);
    let skewed = calc_provide_fee(
        Dec::raw(99_000 * ONE),
        Dec::raw(1_000 * ONE),
        Dec::raw(100_000 * ONE),
        Dec::raw(100_000 * ONE),
        &pp,
    )
    .unwrap();
    assert_eq!(skewed.atomics, 1_274_000_000_000_000);
    let against = calc_provide_fee(
        Dec::raw(99_000 * ONE),
        Dec::raw(1_000 * ONE),
        Dec::raw(1_000 * ONE),
        Dec::raw(99_000 * ONE),
        &pp,
    )
    .unwrap();
    assert_eq!(against.atomics, 2_205_000_000_000_000);
}

#[test]
fn update_params_validates_ranges() {
    let mut pp = params();
    let bad = UpdatePoolParams {
        mid_fee: Some(Dec::raw(1)),  // under the minimum fee
        out_fee: None,
        fee_gamma: None,
        repeg_profit_threshold: None,
        min_price_scale_delta: None,
        ma_half_time: None,
    };
    assert_eq!(pp.update_params(bad), Err(PoolError::IncorrectPoolParam));
    assert_eq!(pp, params());
    let good = UpdatePoolParams {
        mid_fee: Some(Dec::raw(1_000_000_000_000_000)),
        out_fee: Some(Dec::raw(3_000_000_000_000_000)),
        fee_gamma: None,
        repeg_profit_threshold: None,
        min_price_scale_delta: None,
        ma_half_time: Some(300),
    };
    assert_eq!(pp.update_params(good), Ok(()));
    assert_eq!(pp.mid_fee.atomics, 1_000_000_000_000_000);
    assert_eq!(pp.ma_half_time, 300);
}

#[test]
fn amp_gamma_validation() {
    assert!(AmpGamma::new(amp(), gamma()).is_ok());
    assert_eq!(
        AmpGamma::new(Dec::raw(1), gamma()),
        Err(PoolError::IncorrectPoolParam)
    );
}

#[test]
fn amp_gamma_ramp_interpolates() {
    let mut curve = balanced_curve(0);
    curve.initial = AmpGamma { amp: Dec::raw(100 * ONE), gamma: Dec::raw(100_000_000_000) };
    curve.future = AmpGamma { amp: Dec::raw(110 * ONE), gamma: Dec::raw(110_000_000_000) };
    curve.initial_time = 86_400;
    curve.future_time = 186_400;
    let halfway = curve.get_amp_gamma(136_400).unwrap();
    assert_eq!(halfway.amp.atomics, 105 * ONE);
    assert_eq!(halfway.gamma.atomics, 105_000_000_000);
    let done = curve.get_amp_gamma(200_000).unwrap();
    assert_eq!(done.amp.atomics, 110 * ONE);
}

#[test]
fn half_power_whole_and_fractional() {
    assert_eq!(half_pow_int(0).atomics, ONE);
    assert_eq!(half_pow_int(1).atomics, ONE / 2);
    assert_eq!(half_pow_int(3).atomics, ONE / 8);
    assert_eq!(half_pow_int(100).atomics, 0);
    // 0.5^3.231 is near 0.1065055
    let r = half_float_pow(Dec::raw(3_231_000_000_000_000_000)).unwrap();
    assert!(r.atomics > 106_505_000_000_000_000);
    assert!(r.atomics < 106_506_000_000_000_000);
    // deterministic
    let r2 = half_float_pow(Dec::raw(3_231_000_000_000_000_000)).unwrap();
    assert_eq!(r, r2);
}

#[test]
fn minimum_liquidity_floor() {
    let init = InitPoolParams {
        amp: amp(),
        gamma: gamma(),
        mid_fee: Dec::raw(2_600_000_000_000_000),
        out_fee: Dec::raw(4_500_000_000_000_000),
        fee_gamma: Dec::raw(230_000_000_000_000),
        repeg_profit_threshold: Dec::raw(2_000_000_000_000),
        min_price_scale_delta: Dec::raw(146_000_000_000_000),
        price_scale: Dec::one(),
        ma_half_time: 600,
        track_balances: false,
    };
    let pool = create_pool_state(1, 2, 6, 6, &init, Dec::zero(), Dec::zero(), 1000).unwrap();
    // deposits of 1000 whole units on each side
    let d = Dec::with_precision(1_000_000_000, 6).unwrap();
    let r = provide_liquidity(
        &pool.curve,
        &pool.params,
        1000,
        Dec::zero(),
        Dec::zero(),
        d,
        d,
        Dec::zero(),
        None,
    )
    .unwrap();
    // the receiver gets the initial mint less the burned minimum, and the
    // null holder exactly the minimum
    assert_eq!(r.burned_minimum.atomics, MINIMUM_LIQUIDITY_AMOUNT);
    assert_eq!(r.minted_share.atomics, 1000 * ONE - MINIMUM_LIQUIDITY_AMOUNT);
    assert_eq!(r.new_reserve0.atomics, 1000 * ONE);
    assert_eq!(r.state.price_state.xcp_profit.atomics, ONE);
    assert_eq!(r.state.price_state.xcp_profit_real.atomics, ONE);
}

#[test]
fn minimum_liquidity_rejects_dust() {
    let init = InitPoolParams {
        amp: amp(),
        gamma: gamma(),
        mid_fee: Dec::raw(2_600_000_000_000_000),
        out_fee: Dec::raw(4_500_000_000_000_000),
        fee_gamma: Dec::raw(230_000_000_000_000),
        repeg_profit_threshold: Dec::raw(2_000_000_000_000),
        min_price_scale_delta: Dec::raw(146_000_000_000_000),
        price_scale: Dec::one(),
        ma_half_time: 600,
        track_balances: false,
    };
    let pool = create_pool_state(1, 2, 6, 6, &init, Dec::zero(), Dec::zero(), 1000).unwrap();
    // 0.001 of a unit each side mints exactly zero after the burn
    let d = Dec::with_precision(1000, 6).unwrap();
    let r = provide_liquidity(
        &pool.curve,
        &pool.params,
        1000,
        Dec::zero(),
        Dec::zero(),
        d,
        d,
        Dec::zero(),
        None,
    );
    assert_eq!(r, Err(PoolError::MinimumLiquidityAmountError));
}

#[test]
fn one_sided_initial_provide_rejected() {
    let curve = balanced_curve(1000);
    let r = provide_liquidity(
        &curve,
        &params(),
        1000,
        Dec::zero(),
        Dec::zero(),
        Dec::raw(1000 * ONE),
        Dec::zero(),
        Dec::zero(),
        None,
    );
    assert_eq!(r, Err(PoolError::InvalidZeroAmount));
}

#[test]
fn no_free_liquidity_round_trip() {
    // provide on a seeded pool, then withdraw the same share: the refunds
    // never exceed the deposits
    let curve = balanced_curve(1000);
    let pp = params();
    let r = provide_liquidity(
        &curve,
        &pp,
        1000,
        Dec::raw(1000 * ONE),
        Dec::raw(1000 * ONE),
        Dec::raw(100 * ONE),
        Dec::raw(100 * ONE),
        Dec::raw(1000 * ONE),
        Some(Dec::raw(ONE / 2)),
    )
    .unwrap();
    assert_eq!(r.minted_share.atomics, 100 * ONE);
    assert_eq!(r.new_reserve0.atomics, 1100 * ONE);
    let w = withdraw_liquidity(
        r.new_reserve0,
        r.new_reserve1,
        r.minted_share,
        Dec::raw(1100 * ONE),
    )
    .unwrap();
    assert_eq!(w.refund0.atomics, 99_999_999_999_999_999_900);
    assert_eq!(w.refund1.atomics, 99_999_999_999_999_999_900);
    assert!(w.refund0.atomics <= 100 * ONE);
    assert!(w.refund1.atomics <= 100 * ONE);
}

#[test]
fn solver_rejects_empty_reserves() {
    let r = calc_d(Dec::zero(), Dec::zero(), amp(), gamma());
    assert_eq!(r, Err(PoolError::InvariantDidNotConverge));
}

#[test]
fn imbalanced_provide_exceeds_tight_tolerance() {
    let curve = balanced_curve(1000);
    let r = provide_liquidity(
        &curve,
        &params(),
        1000,
        Dec::raw(1000 * ONE),
        Dec::raw(1000 * ONE),
        Dec::raw(200 * ONE),
        Dec::zero(),
        Dec::raw(1000 * ONE),
        Some(Dec::raw(1)),
    );
    assert_eq!(r, Err(PoolError::SlippageToleranceExceeded));
}

#[test]
fn withdraw_rejects_zero_and_empty() {
    let r = withdraw_liquidity(Dec::raw(ONE), Dec::raw(ONE), Dec::zero(), Dec::raw(ONE));
    assert_eq!(r, Err(PoolError::InvalidZeroAmount));
    let r = withdraw_liquidity(Dec::raw(ONE), Dec::raw(ONE), Dec::raw(1), Dec::zero());
    assert_eq!(r, Err(PoolError::InvalidZeroAmount));
}

#[test]
fn withdraw_whole_supply_drains_pool() {
    let w = withdraw_liquidity(
        Dec::raw(500 * ONE),
        Dec::raw(700 * ONE),
        Dec::raw(1000 * ONE),
        Dec::raw(1000 * ONE),
    )
    .unwrap();
    assert_eq!(w.refund0.atomics, 500 * ONE);
    assert_eq!(w.refund1.atomics, 700 * ONE);
    assert_eq!(w.new_reserve0.atomics, 0);
    assert_eq!(w.new_reserve1.atomics, 0);
}
