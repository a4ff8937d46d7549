//! Curve invariant solver.
//!
//! The invariant `D` of the two-asset concentrated-liquidity curve is found
//! by Newton-Raphson iteration on the curve's implicit polynomial; the
//! inverse problem (one reserve from the other and `D`) uses the same
//! technique with the derivative taken in the unknown reserve.
//!
//! Every function mirrors, step for step, a spec-level recurrence over
//! plain integers, so the result is a deterministic function of the inputs:
//! two runs on the same values give bit-identical answers. Iteration stops
//! when successive iterates differ by at most [`TOL`] atomics; running out
//! of iterations fails with `InvariantDidNotConverge`.

use vstd::prelude::*;
use crate::dec::{Dec, ONE, sqrt_atomics};
use vstd::arithmetic::div_mod::lemma_div_is_ordered;
use crate::sdec::{SDec, tz, tzdiv};
use crate::error::PoolError;

verus! {

/// Convergence tolerance of the Newton iteration, in atomic units (10^-5).
pub const TOL: u128 = 10_000_000_000_000;

/// Iteration cap of the Newton solvers.
pub const MAX_ITER: u64 = 64;

/// A signed value only stands when its magnitude fits in 128 bits.
pub open spec fn sbnd(v: int) -> Result<int, PoolError> {
    if v > u128::MAX || v < -(u128::MAX as int) {
        Err(PoolError::ArithmeticOverflow)
    } else {
        Ok(v)
    }
}

/// The head of the curve evaluation: the shared products and the
/// denominator of the curve coefficient, as `(mul, d2, t2, den)`.
pub open spec fn f_head_spec(d: int, x0: int, x1: int, a: int, g: int) -> Result<
    (int, int, int, int),
    PoolError,
> {
    let one: int = ONE as int;
    let four: int = 4 * ONE;
    match sbnd(tz(x0 * x1, one)) {
        Err(e) => Err(e),
        Ok(mul) => match sbnd(tz(d * d, one)) {
            Err(e) => Err(e),
            Ok(d2) => match sbnd(tz(mul * four, one)) {
                Err(e) => Err(e),
                Ok(pnn) => match sbnd(tz(g * g, one)) {
                    Err(e) => Err(e),
                    Ok(g2) => match sbnd(tz(a * g2, one)) {
                        Err(e) => Err(e),
                        Ok(ag2) => match sbnd(tz(pnn * ag2, one)) {
                            Err(e) => Err(e),
                            Ok(t2) => if d2 == 0 {
                                Err(PoolError::InvariantDidNotConverge)
                            } else {
                                match sbnd(tzdiv(pnn * one, d2)) {
                                    Err(e) => Err(e),
                                    Ok(q) => match sbnd(g + one) {
                                        Err(e) => Err(e),
                                        Ok(gp1) => match sbnd(gp1 - q) {
                                            Err(e) => Err(e),
                                            Ok(w) => match sbnd(tz(w * w, one)) {
                                                Err(e) => Err(e),
                                                Ok(w2) => match sbnd(tz(w2 * d2, one)) {
                                                    Err(e) => Err(e),
                                                    Ok(den) => if den == 0 {
                                                        Err(PoolError::InvariantDidNotConverge)
                                                    } else {
                                                        Ok((mul, d2, t2, den))
                                                    },
                                                },
                                            },
                                        },
                                    },
                                }
                            },
                        },
                    },
                },
            },
        },
    }
}

/// The curve polynomial `f(d)` evaluated over atomic units, with the exact
/// rounding of the executable path. `Err` marks an overflowed intermediate
/// or a degenerate denominator.
pub open spec fn f_spec(d: int, x0: int, x1: int, a: int, g: int) -> Result<int, PoolError> {
    match f_head_spec(d, x0, x1, a, g) {
        Err(e) => Err(e),
        Ok(h) => f_spec_tail(d, x0, x1, h.0, h.1, h.2, h.3),
    }
}

/// The tail of [`f_spec`] past the curve coefficient `k`.
pub open spec fn f_spec_tail(
    d: int,
    x0: int,
    x1: int,
    mul: int,
    d2: int,
    t2: int,
    den: int,
) -> Result<int, PoolError> {
    let one: int = ONE as int;
    let four: int = 4 * ONE;
    match sbnd(tzdiv(t2 * one, den)) {
        Err(e) => Err(e),
        Ok(k) => match sbnd(x0 + x1) {
            Err(e) => Err(e),
            Ok(s) => match sbnd(tz(d * s, one)) {
                Err(e) => Err(e),
                Ok(u1) => match sbnd(tz(u1 * k, one)) {
                    Err(e) => Err(e),
                    Ok(u2) => match sbnd(u2 + mul) {
                        Err(e) => Err(e),
                        Ok(f1) => match sbnd(tz(k * d2, one)) {
                            Err(e) => Err(e),
                            Ok(kd2) => match sbnd(f1 - kd2) {
                                Err(e) => Err(e),
                                Ok(f2) => match sbnd(tzdiv(d2 * one, four)) {
                                    Err(e) => Err(e),
                                    Ok(d24) => sbnd(f2 - d24),
                                },
                            },
                        },
                    },
                },
            },
        },
    }
}

/// The executable head of the curve evaluation; exact mirror of
/// [`f_head_spec`].
#[verifier::rlimit(100)]
fn curve_f_head(d: SDec, x0: SDec, x1: SDec, a: SDec, g: SDec) -> (r: Result<
    (SDec, SDec, SDec, SDec),
    PoolError,
>)
    ensures
        match r {
            Ok(v) => f_head_spec(d.sval(), x0.sval(), x1.sval(), a.sval(), g.sval()) == Ok::<
                (int, int, int, int),
                PoolError,
            >((v.0.sval(), v.1.sval(), v.2.sval(), v.3.sval())),
            Err(e) => f_head_spec(d.sval(), x0.sval(), x1.sval(), a.sval(), g.sval()) == Err::<
                (int, int, int, int),
                PoolError,
            >(e),
        },
        r matches Ok(v) ==> v.3.val.atomics > 0,
{
    let one_s = SDec::from_dec(Dec::one());
    let four = SDec::from_dec(Dec::raw(4 * ONE));
    let mul = x0.checked_mul(x1)?;
    let d2 = d.checked_mul(d)?;
    let pnn = mul.checked_mul(four)?;
    let g2 = g.checked_mul(g)?;
    let ag2 = a.checked_mul(g2)?;
    let t2 = pnn.checked_mul(ag2)?;
    if d2.val.atomics == 0 {
        return Err(PoolError::InvariantDidNotConverge);
    }
    let q = pnn.checked_div(d2)?;
    let gp1 = g.checked_add(one_s)?;
    let w = gp1.checked_sub(q)?;
    let w2 = w.checked_mul(w)?;
    let den = w2.checked_mul(d2)?;
    if den.val.atomics == 0 {
        return Err(PoolError::InvariantDidNotConverge);
    }
    Ok((mul, d2, t2, den))
}

/// The executable tail of the curve evaluation; exact mirror of
/// [`f_spec_tail`].
#[verifier::rlimit(100)]
fn curve_f_tail(d: SDec, x0: SDec, x1: SDec, mul: SDec, d2: SDec, t2: SDec, den: SDec) -> (r:
    Result<SDec, PoolError>)
    requires
        den.val.atomics > 0,
    ensures
        match r {
            Ok(v) => f_spec_tail(
                d.sval(),
                x0.sval(),
                x1.sval(),
                mul.sval(),
                d2.sval(),
                t2.sval(),
                den.sval(),
            ) == Ok::<int, PoolError>(v.sval()),
            Err(e) => f_spec_tail(
                d.sval(),
                x0.sval(),
                x1.sval(),
                mul.sval(),
                d2.sval(),
                t2.sval(),
                den.sval(),
            ) == Err::<int, PoolError>(e),
        },
{
    let four = SDec::from_dec(Dec::raw(4 * ONE));
    let k = t2.checked_div(den)?;
    let s = x0.checked_add(x1)?;
    let u1 = d.checked_mul(s)?;
    let u2 = u1.checked_mul(k)?;
    let f1 = u2.checked_add(mul)?;
    let kd2 = k.checked_mul(d2)?;
    let f2 = f1.checked_sub(kd2)?;
    let d24 = d2.checked_div(four)?;
    f2.checked_sub(d24)
}

/// The head of the derivative evaluation, as
/// `(d2, pnn, s, ag2, k, g1k0, gpk0)`.
pub open spec fn df_head_spec(d: int, x0: int, x1: int, a: int, g: int) -> Result<
    (int, int, int, int, int, int, int),
    PoolError,
> {
    let one: int = ONE as int;
    let four: int = 4 * ONE;
    match sbnd(tz(d * d, one)) {
        Err(e) => Err(e),
        Ok(d2) => match sbnd(tz(x0 * x1, one)) {
            Err(e) => Err(e),
            Ok(mul) => match sbnd(tz(mul * four, one)) {
                Err(e) => Err(e),
                Ok(pnn) => match sbnd(x0 + x1) {
                    Err(e) => Err(e),
                    Ok(s) => match sbnd(tz(g * g, one)) {
                        Err(e) => Err(e),
                        Ok(g2) => match sbnd(tz(a * g2, one)) {
                            Err(e) => Err(e),
                            Ok(ag2) => if d2 == 0 {
                                Err(PoolError::InvariantDidNotConverge)
                            } else {
                                match sbnd(tzdiv(pnn * one, d2)) {
                                    Err(e) => Err(e),
                                    Ok(k0) => match sbnd(g + one) {
                                        Err(e) => Err(e),
                                        Ok(gp1) => match sbnd(gp1 - k0) {
                                            Err(e) => Err(e),
                                            Ok(g1k0) => match sbnd(gp1 + k0) {
                                                Err(e) => Err(e),
                                                Ok(gpk0) => match sbnd(tz(g1k0 * g1k0, one)) {
                                                    Err(e) => Err(e),
                                                    Ok(w2) => if w2 == 0 {
                                                        Err(PoolError::InvariantDidNotConverge)
                                                    } else {
                                                        match sbnd(tzdiv(ag2 * k0, w2)) {
                                                            Err(e) => Err(e),
                                                            Ok(k) => if g1k0 == 0 {
                                                                Err(
                                                                    PoolError::InvariantDidNotConverge,
                                                                )
                                                            } else {
                                                                Ok(
                                                                    (d2, pnn, s, ag2, k, g1k0, gpk0),
                                                                )
                                                            },
                                                        }
                                                    },
                                                },
                                            },
                                        },
                                    },
                                }
                            },
                        },
                    },
                },
            },
        },
    }
}

/// The middle of the derivative evaluation: the two terms that come from
/// the derivative of the curve coefficient, as `(term_a, term_c)`.
pub open spec fn df_mid_spec(
    d: int,
    d2: int,
    pnn: int,
    s: int,
    ag2: int,
    g1k0: int,
    gpk0: int,
) -> Result<(int, int), PoolError> {
    let one: int = ONE as int;
    let two: int = 2 * ONE;
    match sbnd(tzdiv(ag2 * gpk0, g1k0)) {
        Err(e) => Err(e),
        Ok(e1) => match sbnd(tzdiv(e1 * one, g1k0)) {
            Err(e) => Err(e),
            Ok(e2) => match sbnd(tzdiv(e2 * one, g1k0)) {
                Err(e) => Err(e),
                Ok(e3) => match sbnd(tzdiv(pnn * s, d2)) {
                    Err(e) => Err(e),
                    Ok(ta1) => match sbnd(tz(e3 * ta1, one)) {
                        Err(e) => Err(e),
                        Ok(ta2) => match sbnd(tz(ta2 * two, one)) {
                            Err(e) => Err(e),
                            Ok(term_a) => if d == 0 {
                                Err(PoolError::InvariantDidNotConverge)
                            } else {
                                match sbnd(tzdiv(pnn * e3, d)) {
                                    Err(e) => Err(e),
                                    Ok(tc1) => match sbnd(tz(tc1 * two, one)) {
                                        Err(e) => Err(e),
                                        Ok(term_c) => Ok((term_a, term_c)),
                                    },
                                }
                            },
                        },
                    },
                },
            },
        },
    }
}

/// The tail of the derivative evaluation: the assembled sum.
pub open spec fn df_tail_spec(d: int, s: int, k: int, term_a: int, term_c: int) -> Result<
    int,
    PoolError,
> {
    let one: int = ONE as int;
    let two: int = 2 * ONE;
    match sbnd(tz(k * s, one)) {
        Err(e) => Err(e),
        Ok(ks) => match sbnd(tz(k * d, one)) {
            Err(e) => Err(e),
            Ok(kd) => match sbnd(tz(kd * two, one)) {
                Err(e) => Err(e),
                Ok(kd2) => match sbnd(tzdiv(d * one, two)) {
                    Err(e) => Err(e),
                    Ok(dhalf) => match sbnd(ks - term_a) {
                        Err(e) => Err(e),
                        Ok(r1) => match sbnd(r1 + term_c) {
                            Err(e) => Err(e),
                            Ok(r2) => match sbnd(r2 - kd2) {
                                Err(e) => Err(e),
                                Ok(r3) => sbnd(r3 - dhalf),
                            },
                        },
                    },
                },
            },
        },
    }
}

/// The derivative of the curve polynomial in `d`, with the exact rounding
/// of the executable path.
pub open spec fn df_spec(d: int, x0: int, x1: int, a: int, g: int) -> Result<int, PoolError> {
    match df_head_spec(d, x0, x1, a, g) {
        Err(e) => Err(e),
        Ok(h) => match df_mid_spec(d, h.0, h.1, h.2, h.3, h.5, h.6) {
            Err(e) => Err(e),
            Ok(m) => df_tail_spec(d, h.2, h.4, m.0, m.1),
        },
    }
}

/// The executable head of the derivative; exact mirror of [`df_head_spec`].
#[verifier::rlimit(100)]
fn curve_df_head(d: SDec, x0: SDec, x1: SDec, a: SDec, g: SDec) -> (r: Result<
    (SDec, SDec, SDec, SDec, SDec, SDec, SDec),
    PoolError,
>)
    ensures
        match r {
            Ok(v) => df_head_spec(d.sval(), x0.sval(), x1.sval(), a.sval(), g.sval()) == Ok::<
                (int, int, int, int, int, int, int),
                PoolError,
            >(
                (
                    v.0.sval(),
                    v.1.sval(),
                    v.2.sval(),
                    v.3.sval(),
                    v.4.sval(),
                    v.5.sval(),
                    v.6.sval(),
                ),
            ),
            Err(e) => df_head_spec(d.sval(), x0.sval(), x1.sval(), a.sval(), g.sval()) == Err::<
                (int, int, int, int, int, int, int),
                PoolError,
            >(e),
        },
        r matches Ok(v) ==> v.0.val.atomics > 0 && v.5.val.atomics > 0,
{
    let one_s = SDec::from_dec(Dec::one());
    let four = SDec::from_dec(Dec::raw(4 * ONE));
    let d2 = d.checked_mul(d)?;
    let mul = x0.checked_mul(x1)?;
    let pnn = mul.checked_mul(four)?;
    let s = x0.checked_add(x1)?;
    let g2 = g.checked_mul(g)?;
    let ag2 = a.checked_mul(g2)?;
    if d2.val.atomics == 0 {
        return Err(PoolError::InvariantDidNotConverge);
    }
    let k0 = pnn.checked_div(d2)?;
    let gp1 = g.checked_add(one_s)?;
    let g1k0 = gp1.checked_sub(k0)?;
    let gpk0 = gp1.checked_add(k0)?;
    let w2 = g1k0.checked_mul(g1k0)?;
    if w2.val.atomics == 0 {
        return Err(PoolError::InvariantDidNotConverge);
    }
    let k = ag2.checked_mul_div(k0, w2)?;
    if g1k0.val.atomics == 0 {
        return Err(PoolError::InvariantDidNotConverge);
    }
    Ok((d2, pnn, s, ag2, k, g1k0, gpk0))
}

/// The executable middle of the derivative; exact mirror of
/// [`df_mid_spec`].
#[verifier::rlimit(100)]
fn curve_df_mid(d: SDec, d2: SDec, pnn: SDec, s: SDec, ag2: SDec, g1k0: SDec, gpk0: SDec) -> (r:
    Result<(SDec, SDec), PoolError>)
    requires
        d2.val.atomics > 0,
        g1k0.val.atomics > 0,
    ensures
        match r {
            Ok(v) => df_mid_spec(
                d.sval(),
                d2.sval(),
                pnn.sval(),
                s.sval(),
                ag2.sval(),
                g1k0.sval(),
                gpk0.sval(),
            ) == Ok::<(int, int), PoolError>((v.0.sval(), v.1.sval())),
            Err(e) => df_mid_spec(
                d.sval(),
                d2.sval(),
                pnn.sval(),
                s.sval(),
                ag2.sval(),
                g1k0.sval(),
                gpk0.sval(),
            ) == Err::<(int, int), PoolError>(e),
        },
{
    let one_s = SDec::from_dec(Dec::one());
    let two_s = SDec::from_dec(Dec::raw(2 * ONE));
    let e1 = ag2.checked_mul_div(gpk0, g1k0)?;
    let e2 = e1.checked_mul_div(one_s, g1k0)?;
    let e3 = e2.checked_mul_div(one_s, g1k0)?;
    let ta1 = pnn.checked_mul_div(s, d2)?;
    let ta2 = e3.checked_mul(ta1)?;
    let term_a = ta2.checked_mul(two_s)?;
    if d.val.atomics == 0 {
        return Err(PoolError::InvariantDidNotConverge);
    }
    let tc1 = pnn.checked_mul_div(e3, d)?;
    let term_c = tc1.checked_mul(two_s)?;
    Ok((term_a, term_c))
}

/// The executable tail of the derivative; exact mirror of
/// [`df_tail_spec`].
#[verifier::rlimit(100)]
fn curve_df_tail(d: SDec, s: SDec, k: SDec, term_a: SDec, term_c: SDec) -> (r: Result<
    SDec,
    PoolError,
>)
    ensures
        match r {
            Ok(v) => df_tail_spec(d.sval(), s.sval(), k.sval(), term_a.sval(), term_c.sval())
                == Ok::<int, PoolError>(v.sval()),
            Err(e) => df_tail_spec(d.sval(), s.sval(), k.sval(), term_a.sval(), term_c.sval())
                == Err::<int, PoolError>(e),
        },
{
    let two_s = SDec::from_dec(Dec::raw(2 * ONE));
    let ks = k.checked_mul(s)?;
    let kd = k.checked_mul(d)?;
    let kd2 = kd.checked_mul(two_s)?;
    let dhalf = d.checked_div(two_s)?;
    let r1 = ks.checked_sub(term_a)?;
    let r2 = r1.checked_add(term_c)?;
    let r3 = r2.checked_sub(kd2)?;
    r3.checked_sub(dhalf)
}

/// The derivative of the curve polynomial in `d`; exact mirror of
/// [`df_spec`].
pub fn curve_df_dd(d: SDec, x0: SDec, x1: SDec, a: SDec, g: SDec) -> (r: Result<SDec, PoolError>)
    ensures
        match r {
            Ok(v) => df_spec(d.sval(), x0.sval(), x1.sval(), a.sval(), g.sval()) == Ok::<
                int,
                PoolError,
            >(v.sval()),
            Err(e) => df_spec(d.sval(), x0.sval(), x1.sval(), a.sval(), g.sval()) == Err::<
                int,
                PoolError,
            >(e),
        },
{
    let (d2, pnn, s, ag2, k, g1k0, gpk0) = curve_df_head(d, x0, x1, a, g)?;
    let (term_a, term_c) = curve_df_mid(d, d2, pnn, s, ag2, g1k0, gpk0)?;
    curve_df_tail(d, s, k, term_a, term_c)
}

/// Evaluates the curve polynomial at `d` for the scaled reserves
/// `(x0, x1)` and parameters `(a, g)`; exact mirror of [`f_spec`].
pub fn curve_f(d: SDec, x0: SDec, x1: SDec, a: SDec, g: SDec) -> (r: Result<SDec, PoolError>)
    ensures
        match r {
            Ok(v) => f_spec(d.sval(), x0.sval(), x1.sval(), a.sval(), g.sval()) == Ok::<
                int,
                PoolError,
            >(v.sval()),
            Err(e) => f_spec(d.sval(), x0.sval(), x1.sval(), a.sval(), g.sval()) == Err::<
                int,
                PoolError,
            >(e),
        },
{
    let (mul, d2, t2, den) = curve_f_head(d, x0, x1, a, g)?;
    curve_f_tail(d, x0, x1, mul, d2, t2, den)
}

/// The tail of the derivative in the unknown reserve: the coefficient
/// `k_x` and the assembled sum.
pub open spec fn dfx_tail_spec(
    d: int,
    d2: int,
    s: int,
    ag2: int,
    k: int,
    g1k0: int,
    gpk0: int,
    xr: int,
) -> Result<int, PoolError> {
    let one: int = ONE as int;
    let four: int = 4 * ONE;
    match sbnd(tzdiv(ag2 * gpk0, g1k0)) {
        Err(e) => Err(e),
        Ok(h1) => match sbnd(tzdiv(h1 * one, g1k0)) {
            Err(e) => Err(e),
            Ok(h2) => match sbnd(tzdiv(h2 * one, g1k0)) {
                Err(e) => Err(e),
                Ok(h3) => match sbnd(tz(xr * four, one)) {
                    Err(e) => Err(e),
                    Ok(k0x) => match sbnd(tzdiv(h3 * k0x, d2)) {
                        Err(e) => Err(e),
                        Ok(kx) => match sbnd(tz(kx * s, one)) {
                            Err(e) => Err(e),
                            Ok(m1) => match sbnd(m1 + k) {
                                Err(e) => Err(e),
                                Ok(m2) => match sbnd(tz(m2 * d, one)) {
                                    Err(e) => Err(e),
                                    Ok(m3) => match sbnd(m3 + xr) {
                                        Err(e) => Err(e),
                                        Ok(m4) => match sbnd(tz(kx * d2, one)) {
                                            Err(e) => Err(e),
                                            Ok(m5) => sbnd(m4 - m5),
                                        },
                                    },
                                },
                            },
                        },
                    },
                },
            },
        },
    }
}

/// The derivative of the curve polynomial in the unknown reserve `xi`,
/// where `xr` is the known reserve.
pub open spec fn dfx_spec(d: int, xi: int, xr: int, a: int, g: int) -> Result<int, PoolError> {
    match df_head_spec(d, xi, xr, a, g) {
        Err(e) => Err(e),
        Ok(h) => dfx_tail_spec(d, h.0, h.2, h.3, h.4, h.5, h.6, xr),
    }
}

/// The executable tail of the derivative in the unknown reserve; exact
/// mirror of [`dfx_tail_spec`].
#[verifier::rlimit(100)]
fn curve_dfx_tail(
    d: SDec,
    d2: SDec,
    s: SDec,
    ag2: SDec,
    k: SDec,
    g1k0: SDec,
    gpk0: SDec,
    xr: SDec,
) -> (r: Result<SDec, PoolError>)
    requires
        d2.val.atomics > 0,
        g1k0.val.atomics > 0,
    ensures
        match r {
            Ok(v) => dfx_tail_spec(
                d.sval(),
                d2.sval(),
                s.sval(),
                ag2.sval(),
                k.sval(),
                g1k0.sval(),
                gpk0.sval(),
                xr.sval(),
            ) == Ok::<int, PoolError>(v.sval()),
            Err(e) => dfx_tail_spec(
                d.sval(),
                d2.sval(),
                s.sval(),
                ag2.sval(),
                k.sval(),
                g1k0.sval(),
                gpk0.sval(),
                xr.sval(),
            ) == Err::<int, PoolError>(e),
        },
{
    let one_s = SDec::from_dec(Dec::one());
    let four = SDec::from_dec(Dec::raw(4 * ONE));
    let h1 = ag2.checked_mul_div(gpk0, g1k0)?;
    let h2 = h1.checked_mul_div(one_s, g1k0)?;
    let h3 = h2.checked_mul_div(one_s, g1k0)?;
    let k0x = xr.checked_mul(four)?;
    let kx = h3.checked_mul_div(k0x, d2)?;
    let m1 = kx.checked_mul(s)?;
    let m2 = m1.checked_add(k)?;
    let m3 = m2.checked_mul(d)?;
    let m4 = m3.checked_add(xr)?;
    let m5 = kx.checked_mul(d2)?;
    m4.checked_sub(m5)
}

/// The derivative of the curve polynomial in the unknown reserve; exact
/// mirror of [`dfx_spec`].
pub fn curve_df_dx(d: SDec, xi: SDec, xr: SDec, a: SDec, g: SDec) -> (r: Result<SDec, PoolError>)
    ensures
        match r {
            Ok(v) => dfx_spec(d.sval(), xi.sval(), xr.sval(), a.sval(), g.sval()) == Ok::<
                int,
                PoolError,
            >(v.sval()),
            Err(e) => dfx_spec(d.sval(), xi.sval(), xr.sval(), a.sval(), g.sval()) == Err::<
                int,
                PoolError,
            >(e),
        },
{
    let (d2, _pnn, s, ag2, k, g1k0, gpk0) = curve_df_head(d, xi, xr, a, g)?;
    curve_dfx_tail(d, d2, s, ag2, k, g1k0, gpk0, xr)
}

/// One whole run of the Newton iteration for the invariant `D`, from the
/// iterate `d_prev` with `fuel` steps left. The iteration stops as soon as
/// a step moves the iterate by at most [`TOL`]; a negative converged value
/// or exhausted fuel is a convergence failure.
pub open spec fn newton_d_loop(x0: int, x1: int, a: int, g: int, d_prev: int, fuel: nat) -> Result<
    int,
    PoolError,
>
    decreases fuel,
{
    if fuel == 0 {
        Err(PoolError::InvariantDidNotConverge)
    } else {
        match f_spec(d_prev, x0, x1, a, g) {
            Err(e) => Err(e),
            Ok(fv) => match df_spec(d_prev, x0, x1, a, g) {
                Err(e) => Err(e),
                Ok(dfv) => if dfv == 0 {
                    Err(PoolError::InvariantDidNotConverge)
                } else {
                    match sbnd(tzdiv(fv * (ONE as int), dfv)) {
                        Err(e) => Err(e),
                        Ok(step) => match sbnd(d_prev - step) {
                            Err(e) => Err(e),
                            Ok(d_new) => if (if step >= 0 {
                                step
                            } else {
                                -step
                            }) <= TOL {
                                if d_new < 0 {
                                    Err(PoolError::InvariantDidNotConverge)
                                } else {
                                    Ok(d_new)
                                }
                            } else {
                                newton_d_loop(x0, x1, a, g, d_new, (fuel - 1) as nat)
                            },
                        },
                    }
                },
            },
        }
    }
}

/// The invariant `D` for scaled reserves `(x0, x1)` and parameters
/// `(a, g)`: Newton iteration from the constant-sum starting point
/// `2 * sqrt(x0 * x1)`.
pub open spec fn newton_d_spec(x0: int, x1: int, a: int, g: int) -> Result<int, PoolError> {
    let one: int = ONE as int;
    match sbnd(tz(x0 * x1, one)) {
        Err(e) => Err(e),
        Ok(mul0) => match sbnd(tz(sqrt_atomics(mul0) * (2 * one), one)) {
            Err(e) => Err(e),
            Ok(d0) => newton_d_loop(x0, x1, a, g, d0, MAX_ITER as nat),
        },
    }
}

/// The executable Newton iteration for `D`; exact mirror of
/// [`newton_d_loop`].
#[verifier::rlimit(100)]
fn newton_d_iter(x0: SDec, x1: SDec, a: SDec, g: SDec, d_prev: SDec, fuel: u64) -> (r: Result<
    Dec,
    PoolError,
>)
    ensures
        match r {
            Ok(v) => newton_d_loop(
                x0.sval(),
                x1.sval(),
                a.sval(),
                g.sval(),
                d_prev.sval(),
                fuel as nat,
            ) == Ok::<int, PoolError>(v.atomics as int),
            Err(e) => newton_d_loop(
                x0.sval(),
                x1.sval(),
                a.sval(),
                g.sval(),
                d_prev.sval(),
                fuel as nat,
            ) == Err::<int, PoolError>(e),
        },
    decreases fuel,
{
    if fuel == 0 {
        return Err(PoolError::InvariantDidNotConverge);
    }
    let fv = curve_f(d_prev, x0, x1, a, g)?;
    let dfv = curve_df_dd(d_prev, x0, x1, a, g)?;
    if dfv.val.atomics == 0 {
        return Err(PoolError::InvariantDidNotConverge);
    }
    let step = fv.checked_div(dfv)?;
    let d_new = d_prev.checked_sub(step)?;
    if step.val.atomics <= TOL {
        match d_new.to_dec() {
            Some(v) => Ok(v),
            None => Err(PoolError::InvariantDidNotConverge),
        }
    } else {
        newton_d_iter(x0, x1, a, g, d_new, fuel - 1)
    }
}

/// Computes the invariant `D` for the scaled reserves and the given
/// amplification and gamma; exact mirror of [`newton_d_spec`].
pub fn calc_d(x0: Dec, x1: Dec, amp: Dec, gamma: Dec) -> (r: Result<Dec, PoolError>)
    ensures
        match r {
            Ok(v) => newton_d_spec(
                x0.atomics as int,
                x1.atomics as int,
                amp.atomics as int,
                gamma.atomics as int,
            ) == Ok::<int, PoolError>(v.atomics as int),
            Err(e) => newton_d_spec(
                x0.atomics as int,
                x1.atomics as int,
                amp.atomics as int,
                gamma.atomics as int,
            ) == Err::<int, PoolError>(e),
        },
{
    proof {
        assert(x0.atomics as int * x1.atomics as int >= 0) by (nonlinear_arith);
    }
    let mul0 = x0.checked_mul(x1)?;
    let gm = mul0.sqrt();
    let d0 = gm.checked_mul(Dec::raw(2 * ONE))?;
    proof {
        assert(gm.atomics as int * (2 * ONE) >= 0) by (nonlinear_arith);
    }
    newton_d_iter(
        SDec::from_dec(x0),
        SDec::from_dec(x1),
        SDec::from_dec(amp),
        SDec::from_dec(gamma),
        SDec::from_dec(d0),
        MAX_ITER,
    )
}

/// One whole run of the Newton iteration for the unknown reserve, from the
/// iterate `xi_prev` with `fuel` steps left.
pub open spec fn newton_y_loop(xr: int, a: int, g: int, d: int, xi_prev: int, fuel: nat) -> Result<
    int,
    PoolError,
>
    decreases fuel,
{
    if fuel == 0 {
        Err(PoolError::InvariantDidNotConverge)
    } else {
        match f_spec(d, xi_prev, xr, a, g) {
            Err(e) => Err(e),
            Ok(fv) => match dfx_spec(d, xi_prev, xr, a, g) {
                Err(e) => Err(e),
                Ok(dfv) => if dfv == 0 {
                    Err(PoolError::InvariantDidNotConverge)
                } else {
                    match sbnd(tzdiv(fv * (ONE as int), dfv)) {
                        Err(e) => Err(e),
                        Ok(step) => match sbnd(xi_prev - step) {
                            Err(e) => Err(e),
                            Ok(xi_new) => if (if step >= 0 {
                                step
                            } else {
                                -step
                            }) <= TOL {
                                if xi_new < 0 {
                                    Err(PoolError::InvariantDidNotConverge)
                                } else {
                                    Ok(xi_new)
                                }
                            } else {
                                newton_y_loop(xr, a, g, d, xi_new, (fuel - 1) as nat)
                            },
                        },
                    }
                },
            },
        }
    }
}

/// The unknown reserve for a given invariant `D` and known reserve `xr`:
/// Newton iteration from the constant-product starting point
/// `d^2 / (4 * xr)`.
pub open spec fn newton_y_spec(xr: int, a: int, g: int, d: int) -> Result<int, PoolError> {
    let one: int = ONE as int;
    match sbnd(tz(xr * (4 * one), one)) {
        Err(e) => Err(e),
        Ok(den) => match sbnd(tzdiv(d * d, den)) {
            Err(e) => Err(e),
            Ok(x0i) => newton_y_loop(xr, a, g, d, x0i, MAX_ITER as nat),
        },
    }
}

/// The executable Newton iteration for the unknown reserve; exact mirror
/// of [`newton_y_loop`].
#[verifier::rlimit(100)]
fn newton_y_iter(xr: SDec, a: SDec, g: SDec, d: SDec, xi_prev: SDec, fuel: u64) -> (r: Result<
    Dec,
    PoolError,
>)
    ensures
        match r {
            Ok(v) => newton_y_loop(
                xr.sval(),
                a.sval(),
                g.sval(),
                d.sval(),
                xi_prev.sval(),
                fuel as nat,
            ) == Ok::<int, PoolError>(v.atomics as int),
            Err(e) => newton_y_loop(
                xr.sval(),
                a.sval(),
                g.sval(),
                d.sval(),
                xi_prev.sval(),
                fuel as nat,
            ) == Err::<int, PoolError>(e),
        },
    decreases fuel,
{
    if fuel == 0 {
        return Err(PoolError::InvariantDidNotConverge);
    }
    let fv = curve_f(d, xi_prev, xr, a, g)?;
    let dfv = curve_df_dx(d, xi_prev, xr, a, g)?;
    if dfv.val.atomics == 0 {
        return Err(PoolError::InvariantDidNotConverge);
    }
    let step = fv.checked_div(dfv)?;
    let xi_new = xi_prev.checked_sub(step)?;
    if step.val.atomics <= TOL {
        match xi_new.to_dec() {
            Some(v) => Ok(v),
            None => Err(PoolError::InvariantDidNotConverge),
        }
    } else {
        newton_y_iter(xr, a, g, d, xi_new, fuel - 1)
    }
}

/// Computes the unknown reserve holding the invariant `D` fixed, given the
/// other, known reserve; exact mirror of [`newton_y_spec`].
pub fn calc_y(xr: Dec, d: Dec, amp: Dec, gamma: Dec) -> (r: Result<Dec, PoolError>)
    requires
        xr.atomics > 0,
    ensures
        match r {
            Ok(v) => newton_y_spec(
                xr.atomics as int,
                amp.atomics as int,
                gamma.atomics as int,
                d.atomics as int,
            ) == Ok::<int, PoolError>(v.atomics as int),
            Err(e) => newton_y_spec(
                xr.atomics as int,
                amp.atomics as int,
                gamma.atomics as int,
                d.atomics as int,
            ) == Err::<int, PoolError>(e),
        },
{
    proof {
        assert(xr.atomics as int * (4 * ONE) >= 4 * ONE) by (nonlinear_arith)
            requires
                xr.atomics >= 1,
        ;
        assert(d.atomics as int * d.atomics as int >= 0) by (nonlinear_arith);
    }
    let den = xr.checked_mul(Dec::raw(4 * ONE))?;
    proof {
        lemma_div_is_ordered(4 * (ONE as int), xr.atomics as int * (4 * ONE), ONE as int);
    }
    let x0i = d.checked_mul_div(d, den)?;
    newton_y_iter(
        SDec::from_dec(xr),
        SDec::from_dec(amp),
        SDec::from_dec(gamma),
        SDec::from_dec(d),
        SDec::from_dec(x0i),
        MAX_ITER,
    )
}

/// The pool's virtual balanced value `xcp` for an invariant `d` and a
/// price scale: the geometric mean of the balanced reserves `d / 2` and
/// `d / (2 * price_scale)`.
pub open spec fn xcp_spec(d: int, ps: int) -> Result<int, PoolError> {
    let one: int = ONE as int;
    match sbnd(tzdiv(d * one, 2 * one)) {
        Err(e) => Err(e),
        Ok(x0) => match sbnd(tz((2 * one) * ps, one)) {
            Err(e) => Err(e),
            Ok(den2) => if den2 == 0 {
                Err(PoolError::ArithmeticOverflow)
            } else {
                match sbnd(tzdiv(d * one, den2)) {
                    Err(e) => Err(e),
                    Ok(x1) => match sbnd(tz(x0 * x1, one)) {
                        Err(e) => Err(e),
                        Ok(mul) => Ok(sqrt_atomics(mul)),
                    },
                }
            },
        },
    }
}

/// Computes `xcp` for an invariant and a price scale; exact mirror of
/// [`xcp_spec`].
#[verifier::rlimit(100)]
pub fn get_xcp(d: Dec, price_scale: Dec) -> (r: Result<Dec, PoolError>)
    ensures
        match r {
            Ok(v) => xcp_spec(d.atomics as int, price_scale.atomics as int) == Ok::<
                int,
                PoolError,
            >(v.atomics as int),
            Err(e) => xcp_spec(d.atomics as int, price_scale.atomics as int) == Err::<
                int,
                PoolError,
            >(e),
        },
{
    let two = Dec::raw(2 * ONE);
    proof {
        assert(d.atomics as int * (ONE as int) >= 0) by (nonlinear_arith);
        assert((2 * ONE as int) * (price_scale.atomics as int) >= 0) by (nonlinear_arith);
    }
    let x0 = d.checked_div(two)?;
    let den2 = two.checked_mul(price_scale)?;
    if den2.atomics == 0 {
        return Err(PoolError::ArithmeticOverflow);
    }
    let x1 = d.checked_div(den2)?;
    proof {
        assert(x0.atomics as int * x1.atomics as int >= 0) by (nonlinear_arith);
    }
    let mul = x0.checked_mul(x1)?;
    Ok(mul.sqrt())
}

} // verus!
