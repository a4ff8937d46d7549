//! Double-width unsigned arithmetic.
//!
//! The fixed-point layer needs the exact value of `a * b / d` for `u128`
//! operands even when the product `a * b` does not fit in 128 bits. The
//! helpers here compute with a 256-bit intermediate held as a `(hi, lo)`
//! pair of `u128` halves.

use vstd::prelude::*;
use vstd::arithmetic::div_mod::{
    lemma_fundamental_div_mod, lemma_fundamental_div_mod_converse, lemma_div_is_ordered,
    lemma_div_multiples_vanish, lemma_truncate_middle, lemma_div_multiples_vanish_quotient,
    lemma_mod_division_less_than_divisor,
};
use vstd::arithmetic::power2::{
    pow2, lemma_pow2_adds, lemma_pow2_unfold, lemma_pow2_pos, lemma_pow2_strictly_increases,
    lemma2_to64, lemma2_to64_rest,
};

verus! {

/// 2^64, the split point between the `u64`-sized halves of a `u128`.
pub const HALF: u128 = 0x1_0000_0000_0000_0000;

/// The value of a 256-bit quantity held as two 128-bit halves.
pub open spec fn wide_val(hi: u128, lo: u128) -> int {
    hi as int * 0x1_0000_0000_0000_0000_0000_0000_0000_0000int + lo as int
}

proof fn lemma_pow2_128_facts()
    ensures
        pow2(128) == 0x1_0000_0000_0000_0000_0000_0000_0000_0000int,
        pow2(127) == 0x8000_0000_0000_0000_0000_0000_0000_0000,
{
    lemma2_to64();
    lemma2_to64_rest();
    lemma_pow2_adds(64, 64);
    lemma_pow2_adds(63, 64);
}

/// Exact 256-bit product of two `u128` values, as a `(hi, lo)` pair.
pub fn mul_wide(a: u128, b: u128) -> (r: (u128, u128))
    ensures
        wide_val(r.0, r.1) == a as int * b as int,
{
    let ah: u128 = a / HALF;
    let al: u128 = a % HALF;
    let bh: u128 = b / HALF;
    let bl: u128 = b % HALF;
    proof {
        lemma_fundamental_div_mod(a as int, HALF as int);
        lemma_fundamental_div_mod(b as int, HALF as int);
        assert(ah < HALF && bh < HALF) by {
            assert((a as int) / (HALF as int) < (HALF as int)) by (nonlinear_arith)
                requires
                    a <= 0xffff_ffff_ffff_ffff_ffff_ffff_ffff_ffff,
            ;
            assert((b as int) / (HALF as int) < (HALF as int)) by (nonlinear_arith)
                requires
                    b <= 0xffff_ffff_ffff_ffff_ffff_ffff_ffff_ffff,
            ;
        }
        assert(ah as int * bl as int <= (HALF - 1) * (HALF - 1)
            && al as int * bl as int <= (HALF - 1) * (HALF - 1)
            && al as int * bh as int <= (HALF - 1) * (HALF - 1)
            && ah as int * bh as int <= (HALF - 1) * (HALF - 1)) by (nonlinear_arith)
            requires
                ah < HALF,
                al < HALF,
                bh < HALF,
                bl < HALF,
        ;
    }
    let t0: u128 = al * bl;
    proof {
        lemma_fundamental_div_mod(t0 as int, HALF as int);
        assert((t0 as int) / (HALF as int) <= HALF - 1) by (nonlinear_arith)
            requires
                t0 <= (HALF - 1) * (HALF - 1),
        ;
    }
    let t1: u128 = ah * bl + t0 / HALF;
    proof {
        lemma_fundamental_div_mod(t1 as int, HALF as int);
        assert((t1 as int) / (HALF as int) <= HALF - 1) by (nonlinear_arith)
            requires
                t1 <= (HALF - 1) * (HALF - 1) + (HALF - 1),
        ;
        lemma_mod_division_less_than_divisor(t1 as int, HALF as int);
    }
    let t2: u128 = al * bh + t1 % HALF;
    proof {
        lemma_fundamental_div_mod(t2 as int, HALF as int);
        assert((t2 as int) / (HALF as int) <= HALF - 1) by (nonlinear_arith)
            requires
                t2 <= (HALF - 1) * (HALF - 1) + (HALF - 1),
        ;
        lemma_mod_division_less_than_divisor(t2 as int, HALF as int);
        assert(((t2 as int) % (HALF as int)) * (HALF as int) <= (HALF - 1) * HALF) by (nonlinear_arith)
            requires
                (t2 as int) % (HALF as int) <= HALF - 1,
        ;
    }
    let lo: u128 = (t2 % HALF) * HALF + t0 % HALF;
    let hi: u128 = ah * bh + t1 / HALF + t2 / HALF;
    proof {
        assert(wide_val(hi, lo) == a as int * b as int) by (nonlinear_arith)
            requires
                a == ah as int * HALF + al,
                b == bh as int * HALF + bl,
                t0 == al as int * bl as int,
                t0 == HALF as int * (t0 as int / HALF as int) + t0 as int % HALF as int,
                t1 == ah as int * bl as int + t0 as int / HALF as int,
                t1 == HALF as int * (t1 as int / HALF as int) + t1 as int % HALF as int,
                t2 == al as int * bh as int + t1 as int % HALF as int,
                t2 == HALF as int * (t2 as int / HALF as int) + t2 as int % HALF as int,
                lo == (t2 as int % HALF as int) * HALF as int + t0 as int % HALF as int,
                hi == ah as int * bh as int + t1 as int / HALF as int + t2 as int / HALF as int,
                wide_val(hi, lo) == hi as int * 0x1_0000_0000_0000_0000_0000_0000_0000_0000int
                    + lo as int,
        ;
    }
    (hi, lo)
}

/// Schoolbook binary long division of a 256-bit value by a `u128` divisor.
/// The quotient fits in 128 bits exactly when `hi < d`.
pub fn div_wide(hi: u128, lo: u128, d: u128) -> (r: (u128, u128))
    requires
        d > 0,
        hi < d,
    ensures
        r.0 as int * d as int + r.1 as int == wide_val(hi, lo),
        r.1 < d,
{
    let mut q: u128 = 0;
    let mut rem: u128 = hi;
    let mut sh: u128 = lo;
    let ghost mut lo_left: int = lo as int;
    let mut i: usize = 0;
    proof {
        lemma_pow2_128_facts();
        lemma2_to64();
    }
    while i < 128
        invariant
            i <= 128,
            d > 0,
            rem < d,
            q < pow2(i as nat),
            0 <= lo_left < pow2((128 - i) as nat),
            sh as int == lo_left * pow2(i as nat),
            wide_val(hi, lo) == (q as int * d as int + rem as int) * pow2((128 - i) as nat)
                + lo_left,
            pow2(128) == 0x1_0000_0000_0000_0000_0000_0000_0000_0000int,
            pow2(127) == 0x8000_0000_0000_0000_0000_0000_0000_0000,
        decreases 128 - i,
    {
        let ghost iw: nat = i as nat;
        let ghost small: int = pow2((127 - i) as nat) as int;
        let ghost p_i: int = pow2(iw) as int;
        proof {
            lemma_pow2_pos((127 - i) as nat);
            lemma_pow2_pos(iw);
            lemma_pow2_adds(iw, (127 - i) as nat);  // pow2(127) == p_i * small
            lemma_pow2_unfold((128 - i) as nat);  // pow2(128 - i) == 2 * small
            assert(pow2(127) == p_i * small);
            assert(pow2((128 - i) as nat) == 2 * small);
            assert(sh as int == p_i * lo_left) by (nonlinear_arith)
                requires
                    sh as int == lo_left * p_i,
            ;
            // top bit of the unprocessed low part
            lemma_div_multiples_vanish_quotient(p_i, lo_left, small);
            assert((sh as int) / (pow2(127) as int) == lo_left / small);
        }
        let bit: u128 = sh / 0x8000_0000_0000_0000_0000_0000_0000_0000;
        proof {
            assert(bit as int == lo_left / small);
            lemma_fundamental_div_mod(lo_left, small);
            lemma_mod_division_less_than_divisor(lo_left, small);
            // the unprocessed part holds at most 128 - i bits, so its top bit
            // is 0 or 1
            assert(lo_left / small < 2) by (nonlinear_arith)
                requires
                    0 <= lo_left,
                    lo_left < 2 * small,
                    small > 0,
            ;
            lemma_truncate_middle(lo_left, p_i, small);
            assert((sh as int) % (pow2(127) as int) == p_i * (lo_left % small));
        }
        let new_sh: u128 = (sh % 0x8000_0000_0000_0000_0000_0000_0000_0000) * 2;
        proof {
            lemma_pow2_unfold((iw + 1) as nat);
            assert(new_sh as int == (lo_left % small) * pow2((iw + 1) as nat)) by (nonlinear_arith)
                requires
                    new_sh as int == (p_i * (lo_left % small)) * 2,
                    pow2((iw + 1) as nat) == 2 * p_i,
            ;
        }
        sh = new_sh;
        // shift the remainder up one bit, bring the top bit in, and subtract
        // the divisor where it fits
        let ghost old_q: u128 = q;
        let ghost old_rem: u128 = rem;
        proof {
            // headroom for doubling the quotient
            if iw < 127 {
                lemma_pow2_strictly_increases(iw, 127);
            }
            assert(q < 0x8000_0000_0000_0000_0000_0000_0000_0000);
        }
        if rem >= 0x8000_0000_0000_0000_0000_0000_0000_0000 {
            // the doubled remainder carries past 128 bits, so it always
            // exceeds the divisor
            let t: u128 = (rem - 0x8000_0000_0000_0000_0000_0000_0000_0000) * 2 + bit;
            proof {
                assert(t as int + 0x1_0000_0000_0000_0000_0000_0000_0000_0000int
                    == 2 * (rem as int) + (bit as int));
                assert(2 * (rem as int) + (bit as int) - (d as int) < (d as int));
            }
            rem = t + (u128::MAX - d) + 1;
            q = q * 2 + 1;
            proof {
                assert(rem as int == 2 * (old_rem as int) + (bit as int) - (d as int));
                assert(q as int * d as int + rem as int == 2 * (old_q as int * d as int) + 2 * (
                old_rem as int) + bit as int) by (nonlinear_arith)
                    requires
                        q == 2 * (old_q as int) + 1,
                        rem as int == 2 * (old_rem as int) + (bit as int) - (d as int),
                ;
            }
        } else {
            let t: u128 = rem * 2 + bit;
            if t >= d {
                rem = t - d;
                q = q * 2 + 1;
                proof {
                    assert(q as int * d as int + rem as int == 2 * (old_q as int * d as int) + 2
                        * (old_rem as int) + bit as int) by (nonlinear_arith)
                        requires
                            q == 2 * (old_q as int) + 1,
                            rem as int == 2 * (old_rem as int) + (bit as int) - (d as int),
                    ;
                }
            } else {
                rem = t;
                q = q * 2;
                proof {
                    assert(q as int * d as int + rem as int == 2 * (old_q as int * d as int) + 2
                        * (old_rem as int) + bit as int) by (nonlinear_arith)
                        requires
                            q == 2 * (old_q as int),
                            rem as int == 2 * (old_rem as int) + (bit as int),
                    ;
                }
            }
        }
        proof {
            lemma_pow2_unfold((iw + 1) as nat);
            // value preservation across the shift-and-subtract step
            assert(wide_val(hi, lo) == (q as int * d as int + rem as int) * small + (lo_left
                % small)) by (nonlinear_arith)
                requires
                    wide_val(hi, lo) == (old_q as int * d as int + old_rem as int) * (2 * small)
                        + lo_left,
                    lo_left == small * (bit as int) + lo_left % small,
                    q as int * d as int + rem as int == 2 * (old_q as int * d as int) + 2 * (
                    old_rem as int) + bit as int,
            ;
            // the doubled quotient still fits under the next power of two
            assert(q < pow2((iw + 1) as nat));
        }
        proof {
            lo_left = lo_left % small;
        }
        i = i + 1;
    }
    proof {
        lemma2_to64();
        assert(pow2(0) == 1);
        assert(lo_left == 0);
        assert(wide_val(hi, lo) == (q as int * d as int + rem as int) * pow2((128 - i) as nat)
            + lo_left);
        assert((q as int * d as int + rem as int) * 1 == q as int * d as int + rem as int)
            by (nonlinear_arith);
        assert(wide_val(hi, lo) == q as int * d as int + rem as int);
    }
    (q, rem)
}

/// Whether the 256-bit value `(ah, al)` is at most `(bh, bl)`.
pub fn wide_le(ah: u128, al: u128, bh: u128, bl: u128) -> (r: bool)
    ensures
        r == (wide_val(ah, al) <= wide_val(bh, bl)),
{
    if ah < bh {
        true
    } else if ah == bh {
        al <= bl
    } else {
        false
    }
}

/// Integer square root of a 256-bit value: the largest `r` with
/// `r * r <= wide_val(hi, lo)`.
pub fn isqrt_wide(hi: u128, lo: u128) -> (r: u128)
    requires
        hi < 0x4000_0000_0000_0000_0000_0000_0000_0000,
    ensures
        r as int * r as int <= wide_val(hi, lo),
        wide_val(hi, lo) < (r as int + 1) * (r as int + 1),
{
    let ghost n: int = wide_val(hi, lo);
    let mut r: u128 = 0;
    let mut p: u128 = 0x8000_0000_0000_0000_0000_0000_0000_0000;
    let ghost mut k: nat = 127;
    proof {
        lemma_pow2_128_facts();
        assert((0 + 2 * p as int) * (0 + 2 * p as int) > n) by (nonlinear_arith)
            requires
                p == 0x8000_0000_0000_0000_0000_0000_0000_0000int,
                n < 0x4000_0000_0000_0000_0000_0000_0000_0000int
                    * 0x1_0000_0000_0000_0000_0000_0000_0000_0000int
                    + 0x1_0000_0000_0000_0000_0000_0000_0000_0000int,
        ;
    }
    while p > 0
        invariant
            r as int * r as int <= n,
            p > 0 ==> (r as int + 2 * p as int) * (r as int + 2 * p as int) > n,
            p == 0 ==> (r as int + 1) * (r as int + 1) > n,
            p > 0 ==> p == pow2(k),
            r as int + 2 * p as int <= 0x1_0000_0000_0000_0000_0000_0000_0000_0000int,
            n == wide_val(hi, lo),
        decreases p,
    {
        let ghost old_r: u128 = r;
        let ghost old_p: u128 = p;
        let c: u128 = r + p;
        let (sh, sl) = mul_wide(c, c);
        if wide_le(sh, sl, hi, lo) {
            r = c;
        }
        proof {
            // whichever branch ran, the next candidate up is already too big
            assert((r as int + old_p as int) * (r as int + old_p as int) > n);
            if k > 0 {
                lemma_pow2_unfold(k);
                lemma_pow2_pos((k - 1) as nat);
                lemma_div_multiples_vanish(pow2((k - 1) as nat) as int, 2);
                assert(old_p as int / 2 == pow2((k - 1) as nat));
                k = (k - 1) as nat;
            } else {
                lemma2_to64();
                assert(old_p == 1);
            }
        }
        p = p / 2;
        proof {
            if p > 0 {
                assert(2 * p == old_p);
            }
        }
    }
    r
}

/// Floor of `a * b / d`, computed exactly through a 256-bit product.
/// Returns `None` exactly when the quotient does not fit in a `u128`.
pub fn mul_div_floor(a: u128, b: u128, d: u128) -> (r: Option<u128>)
    requires
        d > 0,
    ensures
        match r {
            Some(q) => q == a as int * b as int / d as int,
            None => a as int * b as int / d as int > u128::MAX,
        },
{
    let (hi, lo) = mul_wide(a, b);
    proof {
        lemma_pow2_128_facts();
    }
    if hi >= d {
        proof {
            let p: int = 0x1_0000_0000_0000_0000_0000_0000_0000_0000int;
            assert(d as int * p <= hi as int * p) by (nonlinear_arith)
                requires
                    d <= hi,
                    p == 0x1_0000_0000_0000_0000_0000_0000_0000_0000int,
            ;
            lemma_div_multiples_vanish(p, d as int);
            lemma_div_is_ordered(d as int * p, a as int * b as int, d as int);
        }
        None
    } else {
        let (q, rem) = div_wide(hi, lo, d);
        proof {
            lemma_fundamental_div_mod_converse(
                a as int * b as int,
                d as int,
                q as int,
                rem as int,
            );
        }
        Some(q)
    }
}

} // verus!
