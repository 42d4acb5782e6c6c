//! Small helpers for fixed-point arithmetic: truncating division (the
//! quotient is rounded toward zero, as a float-to-int conversion would) and
//! clamping into a closed interval.

use vstd::prelude::*;

verus! {

/// Quotient of `a` by `d`, rounded toward zero.
pub open spec fn div_toward_zero(a: int, d: int) -> int {
    if a >= 0 {
        a / d
    } else {
        -((-a) / d)
    }
}

/// `v` limited to the closed interval [`lo`, `hi`].
pub open spec fn clamp(v: int, lo: int, hi: int) -> int {
    if v < lo {
        lo
    } else if v > hi {
        hi
    } else {
        v
    }
}

/// Truncating division never grows the magnitude and keeps the sign.
pub proof fn lemma_div_toward_zero_bounds(a: int, d: int)
    requires
        d >= 1,
    ensures
        a >= 0 ==> 0 <= div_toward_zero(a, d) <= a,
        a < 0 ==> a <= div_toward_zero(a, d) <= 0,
{
    if a >= 0 {
        vstd::arithmetic::div_mod::lemma_div_pos_is_pos(a, d);
        vstd::arithmetic::div_mod::lemma_div_nonincreasing(a, d);
    } else {
        vstd::arithmetic::div_mod::lemma_div_pos_is_pos(-a, d);
        vstd::arithmetic::div_mod::lemma_div_nonincreasing(-a, d);
    }
}

/// Truncating division on wide integers.
pub fn div_fp(a: i128, d: i128) -> (r: i128)
    requires
        d > 0,
        -0x4000_0000_0000_0000_0000_0000_0000_0000 < a,
    ensures
        r as int == div_toward_zero(a as int, d as int),
{
    if a >= 0 {
        proof {
            vstd::arithmetic::div_mod::lemma_div_pos_is_pos(a as int, d as int);
            vstd::arithmetic::div_mod::lemma_div_is_ordered_by_denominator(a as int, 1, d as int);
        }
        a / d
    } else {
        let neg = -a;
        proof {
            vstd::arithmetic::div_mod::lemma_div_pos_is_pos(neg as int, d as int);
            vstd::arithmetic::div_mod::lemma_div_is_ordered_by_denominator(neg as int, 1, d as int);
        }
        -(neg / d)
    }
}

/// Division of a sum of non-negatives loses at most one unit against the
/// sum of the divisions.
proof fn lemma_div_sum_nonneg(x: int, y: int, d: int)
    requires
        d >= 1,
        x >= 0,
        y >= 0,
    ensures
        x / d + y / d <= (x + y) / d <= x / d + y / d + 1,
{
    vstd::arithmetic::div_mod::lemma_fundamental_div_mod(x, d);
    vstd::arithmetic::div_mod::lemma_fundamental_div_mod(y, d);
    vstd::arithmetic::div_mod::lemma_mod_division_less_than_divisor(x, d);
    vstd::arithmetic::div_mod::lemma_mod_division_less_than_divisor(y, d);
    let q = x / d + y / d;
    let rr = x % d + y % d;
    assert(x + y == d * q + rr) by {
        vstd::arithmetic::mul::lemma_mul_is_distributive_add(d, x / d, y / d);
    }
    assert(d * q == q * d) by {
        vstd::arithmetic::mul::lemma_mul_is_commutative(d, q);
    }
    if rr < d {
        vstd::arithmetic::div_mod::lemma_fundamental_div_mod_converse(x + y, d, q, rr);
    } else {
        assert(x + y == (q + 1) * d + (rr - d)) by {
            vstd::arithmetic::mul::lemma_mul_is_distributive_add_other_way(d, q, 1);
            vstd::arithmetic::mul::lemma_mul_is_commutative(d, q + 1);
            vstd::arithmetic::mul::lemma_mul_is_commutative(d, q);
            vstd::arithmetic::mul::lemma_mul_is_commutative(d, 1);
        }
        vstd::arithmetic::div_mod::lemma_fundamental_div_mod_converse(x + y, d, q + 1, rr - d);
    }
}

/// Truncating division is additive up to one unit on same-sign arguments:
/// splitting the dividend costs at most one quantum.
pub proof fn lemma_div_toward_zero_additive(x: int, y: int, d: int)
    requires
        d >= 1,
        (x >= 0 && y >= 0) || (x <= 0 && y <= 0),
    ensures
        div_toward_zero(x, d) + div_toward_zero(y, d) - 1 <= div_toward_zero(x + y, d)
            <= div_toward_zero(x, d) + div_toward_zero(y, d) + 1,
{
    if x >= 0 && y >= 0 {
        lemma_div_sum_nonneg(x, y, d);
    } else {
        lemma_div_sum_nonneg(-x, -y, d);
    }
}

/// The Euclidean remainder, always in [0, `d`).
pub fn rem_euclid_fp(a: i64, d: i64) -> (r: i64)
    requires
        1 <= d,
    ensures
        r as int == (a as int) % (d as int),
        0 <= r < d,
{
    let wide: i128 = a as i128;
    let divisor: i128 = d as i128;
    let mag: i128 = if wide < 0 {
        -wide
    } else {
        wide
    };
    let m: i128 = mag % divisor;
    proof {
        vstd::arithmetic::div_mod::lemma_mod_division_less_than_divisor(mag as int, divisor as int);
        vstd::arithmetic::div_mod::lemma_fundamental_div_mod(mag as int, divisor as int);
        if wide < 0 {
            let q = mag as int / divisor as int;
            if m == 0 {
                assert(wide as int == (-q) * (divisor as int) + 0) by (nonlinear_arith)
                    requires
                        mag as int == (divisor as int) * q + (m as int),
                        m == 0,
                        wide as int == -(mag as int),
                ;
                vstd::arithmetic::div_mod::lemma_fundamental_div_mod_converse_mod(
                    wide as int,
                    divisor as int,
                    -q,
                    0,
                );
            } else {
                assert(wide as int == (-q - 1) * (divisor as int) + (divisor as int - m as int))
                    by (nonlinear_arith)
                    requires
                        mag as int == (divisor as int) * q + (m as int),
                        wide as int == -(mag as int),
                ;
                vstd::arithmetic::div_mod::lemma_fundamental_div_mod_converse_mod(
                    wide as int,
                    divisor as int,
                    -q - 1,
                    divisor as int - m as int,
                );
            }
        }
    }
    let r: i128 = if wide < 0 && m != 0 {
        divisor - m
    } else {
        m
    };
    r as i64
}

/// Clamp a wide integer into [`lo`, `hi`].
pub fn clamp_fp(v: i128, lo: i128, hi: i128) -> (r: i128)
    requires
        lo <= hi,
    ensures
        r as int == clamp(v as int, lo as int, hi as int),
{
    if v < lo {
        lo
    } else if v > hi {
        hi
    } else {
        v
    }
}

} // verus!
