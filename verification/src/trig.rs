//! Fixed-point trigonometric projections of canonical millidegree angles.
//!
//! Sine and cosine are computed by Bhāskara's rational approximation over the
//! integers, scaled by [`TRIG_ONE`].  The approximation is exact at every
//! multiple of 90° and within about 0.2% elsewhere, and — what the camera
//! contracts rest on — its magnitude is strictly below one for any angle
//! strictly between the poles.

use crate::angle::{
    is_canonical_md, lemma_norm_canonical, lemma_norm_congruent, lemma_norm_of_canonical,
    lemma_norm_same_residue, norm_md, FULL_TURN_MD, HALF_TURN_MD, QUARTER_TURN_MD,
};
use vstd::arithmetic::div_mod::{
    lemma_div_is_ordered, lemma_div_multiples_vanish, lemma_div_pos_is_pos,
    lemma_fundamental_div_mod_converse_mod, lemma_multiply_divide_le, lemma_multiply_divide_lt,
    lemma_small_mod, lemma_sub_mod_noop_right,
};
use vstd::prelude::*;

verus! {

/// The fixed-point scale of sine and cosine values: this value stands for 1.0.
pub const TRIG_ONE: i64 = 10_000;

/// `x * (180 000 - x)`, the quantity Bhāskara's formula is built from.
pub open spec fn bhaskara_p(x: int) -> int {
    x * (HALF_TURN_MD as int - x)
}

/// Bhāskara's sine approximation for `x` in [0°, 180°], scaled by `TRIG_ONE`.
pub open spec fn bhaskara(x: int) -> int {
    (4 * TRIG_ONE as int * bhaskara_p(x)) / (40_500_000_000 - bhaskara_p(x))
}

/// The scaled sine of a canonical millidegree angle.
pub open spec fn sin_md(a: int) -> int {
    if a >= 0 {
        bhaskara(a)
    } else {
        -bhaskara(-a)
    }
}

/// The scaled cosine of a canonical millidegree angle.
pub open spec fn cos_md(a: int) -> int {
    sin_md(norm_md(QUARTER_TURN_MD as int - a))
}

/// `bhaskara_p` stays within [0, 8.1e9] on [0°, 180°], reaching the top only at 90°.
proof fn lemma_p_bounds(x: int)
    requires
        0 <= x <= HALF_TURN_MD as int,
    ensures
        0 <= bhaskara_p(x),
        bhaskara_p(x) <= 8_100_000_000,
        x != QUARTER_TURN_MD as int ==> bhaskara_p(x) < 8_100_000_000,
{
    assert(0 <= x * (180_000 - x)) by (nonlinear_arith)
        requires
            0 <= x <= 180_000,
    ;
    assert(x * (180_000 - x) == 8_100_000_000 - (90_000 - x) * (90_000 - x)) by (nonlinear_arith);
    assert(0 <= (90_000 - x) * (90_000 - x)) by (nonlinear_arith);
    if x != QUARTER_TURN_MD as int {
        assert(0 < (90_000 - x) * (90_000 - x)) by (nonlinear_arith)
            requires
                x != 90_000,
        ;
    }
}

/// Range of the raw approximation: 0 ≤ bhaskara(x) ≤ TRIG_ONE on [0°, 180°],
/// strictly below TRIG_ONE away from 90°.
proof fn lemma_bhaskara_range(x: int)
    requires
        0 <= x <= HALF_TURN_MD as int,
    ensures
        0 <= bhaskara(x) <= TRIG_ONE as int,
        x != QUARTER_TURN_MD as int ==> bhaskara(x) < TRIG_ONE as int,
{
    let p = bhaskara_p(x);
    let num = 4 * TRIG_ONE as int * p;
    let den = 40_500_000_000 - p;
    lemma_p_bounds(x);
    lemma_div_pos_is_pos(num, den);
    assert(num <= den * TRIG_ONE as int) by (nonlinear_arith)
        requires
            num == 4 * TRIG_ONE as int * p,
            den == 40_500_000_000 - p,
            p <= 8_100_000_000,
    ;
    lemma_multiply_divide_le(num, den, TRIG_ONE as int);
    if x != QUARTER_TURN_MD as int {
        assert(num < den * TRIG_ONE as int) by (nonlinear_arith)
            requires
                num == 4 * TRIG_ONE as int * p,
                den == 40_500_000_000 - p,
                p < 8_100_000_000,
        ;
        lemma_multiply_divide_lt(num, den, TRIG_ONE as int);
    }
}

/// The sine magnitude is at most one, and strictly below one between the poles.
pub proof fn lemma_sin_md_bounds(a: int)
    requires
        is_canonical_md(a),
    ensures
        -(TRIG_ONE as int) <= sin_md(a) <= TRIG_ONE as int,
        -(QUARTER_TURN_MD as int) < a < QUARTER_TURN_MD as int ==> -(TRIG_ONE as int) < sin_md(a)
            < TRIG_ONE as int,
{
    if a >= 0 {
        lemma_bhaskara_range(a);
    } else {
        lemma_bhaskara_range(-a);
    }
}

/// The sine is exact at the quadrant points.
pub proof fn lemma_sin_md_quadrants()
    ensures
        sin_md(0) == 0,
        sin_md(QUARTER_TURN_MD as int) == TRIG_ONE as int,
        sin_md(-(QUARTER_TURN_MD as int)) == -(TRIG_ONE as int),
        sin_md(HALF_TURN_MD as int) == 0,
{
    assert(bhaskara_p(0) == 0) by (nonlinear_arith);
    assert(bhaskara_p(90_000) == 8_100_000_000) by (nonlinear_arith);
    assert(bhaskara_p(180_000) == 0) by (nonlinear_arith);
    assert(bhaskara(0) == 0) by {
        lemma_small_mod(0nat, 40_500_000_000nat);
        assert(0int / 40_500_000_000int == 0);
    }
    assert(bhaskara(90_000) == 10_000) by {
        assert(4 * 10_000int * 8_100_000_000 == 324_000_000_000_000);
        assert(40_500_000_000int - 8_100_000_000 == 32_400_000_000);
        assert(324_000_000_000_000int == 32_400_000_000int * 10_000) by (nonlinear_arith);
        lemma_div_multiples_vanish(10_000, 32_400_000_000);
    }
    assert(bhaskara(180_000) == 0) by {
        assert(0int / 40_500_000_000int == 0);
    }
}

/// The approximation inherits the mirror symmetry sin(x) = sin(180° - x).
proof fn lemma_bhaskara_symmetric(x: int)
    requires
        0 <= x <= HALF_TURN_MD as int,
    ensures
        bhaskara(x) == bhaskara(HALF_TURN_MD as int - x),
{
    assert(x * (180_000 - x) == (180_000 - x) * (180_000 - (180_000 - x))) by (nonlinear_arith);
}

/// The sine is an odd function of the canonical representative.
pub proof fn lemma_sin_neg(x: int)
    ensures
        sin_md(norm_md(-x)) == -sin_md(norm_md(x)),
{
    let t = FULL_TURN_MD as int;
    let m = norm_md(x);
    lemma_norm_canonical(x);
    lemma_norm_same_residue(x);
    lemma_sub_mod_noop_right(0, x, t);
    lemma_sub_mod_noop_right(0, m, t);
    lemma_norm_congruent(-x, -m);
    if m == HALF_TURN_MD as int {
        lemma_fundamental_div_mod_converse_mod(-m, t, -1, HALF_TURN_MD as int);
        lemma_sin_md_quadrants();
    } else {
        lemma_norm_of_canonical(-m);
        lemma_sin_md_quadrants();
    }
}

/// The sine agrees on supplementary canonical angles: sin(180° - h) = sin(h).
pub proof fn lemma_sin_supplement(h: int)
    requires
        is_canonical_md(h),
    ensures
        sin_md(norm_md(HALF_TURN_MD as int - h)) == sin_md(h),
{
    let t = FULL_TURN_MD as int;
    let s = HALF_TURN_MD as int - h;
    if h >= 0 {
        lemma_norm_of_canonical(s);
        lemma_bhaskara_symmetric(s);
    } else {
        lemma_small_mod(s as nat, t as nat);
        assert(norm_md(s) == -(HALF_TURN_MD as int) - h);
        lemma_bhaskara_symmetric(-h);
    }
}

/// Shifting a canonical yaw a quarter turn down exchanges sine and cosine:
/// sin(h - 90°) = -cos(h) and cos(h - 90°) = sin(h).
pub proof fn lemma_quarter_shift(h: int)
    requires
        is_canonical_md(h),
    ensures
        sin_md(norm_md(h - QUARTER_TURN_MD as int)) == -cos_md(h),
        cos_md(norm_md(h - QUARTER_TURN_MD as int)) == sin_md(h),
{
    let t = FULL_TURN_MD as int;
    let q = QUARTER_TURN_MD as int;
    // sin(norm(h - 90°)) == -sin(norm(90° - h)) == -cos(h).
    lemma_sin_neg(q - h);
    assert(norm_md(-(q - h)) == norm_md(h - q));
    // cos(norm(h - 90°)) unfolds to sin(norm(90° - norm(h - 90°))).
    let s = norm_md(h - q);
    lemma_norm_same_residue(h - q);
    lemma_sub_mod_noop_right(q, s, t);
    lemma_sub_mod_noop_right(q, h - q, t);
    lemma_norm_congruent(q - s, HALF_TURN_MD as int - h);
    lemma_sin_supplement(h);
}

/// The scaled sine of a canonical angle given in millidegrees.
pub fn sin_fp(a_md: i64) -> (r: i64)
    requires
        is_canonical_md(a_md as int),
    ensures
        r as int == sin_md(a_md as int),
        -TRIG_ONE <= r <= TRIG_ONE,
{
    proof {
        lemma_sin_md_bounds(a_md as int);
    }
    if a_md >= 0 {
        bhaskara_fp(a_md)
    } else {
        -bhaskara_fp(-a_md)
    }
}

/// The scaled cosine of a canonical angle given in millidegrees.
pub fn cos_fp(a_md: i64) -> (r: i64)
    requires
        is_canonical_md(a_md as int),
    ensures
        r as int == cos_md(a_md as int),
        -TRIG_ONE <= r <= TRIG_ONE,
{
    let shifted: i64 = QUARTER_TURN_MD - a_md;
    let canonical: i64 = if shifted > HALF_TURN_MD {
        shifted - FULL_TURN_MD
    } else {
        shifted
    };
    proof {
        if shifted > HALF_TURN_MD {
            lemma_small_mod(shifted as nat, FULL_TURN_MD as nat);
        } else {
            lemma_norm_of_canonical(shifted as int);
        }
        lemma_sin_md_bounds(canonical as int);
    }
    sin_fp(canonical)
}

/// Executable Bhāskara approximation; matches the specification exactly.
fn bhaskara_fp(x: i64) -> (r: i64)
    requires
        0 <= x <= HALF_TURN_MD,
    ensures
        r as int == bhaskara(x as int),
{
    proof {
        lemma_p_bounds(x as int);
    }
    let p: i64 = x * (HALF_TURN_MD - x);
    let num: i64 = 4 * TRIG_ONE * p;
    let den: i64 = 40_500_000_000 - p;
    proof {
        lemma_div_pos_is_pos(num as int, den as int);
        lemma_div_is_ordered(num as int, 324_000_000_000_000, den as int);
        lemma_multiply_divide_le(324_000_000_000_000, den as int, 10_125);
    }
    num / den
}

} // verus!
