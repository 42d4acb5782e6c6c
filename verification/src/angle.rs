//! A rotation value held in millidegrees, always normalized to the canonical
//! half-open range (-180 000, 180 000] (that is, (-180°, 180°]).
//!
//! Every constructor and every arithmetic operation renormalizes, so a value
//! of type [`Angle`] is canonical by construction and comparisons between two
//! angles are always meaningful.  The boundary resolves deterministically to
//! the positive side: a half turn is +180°, never -180°.

use vstd::prelude::*;
use vstd::arithmetic::div_mod::{
    lemma_add_mod_noop, lemma_fundamental_div_mod, lemma_fundamental_div_mod_converse_mod,
    lemma_mod_division_less_than_divisor, lemma_mod_twice, lemma_small_mod,
};
use vstd::arithmetic::mul::lemma_mul_is_distributive_add_other_way;

verus! {

/// Millidegrees in one full turn.
pub const FULL_TURN_MD: i64 = 360_000;

/// Millidegrees in a half turn; the canonical range is (-HALF_TURN_MD, HALF_TURN_MD].
pub const HALF_TURN_MD: i64 = 180_000;

/// Millidegrees in a quarter turn (90°).
pub const QUARTER_TURN_MD: i64 = 90_000;

/// Millidegrees in an eighth of a turn (45°).
pub const EIGHTH_TURN_MD: i64 = 45_000;

/// Does a millidegree count lie in the canonical range (-180°, 180°]?
pub open spec fn is_canonical_md(a: int) -> bool {
    -(HALF_TURN_MD as int) < a <= HALF_TURN_MD as int
}

/// The canonical representative of `a` modulo a full turn, in (-180 000, 180 000].
pub open spec fn norm_md(a: int) -> int {
    let m = a % (FULL_TURN_MD as int);
    if m > HALF_TURN_MD as int {
        m - FULL_TURN_MD as int
    } else {
        m
    }
}

/// Normalization lands in the canonical range.
pub proof fn lemma_norm_canonical(a: int)
    ensures
        is_canonical_md(norm_md(a)),
{
    lemma_mod_division_less_than_divisor(a, FULL_TURN_MD as int);
}

/// A canonical value is its own normalization.
pub proof fn lemma_norm_of_canonical(a: int)
    requires
        is_canonical_md(a),
    ensures
        norm_md(a) == a,
{
    if a >= 0 {
        lemma_small_mod(a as nat, FULL_TURN_MD as nat);
    } else {
        lemma_fundamental_div_mod_converse_mod(a, FULL_TURN_MD as int, -1, a + FULL_TURN_MD as int);
    }
}

/// Normalization only reads the residue class of its argument.
pub proof fn lemma_norm_congruent(a: int, b: int)
    requires
        a % (FULL_TURN_MD as int) == b % (FULL_TURN_MD as int),
    ensures
        norm_md(a) == norm_md(b),
{
}

/// The normalized value keeps the residue class of its argument.
pub proof fn lemma_norm_same_residue(a: int)
    ensures
        norm_md(a) % (FULL_TURN_MD as int) == a % (FULL_TURN_MD as int),
{
    let t = FULL_TURN_MD as int;
    let m = a % t;
    lemma_mod_twice(a, t);
    if m > HALF_TURN_MD as int {
        lemma_fundamental_div_mod_converse_mod(m - t, t, -1, m);
    }
}

/// Normalizing between successive additions does not change the outcome.
pub proof fn lemma_norm_add_norm(a: int, d: int)
    ensures
        norm_md(norm_md(a) + d) == norm_md(a + d),
{
    let t = FULL_TURN_MD as int;
    lemma_norm_same_residue(a);
    lemma_add_mod_noop(norm_md(a), d, t);
    lemma_add_mod_noop(a, d, t);
    lemma_norm_congruent(norm_md(a) + d, a + d);
}

/// One rotation step: the canonical angle after adding `d` to `a`.
pub open spec fn rotated_by(a: int, d: int) -> int {
    norm_md(a + d)
}

/// `n` rotation steps of `d` millidegrees each, starting from `a`.
pub open spec fn rotated_n_times(a: int, d: int, n: nat) -> int
    decreases n,
{
    if n == 0 {
        a
    } else {
        rotated_by(rotated_n_times(a, d, (n - 1) as nat), d)
    }
}

/// Law: applying a yaw step of `d` millidegrees `n` times lands on the same
/// canonical angle as one application of the accumulated step `n * d`.
pub proof fn lemma_rotation_accumulates(a: int, d: int, n: nat)
    requires
        is_canonical_md(a),
    ensures
        rotated_n_times(a, d, n) == norm_md(a + n * d),
    decreases n,
{
    if n == 0 {
        lemma_norm_of_canonical(a);
    } else {
        let k = (n - 1) as nat;
        lemma_rotation_accumulates(a, d, k);
        lemma_norm_add_norm(a + k * d, d);
        assert(n * d == k * d + d) by {
            lemma_mul_is_distributive_add_other_way(d, k as int, 1);
        }
    }
}

/// A normalized rotation value in millidegrees.
#[derive(Clone, Copy, Debug, PartialEq, Eq, Structural)]
pub struct Angle {
    md: i64,
}

impl Angle {
    /// The millidegree count of this angle, in (-180 000, 180 000].
    pub closed spec fn millidegrees(self) -> int {
        self.md as int
    }

    /// Every produced angle is canonical.
    #[verifier::type_invariant]
    pub open spec fn inv(self) -> bool {
        is_canonical_md(self.millidegrees())
    }

    /// Construct from a raw millidegree count, normalizing.
    pub fn from_millidegrees(raw: i64) -> (r: Angle)
        ensures
            r.millidegrees() == norm_md(raw as int),
    {
        let md = normalize_to_i64(raw as i128);
        Angle { md }
    }

    /// The zero angle.
    pub fn zero() -> (r: Angle)
        ensures
            r.millidegrees() == 0,
    {
        Angle { md: 0 }
    }

    /// A quarter turn, 90°.
    pub fn quarter() -> (r: Angle)
        ensures
            r.millidegrees() == QUARTER_TURN_MD as int,
    {
        Angle { md: QUARTER_TURN_MD }
    }

    /// An eighth of a turn, 45°.
    pub fn eighth() -> (r: Angle)
        ensures
            r.millidegrees() == EIGHTH_TURN_MD as int,
    {
        Angle { md: EIGHTH_TURN_MD }
    }

    /// A full turn; as a canonical value it coincides with the zero angle.
    pub fn full() -> (r: Angle)
        ensures
            r.millidegrees() == norm_md(FULL_TURN_MD as int),
    {
        proof {
            lemma_norm_same_residue(FULL_TURN_MD as int);
            lemma_small_mod(0nat, FULL_TURN_MD as nat);
            lemma_fundamental_div_mod_converse_mod(FULL_TURN_MD as int, FULL_TURN_MD as int, 1, 0);
        }
        Angle { md: 0 }
    }

    /// The millidegree count as an executable value.
    pub fn to_millidegrees(&self) -> (r: i64)
        ensures
            r as int == self.millidegrees(),
    {
        self.md
    }

    /// Add a raw millidegree delta, renormalizing.
    pub fn add_millidegrees(self, delta: i64) -> (r: Angle)
        ensures
            r.millidegrees() == norm_md(self.millidegrees() + delta as int),
    {
        proof {
            use_type_invariant(self);
        }
        let md = normalize_to_i64(self.md as i128 + delta as i128);
        Angle { md }
    }

    /// The sum of two angles, renormalized.
    pub fn add(self, other: Angle) -> (r: Angle)
        ensures
            r.millidegrees() == norm_md(self.millidegrees() + other.millidegrees()),
    {
        proof {
            use_type_invariant(other);
        }
        self.add_millidegrees(other.md)
    }

    /// The difference of two angles, renormalized.
    pub fn sub(self, other: Angle) -> (r: Angle)
        ensures
            r.millidegrees() == norm_md(self.millidegrees() - other.millidegrees()),
    {
        proof {
            use_type_invariant(self);
            use_type_invariant(other);
        }
        let md = normalize_to_i64(self.md as i128 - other.md as i128);
        Angle { md }
    }

    /// The negated angle, renormalized (+180° stays +180°).
    pub fn neg(self) -> (r: Angle)
        ensures
            r.millidegrees() == norm_md(-self.millidegrees()),
    {
        proof {
            use_type_invariant(self);
        }
        let md = normalize_to_i64(-(self.md as i128));
        Angle { md }
    }

    /// Strict order on the canonical millidegree counts.
    pub fn is_less_than(&self, other: &Angle) -> (r: bool)
        ensures
            r == (self.millidegrees() < other.millidegrees()),
    {
        self.md < other.md
    }
}

/// Normalize an arbitrary millidegree count into the canonical range.
fn normalize_to_i64(v: i128) -> (r: i64)
    requires
        -0x4000_0000_0000_0000_0000 <= v <= 0x4000_0000_0000_0000_0000,
    ensures
        r as int == norm_md(v as int),
        is_canonical_md(r as int),
{
    let turn: i128 = FULL_TURN_MD as i128;
    let mag: i128 = if v < 0 { -v } else { v };
    let m: i128 = mag % turn;
    proof {
        lemma_mod_division_less_than_divisor(mag as int, turn as int);
        lemma_fundamental_div_mod(mag as int, turn as int);
        if v < 0 {
            // v = -mag; exhibit the Euclidean residue of v directly.
            let q = mag as int / turn as int;
            if m == 0 {
                lemma_fundamental_div_mod_converse_mod(v as int, turn as int, -q, 0);
            } else {
                lemma_fundamental_div_mod_converse_mod(
                    v as int,
                    turn as int,
                    -q - 1,
                    turn as int - m as int,
                );
            }
        }
    }
    let residue: i128 = if v < 0 && m != 0 {
        turn - m
    } else {
        m
    };
    let canonical: i128 = if residue > HALF_TURN_MD as i128 {
        residue - turn
    } else {
        residue
    };
    canonical as i64
}

} // verus!
