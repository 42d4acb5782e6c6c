//! Integer 3-vectors and the spec-level dot and cross products the camera
//! contracts are stated over.

use vstd::prelude::*;

verus! {

/// A 3-vector of fixed-point components.
#[derive(Clone, Copy, Debug, PartialEq, Eq, Structural)]
pub struct Vec3 {
    pub x: i64,
    pub y: i64,
    pub z: i64,
}

/// The mathematical value of a [`Vec3`].
pub struct Vec3View {
    pub x: int,
    pub y: int,
    pub z: int,
}

impl Vec3 {
    /// The components as unbounded integers.
    pub open spec fn view(self) -> Vec3View {
        Vec3View { x: self.x as int, y: self.y as int, z: self.z as int }
    }

    /// Construct from components.
    pub fn new(x: i64, y: i64, z: i64) -> (r: Vec3)
        ensures
            r.view() == (Vec3View { x: x as int, y: y as int, z: z as int }),
    {
        Vec3 { x, y, z }
    }

    /// Cross product; the caller keeps the components small enough that the
    /// products cannot overflow.
    pub fn cross(self, other: Vec3) -> (r: Vec3)
        requires
            -0x4000_0000 <= self.view().x <= 0x4000_0000,
            -0x4000_0000 <= self.view().y <= 0x4000_0000,
            -0x4000_0000 <= self.view().z <= 0x4000_0000,
            -0x4000_0000 <= other.view().x <= 0x4000_0000,
            -0x4000_0000 <= other.view().y <= 0x4000_0000,
            -0x4000_0000 <= other.view().z <= 0x4000_0000,
        ensures
            r.view() == cross_view(self.view(), other.view()),
    {
        proof {
            lemma_product_bound(self.view().x, other.view().x);
            lemma_product_bound(self.view().x, other.view().y);
            lemma_product_bound(self.view().x, other.view().z);
            lemma_product_bound(self.view().y, other.view().x);
            lemma_product_bound(self.view().y, other.view().y);
            lemma_product_bound(self.view().y, other.view().z);
            lemma_product_bound(self.view().z, other.view().x);
            lemma_product_bound(self.view().z, other.view().y);
            lemma_product_bound(self.view().z, other.view().z);
        }
        Vec3 {
            x: self.y * other.z - self.z * other.y,
            y: self.z * other.x - self.x * other.z,
            z: self.x * other.y - self.y * other.x,
        }
    }
}

/// Bound on a product of two bounded factors.
proof fn lemma_product_bound(a: int, b: int)
    by (nonlinear_arith)
    requires
        -0x4000_0000 <= a <= 0x4000_0000,
        -0x4000_0000 <= b <= 0x4000_0000,
    ensures
        -0x1000_0000_0000_0000 <= a * b <= 0x1000_0000_0000_0000,
{
}

/// The dot product of two vector values.
pub open spec fn dot_view(a: Vec3View, b: Vec3View) -> int {
    a.x * b.x + a.y * b.y + a.z * b.z
}

/// The cross product of two vector values.
pub open spec fn cross_view(a: Vec3View, b: Vec3View) -> Vec3View {
    Vec3View {
        x: a.y * b.z - a.z * b.y,
        y: a.z * b.x - a.x * b.z,
        z: a.x * b.y - a.y * b.x,
    }
}

/// A cross product is orthogonal to both of its factors.
pub proof fn lemma_cross_orthogonal(a: Vec3View, b: Vec3View)
    ensures
        dot_view(cross_view(a, b), a) == 0,
        dot_view(cross_view(a, b), b) == 0,
{
    assert((a.y * b.z - a.z * b.y) * a.x + (a.z * b.x - a.x * b.z) * a.y + (a.x * b.y - a.y * b.x)
        * a.z == 0) by (nonlinear_arith);
    assert((a.y * b.z - a.z * b.y) * b.x + (a.z * b.x - a.x * b.z) * b.y + (a.x * b.y - a.y * b.x)
        * b.z == 0) by (nonlinear_arith);
}

} // verus!
