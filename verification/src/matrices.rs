//! The view and projection description a camera hands to the renderer.
//!
//! The view transform is kept in look-at form — the three (unnormalized)
//! camera axes and the eye point — rather than as sixteen floats: applying it
//! to a world point is exact integer arithmetic, and the driver that talks to
//! the GPU normalizes the rows and builds its 4×4 matrices at the edge.  The
//! projection is the perspective parameter block (fov, aspect, near, far).

use crate::vec3::{dot_view, Vec3, Vec3View};
use vstd::prelude::*;

verus! {

/// A left-handed look-at transform: three row axes and the eye position.
/// View-space coordinates of a point `p` are the dot products of the rows
/// with `p - eye`.
#[derive(Clone, Copy, Debug, PartialEq, Eq, Structural)]
pub struct ViewTransform {
    pub right: Vec3,
    pub up: Vec3,
    pub forward: Vec3,
    pub eye: Vec3,
}

/// The perspective projection parameters, all fixed-point.
#[derive(Clone, Copy, Debug, PartialEq, Eq, Structural)]
pub struct PerspectiveParams {
    pub fov_md: i64,
    pub aspect_mf: i64,
    pub near_mf: i64,
    pub far_mf: i64,
}

/// The pair a renderer consumes each frame.
#[derive(Clone, Copy, Debug, PartialEq, Eq, Structural)]
pub struct CameraMatrices {
    pub view: ViewTransform,
    pub projection: PerspectiveParams,
}

impl CameraMatrices {
    /// Pair a view transform with projection parameters.
    pub fn new(view: ViewTransform, projection: PerspectiveParams) -> (r: CameraMatrices)
        ensures
            r.view == view,
            r.projection == projection,
    {
        CameraMatrices { view, projection }
    }
}

/// The view-space image of a world point: each row dotted with `p - eye`.
pub open spec fn applied_point(v: ViewTransform, p: Vec3View) -> Vec3View {
    let rel = Vec3View {
        x: p.x - v.eye.view().x,
        y: p.y - v.eye.view().y,
        z: p.z - v.eye.view().z,
    };
    Vec3View {
        x: dot_view(v.right.view(), rel),
        y: dot_view(v.up.view(), rel),
        z: dot_view(v.forward.view(), rel),
    }
}

/// Law: the view transform maps its own eye point to the view-space origin.
pub proof fn lemma_view_centers_eye(v: ViewTransform)
    ensures
        applied_point(v, v.eye.view()) == (Vec3View { x: 0int, y: 0int, z: 0int }),
{
}

impl ViewTransform {
    /// Apply the transform to a world point, exactly.
    pub fn apply(&self, p: Vec3) -> (r: (i128, i128, i128))
        requires
            -100_000_000_000_000_000 <= self.right.view().x <= 100_000_000_000_000_000,
            -100_000_000_000_000_000 <= self.right.view().y <= 100_000_000_000_000_000,
            -100_000_000_000_000_000 <= self.right.view().z <= 100_000_000_000_000_000,
            -100_000_000_000_000_000 <= self.up.view().x <= 100_000_000_000_000_000,
            -100_000_000_000_000_000 <= self.up.view().y <= 100_000_000_000_000_000,
            -100_000_000_000_000_000 <= self.up.view().z <= 100_000_000_000_000_000,
            -100_000_000_000_000_000 <= self.forward.view().x <= 100_000_000_000_000_000,
            -100_000_000_000_000_000 <= self.forward.view().y <= 100_000_000_000_000_000,
            -100_000_000_000_000_000 <= self.forward.view().z <= 100_000_000_000_000_000,
        ensures
            r.0 as int == applied_point(*self, p.view()).x,
            r.1 as int == applied_point(*self, p.view()).y,
            r.2 as int == applied_point(*self, p.view()).z,
    {
        let rx: i128 = p.x as i128 - self.eye.x as i128;
        let ry: i128 = p.y as i128 - self.eye.y as i128;
        let rz: i128 = p.z as i128 - self.eye.z as i128;
        proof {
            lemma_row_dot_bound(self.right.view(), rx as int, ry as int, rz as int);
            lemma_row_dot_bound(self.up.view(), rx as int, ry as int, rz as int);
            lemma_row_dot_bound(self.forward.view(), rx as int, ry as int, rz as int);
        }
        let vx: i128 = self.right.x as i128 * rx + self.right.y as i128 * ry + self.right.z
            as i128 * rz;
        let vy: i128 = self.up.x as i128 * rx + self.up.y as i128 * ry + self.up.z as i128 * rz;
        let vz: i128 = self.forward.x as i128 * rx + self.forward.y as i128 * ry + self.forward.z
            as i128 * rz;
        (vx, vy, vz)
    }
}

/// Each product of a row component with a relative coordinate stays well
/// inside the wide integer range.
proof fn lemma_row_dot_bound(row: Vec3View, rx: int, ry: int, rz: int)
    by (nonlinear_arith)
    requires
        -100_000_000_000_000_000 <= row.x <= 100_000_000_000_000_000,
        -100_000_000_000_000_000 <= row.y <= 100_000_000_000_000_000,
        -100_000_000_000_000_000 <= row.z <= 100_000_000_000_000_000,
        -0x2_0000_0000_0000_0000 <= rx <= 0x2_0000_0000_0000_0000,
        -0x2_0000_0000_0000_0000 <= ry <= 0x2_0000_0000_0000_0000,
        -0x2_0000_0000_0000_0000 <= rz <= 0x2_0000_0000_0000_0000,
    ensures
        -0x1000_0000_0000_0000_0000_0000_0000_0000 <= row.x * rx
            <= 0x1000_0000_0000_0000_0000_0000_0000_0000,
        -0x1000_0000_0000_0000_0000_0000_0000_0000 <= row.y * ry
            <= 0x1000_0000_0000_0000_0000_0000_0000_0000,
        -0x1000_0000_0000_0000_0000_0000_0000_0000 <= row.z * rz
            <= 0x1000_0000_0000_0000_0000_0000_0000_0000,
{
}

} // verus!
