//! The free-look camera: position and orientation state, raw-input
//! integration, and the view/projection description derived from them.
//!
//! Orientation is a canonical yaw angle that wraps and a pitch angle that is
//! clamped one degree short of the poles, so the derived axes never
//! degenerate.  Positions and speeds are fixed-point: thousandths of a world
//! unit, thousandths of a second, thousandths of a unit per second.  The
//! derived axes are scaled by [`DIR_ONE`].

use crate::angle::{is_canonical_md, lemma_norm_of_canonical, norm_md, Angle, QUARTER_TURN_MD};
use crate::fixed::{clamp, clamp_fp, div_fp, div_toward_zero};
use crate::matrices::{CameraMatrices, PerspectiveParams, ViewTransform};
use crate::trig::{
    cos_fp, cos_md, lemma_quarter_shift, lemma_sin_md_bounds, sin_fp, sin_md, TRIG_ONE,
};
use crate::vec3::{cross_view, dot_view, Vec3, Vec3View};
use vstd::prelude::*;

verus! {

/// The fixed-point scale of the derived camera axes: `TRIG_ONE` squared.
pub const DIR_ONE: i64 = 100_000_000;

/// The pitch bound, one degree short of the poles: 89° in millidegrees.
pub const PITCH_LIMIT_MD: i64 = 89_000;

/// Positions are kept within this many milli-units of the origin.
pub const POS_LIMIT: i64 = 1_000_000_000_000;

/// Largest accepted speed: 1000 units (or degrees) per second, in thousandths.
pub const SPEED_LIMIT_MF: i64 = 1_000_000;

/// Largest accepted frame time: one minute, in milliseconds.
pub const DT_LIMIT_MS: i64 = 60_000;

/// Divisor folding the axis scale, the speed scale and the time scale back
/// into milli-units: `DIR_ONE` * 1000 * 1000 / 1000.
pub const MOVE_DIVISOR: i64 = 100_000_000_000;

/// Which movement keys are currently held.  Each flag is set by a key-down
/// and cleared by the matching key-up, persisting across frames.
#[derive(Clone, Debug, Default, PartialEq, Eq, Structural)]
pub struct PlayerInput {
    pub moving_forwards: bool,
    pub moving_backwards: bool,
    pub moving_left: bool,
    pub moving_right: bool,
    pub moving_up: bool,
    pub moving_down: bool,
}

/// The mathematical state of a [`CameraController`].
pub struct CamState {
    pub pos_x: int,
    pub pos_y: int,
    pub pos_z: int,
    pub yaw: int,
    pub pitch: int,
    pub fov: int,
    pub aspect: int,
    pub near: int,
    pub far: int,
    pub mouse_speed: int,
    pub move_speed: int,
    pub input: PlayerInput,
}

/// Well-formedness of a camera state: canonical yaw, pitch inside the pole
/// clamp, position and tuning constants within their fixed-point ranges.
pub open spec fn wf_state(s: CamState) -> bool {
    &&& is_canonical_md(s.yaw)
    &&& -(PITCH_LIMIT_MD as int) <= s.pitch <= PITCH_LIMIT_MD as int
    &&& is_canonical_md(s.fov)
    &&& -(POS_LIMIT as int) <= s.pos_x <= POS_LIMIT as int
    &&& -(POS_LIMIT as int) <= s.pos_y <= POS_LIMIT as int
    &&& -(POS_LIMIT as int) <= s.pos_z <= POS_LIMIT as int
    &&& 0 <= s.mouse_speed <= SPEED_LIMIT_MF as int
    &&& 0 <= s.move_speed <= SPEED_LIMIT_MF as int
    &&& 0 <= s.aspect <= 1_000_000_000
    &&& 0 < s.near < s.far <= 1_000_000_000
}

/// The unit forward vector of a state, scaled by `DIR_ONE`:
/// (cos pitch · sin yaw, sin pitch, cos pitch · cos yaw).
pub open spec fn dir_view(s: CamState) -> Vec3View {
    Vec3View {
        x: cos_md(s.pitch) * sin_md(s.yaw),
        y: sin_md(s.pitch) * TRIG_ONE as int,
        z: cos_md(s.pitch) * cos_md(s.yaw),
    }
}

/// The unit right vector of a state, scaled by `DIR_ONE`: the forward vector
/// rotated a quarter turn down in yaw only, (-cos yaw, 0, sin yaw).
pub open spec fn right_view(s: CamState) -> Vec3View {
    Vec3View {
        x: -cos_md(s.yaw) * TRIG_ONE as int,
        y: 0,
        z: sin_md(s.yaw) * TRIG_ONE as int,
    }
}

/// The up vector of a state: right × forward, not a fixed world up.
pub open spec fn up_view(s: CamState) -> Vec3View {
    cross_view(right_view(s), dir_view(s))
}

/// The state after a rotation step: the yaw delta is added and wraps, the
/// pitch delta is subtracted (inverted-Y convention) and the result clamped
/// one degree short of the poles.
pub open spec fn rotated_state(s: CamState, delta_yaw: int, delta_pitch: int) -> CamState {
    CamState {
        yaw: norm_md(s.yaw + delta_yaw),
        pitch: clamp(s.pitch - delta_pitch, -(PITCH_LIMIT_MD as int), PITCH_LIMIT_MD as int),
        ..s
    }
}

/// The pointer offset from the window centre, in pixels: the raw coordinate
/// is first divided by the HiDPI factor (given in thousandths).
pub open spec fn pointer_offset_px(window_extent: int, raw_coord: int, hidpi_mf: int) -> int {
    window_extent / 2 - div_toward_zero(raw_coord * 1000, hidpi_mf)
}

/// The rotation delta produced by a pointer offset held for `dt_ms`
/// milliseconds at `mouse_speed_mf` thousandths of a degree-per-pixel-second.
pub open spec fn pointer_delta_md(mouse_speed_mf: int, dt_ms: int, offset_px: int) -> int {
    div_toward_zero(mouse_speed_mf * dt_ms * offset_px, 1000)
}

/// One movement contribution: axis component × speed × time, folded back to
/// milli-units.
pub open spec fn move_step(axis_component: int, move_speed_mf: int, dt_ms: int) -> int {
    div_toward_zero(axis_component * move_speed_mf * dt_ms, MOVE_DIVISOR as int)
}

/// The net displacement along one coordinate from the held movement keys.
/// Forward movement subtracts the forward axis and the right key subtracts
/// the right axis, matching the source convention; vertical movement is along
/// the world up axis.
pub open spec fn net_move(
    s: CamState,
    dt_ms: int,
    dir_c: int,
    right_c: int,
    up_c: int,
) -> int {
    (if s.input.moving_forwards {
        -move_step(dir_c, s.move_speed, dt_ms)
    } else {
        0
    }) + (if s.input.moving_backwards {
        move_step(dir_c, s.move_speed, dt_ms)
    } else {
        0
    }) + (if s.input.moving_left {
        move_step(right_c, s.move_speed, dt_ms)
    } else {
        0
    }) + (if s.input.moving_right {
        -move_step(right_c, s.move_speed, dt_ms)
    } else {
        0
    }) + (if s.input.moving_up {
        move_step(up_c, s.move_speed, dt_ms)
    } else {
        0
    }) + (if s.input.moving_down {
        -move_step(up_c, s.move_speed, dt_ms)
    } else {
        0
    })
}

/// The state after integrating the held movement keys over `dt_ms`
/// milliseconds, each coordinate clamped to the world bounds.
pub open spec fn moved_state(s: CamState, dt_ms: int) -> CamState {
    let d = dir_view(s);
    let r = right_view(s);
    let l = POS_LIMIT as int;
    CamState {
        pos_x: clamp(s.pos_x + net_move(s, dt_ms, d.x, r.x, 0), -l, l),
        pos_y: clamp(s.pos_y + net_move(s, dt_ms, d.y, r.y, DIR_ONE as int), -l, l),
        pos_z: clamp(s.pos_z + net_move(s, dt_ms, d.z, r.z, 0), -l, l),
        ..s
    }
}

/// The state after a window resize: only the aspect ratio changes.
pub open spec fn resized_state(s: CamState, aspect_mf: int) -> CamState {
    CamState { aspect: aspect_mf, ..s }
}

/// `n` rotation steps of `(delta_yaw, 0)` each, starting from `s`.
pub open spec fn yaw_stepped(s: CamState, delta_yaw: int, n: nat) -> CamState
    decreases n,
{
    if n == 0 {
        s
    } else {
        rotated_state(yaw_stepped(s, delta_yaw, (n - 1) as nat), delta_yaw, 0)
    }
}

/// Law: applying a pure yaw step `n` times is the same rotation as one step
/// of the accumulated delta — wraparound loses nothing, and the pitch and
/// the rest of the state are untouched.
pub proof fn lemma_yaw_steps_accumulate(s: CamState, delta_yaw: int, n: nat)
    requires
        wf_state(s),
    ensures
        yaw_stepped(s, delta_yaw, n) == if n == 0 {
            s
        } else {
            rotated_state(s, n * delta_yaw, 0)
        },
    decreases n,
{
    crate::angle::lemma_rotation_accumulates(s.yaw, delta_yaw, n);
    if n > 0 {
        let k = (n - 1) as nat;
        lemma_yaw_steps_accumulate(s, delta_yaw, k);
        crate::angle::lemma_rotation_accumulates(s.yaw, delta_yaw, k);
        crate::angle::lemma_norm_add_norm(s.yaw + k * delta_yaw, delta_yaw);
        assert(n * delta_yaw == k * delta_yaw + delta_yaw) by {
            vstd::arithmetic::mul::lemma_mul_is_distributive_add_other_way(
                delta_yaw,
                k as int,
                1,
            );
        }
        if k == 0 {
            crate::angle::lemma_norm_of_canonical(s.yaw);
        }
    }
}

/// The trig projections of a well-formed state are within the trig scale, so
/// every derived axis component is within the axis scale.
proof fn lemma_axis_components_bounded(s: CamState)
    requires
        wf_state(s),
    ensures
        -(DIR_ONE as int) <= dir_view(s).x <= DIR_ONE as int,
        -(DIR_ONE as int) <= dir_view(s).y <= DIR_ONE as int,
        -(DIR_ONE as int) <= dir_view(s).z <= DIR_ONE as int,
        -(DIR_ONE as int) <= right_view(s).x <= DIR_ONE as int,
        right_view(s).y == 0,
        -(DIR_ONE as int) <= right_view(s).z <= DIR_ONE as int,
{
    lemma_sin_md_bounds(s.yaw);
    lemma_sin_md_bounds(s.pitch);
    crate::angle::lemma_norm_canonical(QUARTER_TURN_MD as int - s.yaw);
    lemma_sin_md_bounds(norm_md(QUARTER_TURN_MD as int - s.yaw));
    crate::angle::lemma_norm_canonical(QUARTER_TURN_MD as int - s.pitch);
    lemma_sin_md_bounds(norm_md(QUARTER_TURN_MD as int - s.pitch));
    lemma_trig_product_bounds(sin_md(s.yaw), cos_md(s.yaw), sin_md(s.pitch), cos_md(s.pitch));
    lemma_trig_product_bounds(cos_md(s.pitch), sin_md(s.yaw), cos_md(s.yaw), sin_md(s.pitch));
}

/// One movement step moves by at most 60 000 milli-units — 60 units at the
/// speed and frame-time limits.
proof fn lemma_step_magnitude(c: int, speed: int, dt_ms: int)
    requires
        -(DIR_ONE as int) <= c <= DIR_ONE as int,
        0 <= speed <= SPEED_LIMIT_MF as int,
        0 <= dt_ms <= DT_LIMIT_MS as int,
    ensures
        -60_000_000 <= move_step(c, speed, dt_ms) <= 60_000_000,
{
    lemma_axis_speed_bound(c, speed, dt_ms);
    let p = c * speed * dt_ms;
    crate::fixed::lemma_div_toward_zero_bounds(p, MOVE_DIVISOR as int);
    if p >= 0 {
        vstd::arithmetic::div_mod::lemma_div_is_ordered(
            p,
            6_000_000_000_000_000_000,
            MOVE_DIVISOR as int,
        );
        assert(6_000_000_000_000_000_000int / 100_000_000_000int == 60_000_000);
    } else {
        vstd::arithmetic::div_mod::lemma_div_is_ordered(
            -p,
            6_000_000_000_000_000_000,
            MOVE_DIVISOR as int,
        );
        assert(6_000_000_000_000_000_000int / 100_000_000_000int == 60_000_000);
    }
}

/// Splitting a frame time changes one movement step by at most one
/// milli-unit: the two partial steps truncate where the whole step rounds.
proof fn lemma_step_additive(c: int, speed: int, a: int, b: int)
    requires
        -(DIR_ONE as int) <= c <= DIR_ONE as int,
        0 <= speed <= SPEED_LIMIT_MF as int,
        0 <= a,
        0 <= b,
        a + b <= DT_LIMIT_MS as int,
    ensures
        move_step(c, speed, a) + move_step(c, speed, b) - 1 <= move_step(c, speed, a + b)
            <= move_step(c, speed, a) + move_step(c, speed, b) + 1,
{
    let k = c * speed;
    assert(c * speed * a == k * a && c * speed * b == k * b);
    assert(c * speed * (a + b) == k * a + k * b) by {
        vstd::arithmetic::mul::lemma_mul_is_distributive_add(k, a, b);
    }
    assert((k >= 0 ==> k * a >= 0 && k * b >= 0) && (k <= 0 ==> k * a <= 0 && k * b <= 0))
        by (nonlinear_arith)
        requires
            a >= 0,
            b >= 0,
    ;
    crate::fixed::lemma_div_toward_zero_additive(k * a, k * b, MOVE_DIVISOR as int);
}

/// The net displacement of one frame along one coordinate is at most 360
/// milli-units.
proof fn lemma_net_bound(s: CamState, dt_ms: int, dir_c: int, right_c: int, up_c: int)
    requires
        0 <= s.move_speed <= SPEED_LIMIT_MF as int,
        0 <= dt_ms <= DT_LIMIT_MS as int,
        -(DIR_ONE as int) <= dir_c <= DIR_ONE as int,
        -(DIR_ONE as int) <= right_c <= DIR_ONE as int,
        -(DIR_ONE as int) <= up_c <= DIR_ONE as int,
    ensures
        -360_000_000 <= net_move(s, dt_ms, dir_c, right_c, up_c) <= 360_000_000,
{
    lemma_step_magnitude(dir_c, s.move_speed, dt_ms);
    lemma_step_magnitude(right_c, s.move_speed, dt_ms);
    lemma_step_magnitude(up_c, s.move_speed, dt_ms);
}

/// Splitting a frame time changes the net displacement along one coordinate
/// by at most six milli-units (one per held key direction).
proof fn lemma_net_additive(s: CamState, a: int, b: int, dir_c: int, right_c: int, up_c: int)
    requires
        0 <= s.move_speed <= SPEED_LIMIT_MF as int,
        0 <= a,
        0 <= b,
        a + b <= DT_LIMIT_MS as int,
        -(DIR_ONE as int) <= dir_c <= DIR_ONE as int,
        -(DIR_ONE as int) <= right_c <= DIR_ONE as int,
        -(DIR_ONE as int) <= up_c <= DIR_ONE as int,
    ensures
        -6 <= net_move(s, a, dir_c, right_c, up_c) + net_move(s, b, dir_c, right_c, up_c)
            - net_move(s, a + b, dir_c, right_c, up_c) <= 6,
{
    lemma_step_additive(dir_c, s.move_speed, a, b);
    lemma_step_additive(right_c, s.move_speed, a, b);
    lemma_step_additive(up_c, s.move_speed, a, b);
}

/// With the position away from the world bound and small displacements, the
/// clamps are transparent, so the split-frame path lands exactly the net
/// difference away from the whole-frame path.
proof fn lemma_clamped_moves_close(pos: int, na: int, nb: int, nab: int)
    requires
        -(POS_LIMIT as int) + 1_000_000_000 <= pos <= POS_LIMIT as int - 1_000_000_000,
        -360_000_000 <= na <= 360_000_000,
        -360_000_000 <= nb <= 360_000_000,
        -360_000_000 <= nab <= 360_000_000,
    ensures
        clamp(
            clamp(pos + na, -(POS_LIMIT as int), POS_LIMIT as int) + nb,
            -(POS_LIMIT as int),
            POS_LIMIT as int,
        ) == pos + na + nb,
        clamp(pos + nab, -(POS_LIMIT as int), POS_LIMIT as int) == pos + nab,
{
}

/// Law: movement is frame-rate independent up to the fixed-point quantum.
/// Away from the world-bound clamp, integrating the held keys over two frame
/// times and over their sum leaves positions within six milli-units of each
/// other (one per held key direction), and all other state identical.
#[verifier::rlimit(100)]
pub proof fn lemma_movement_frame_rate_independent(s: CamState, a: int, b: int)
    requires
        wf_state(s),
        0 <= a,
        0 <= b,
        a + b <= DT_LIMIT_MS as int,
        -(POS_LIMIT as int) + 1_000_000_000 <= s.pos_x <= POS_LIMIT as int - 1_000_000_000,
        -(POS_LIMIT as int) + 1_000_000_000 <= s.pos_y <= POS_LIMIT as int - 1_000_000_000,
        -(POS_LIMIT as int) + 1_000_000_000 <= s.pos_z <= POS_LIMIT as int - 1_000_000_000,
    ensures
        ({
            let two = moved_state(moved_state(s, a), b);
            let one = moved_state(s, a + b);
            &&& two == (CamState { pos_x: two.pos_x, pos_y: two.pos_y, pos_z: two.pos_z, ..one })
            &&& -6 <= two.pos_x - one.pos_x <= 6
            &&& -6 <= two.pos_y - one.pos_y <= 6
            &&& -6 <= two.pos_z - one.pos_z <= 6
        }),
{
    let l = POS_LIMIT as int;
    let u = DIR_ONE as int;
    let d = dir_view(s);
    let r = right_view(s);
    lemma_axis_components_bounded(s);
    let s1 = moved_state(s, a);
    assert(dir_view(s1) == d && right_view(s1) == r);
    let nax = net_move(s, a, d.x, r.x, 0);
    let nay = net_move(s, a, d.y, r.y, u);
    let naz = net_move(s, a, d.z, r.z, 0);
    let nbx = net_move(s, b, d.x, r.x, 0);
    let nby = net_move(s, b, d.y, r.y, u);
    let nbz = net_move(s, b, d.z, r.z, 0);
    let nx = net_move(s, a + b, d.x, r.x, 0);
    let ny = net_move(s, a + b, d.y, r.y, u);
    let nz = net_move(s, a + b, d.z, r.z, 0);
    lemma_net_bound(s, a, d.x, r.x, 0);
    lemma_net_bound(s, a, d.y, r.y, u);
    lemma_net_bound(s, a, d.z, r.z, 0);
    lemma_net_bound(s, b, d.x, r.x, 0);
    lemma_net_bound(s, b, d.y, r.y, u);
    lemma_net_bound(s, b, d.z, r.z, 0);
    lemma_net_bound(s, a + b, d.x, r.x, 0);
    lemma_net_bound(s, a + b, d.y, r.y, u);
    lemma_net_bound(s, a + b, d.z, r.z, 0);
    lemma_net_additive(s, a, b, d.x, r.x, 0);
    lemma_net_additive(s, a, b, d.y, r.y, u);
    lemma_net_additive(s, a, b, d.z, r.z, 0);
    lemma_clamped_moves_close(s.pos_x, nax, nbx, nx);
    lemma_clamped_moves_close(s.pos_y, nay, nby, ny);
    lemma_clamped_moves_close(s.pos_z, naz, nbz, nz);
    assert(s1.pos_x == s.pos_x + nax && s1.pos_y == s.pos_y + nay && s1.pos_z == s.pos_z + naz);
    assert(net_move(s1, b, d.x, r.x, 0) == nbx);
    assert(net_move(s1, b, d.y, r.y, u) == nby);
    assert(net_move(s1, b, d.z, r.z, 0) == nbz);
    assert(moved_state(s1, b).pos_x == clamp(s1.pos_x + nbx, -l, l));
    assert(moved_state(s1, b).pos_y == clamp(s1.pos_y + nby, -l, l));
    assert(moved_state(s1, b).pos_z == clamp(s1.pos_z + nbz, -l, l));
}

/// Law: resizing to the same aspect twice is the same as resizing once, so
/// the projection parameters after the second call are identical.
pub proof fn lemma_on_resize_idempotent(s: CamState, aspect_mf: int)
    ensures
        resized_state(resized_state(s, aspect_mf), aspect_mf) == resized_state(s, aspect_mf),
{
}

/// Law: the pitch after any rotation step lies within one degree of the
/// poles, and a step that would overshoot lands on exactly ±89°.
pub proof fn lemma_pitch_clamped(s: CamState, delta_yaw: int, delta_pitch: int)
    requires
        wf_state(s),
    ensures
        -(PITCH_LIMIT_MD as int) <= rotated_state(s, delta_yaw, delta_pitch).pitch <= (
        PITCH_LIMIT_MD as int),
        s.pitch - delta_pitch > PITCH_LIMIT_MD as int ==> rotated_state(
            s,
            delta_yaw,
            delta_pitch,
        ).pitch == PITCH_LIMIT_MD as int,
        s.pitch - delta_pitch < -(PITCH_LIMIT_MD as int) ==> rotated_state(
            s,
            delta_yaw,
            delta_pitch,
        ).pitch == -(PITCH_LIMIT_MD as int),
{
}

/// Law: the derived axes are pairwise orthogonal in every well-formed state —
/// exactly, not merely within an epsilon.
pub proof fn lemma_axes_orthogonal(s: CamState)
    requires
        wf_state(s),
    ensures
        dot_view(dir_view(s), right_view(s)) == 0,
        dot_view(up_view(s), right_view(s)) == 0,
        dot_view(up_view(s), dir_view(s)) == 0,
{
    let sy = sin_md(s.yaw);
    let cy = cos_md(s.yaw);
    let sp = sin_md(s.pitch);
    let cp = cos_md(s.pitch);
    let t = TRIG_ONE as int;
    assert((cp * sy) * (-cy * t) + (sp * t) * 0 + (cp * cy) * (sy * t) == 0) by (nonlinear_arith);
    crate::vec3::lemma_cross_orthogonal(right_view(s), dir_view(s));
    assert(dot_view(up_view(s), right_view(s)) == 0);
    assert(dot_view(up_view(s), dir_view(s)) == 0);
}

/// Law: between the pole clamps the forward vector never reaches straight up
/// or straight down: |forward.y| stays strictly below one.
pub proof fn lemma_direction_never_vertical(s: CamState)
    requires
        wf_state(s),
    ensures
        -(DIR_ONE as int) < dir_view(s).y < DIR_ONE as int,
{
    lemma_sin_md_bounds(s.pitch);
    assert((sin_md(s.pitch) * (TRIG_ONE as int)) < DIR_ONE as int) by (nonlinear_arith)
        requires
            sin_md(s.pitch) < TRIG_ONE as int,
    ;
    assert(-(DIR_ONE as int) < sin_md(s.pitch) * (TRIG_ONE as int)) by (nonlinear_arith)
        requires
            -(TRIG_ONE as int) < sin_md(s.pitch),
    ;
}

/// The free-look camera controller.
#[derive(Clone, Debug, PartialEq)]
pub struct CameraController {
    /// Movement keys currently held; written directly by the event loop.
    pub input: PlayerInput,
    position: Vec3,
    horizontal_angle: Angle,
    vertical_angle: Angle,
    fov: Angle,
    aspect_mf: i64,
    near_mf: i64,
    far_mf: i64,
    mouse_speed_mf: i64,
    move_speed_mf: i64,
}

impl CameraController {
    /// The mathematical state of this controller.
    pub closed spec fn state(self) -> CamState {
        CamState {
            pos_x: self.position.x as int,
            pos_y: self.position.y as int,
            pos_z: self.position.z as int,
            yaw: self.horizontal_angle.millidegrees(),
            pitch: self.vertical_angle.millidegrees(),
            fov: self.fov.millidegrees(),
            aspect: self.aspect_mf as int,
            near: self.near_mf as int,
            far: self.far_mf as int,
            mouse_speed: self.mouse_speed_mf as int,
            move_speed: self.move_speed_mf as int,
            input: self.input,
        }
    }

    /// Well-formedness; established by the constructor and preserved by every
    /// operation.
    pub open spec fn wf(self) -> bool {
        wf_state(self.state())
    }

    /// A camera at the default start position (0, 0, 10) looking along +z
    /// with a 45° field of view and near/far planes at 0.1 and 100.
    pub fn new(aspect_mf: i64, mouse_speed_mf: i64, move_speed_mf: i64) -> (r: CameraController)
        requires
            0 <= aspect_mf <= 1_000_000_000,
            0 <= mouse_speed_mf <= SPEED_LIMIT_MF,
            0 <= move_speed_mf <= SPEED_LIMIT_MF,
        ensures
            r.wf(),
            r.state() == initial_state(aspect_mf as int, mouse_speed_mf as int, move_speed_mf as int),
    {
        CameraController {
            input: PlayerInput {
                moving_forwards: false,
                moving_backwards: false,
                moving_left: false,
                moving_right: false,
                moving_up: false,
                moving_down: false,
            },
            position: Vec3::new(0, 0, 10_000),
            horizontal_angle: Angle::zero(),
            vertical_angle: Angle::zero(),
            fov: Angle::eighth(),
            aspect_mf,
            near_mf: 100,
            far_mf: 100_000,
            mouse_speed_mf,
            move_speed_mf,
        }
    }

    /// Add a yaw delta (wrapping) and subtract a pitch delta (clamped one
    /// degree short of the poles); deltas in millidegrees.
    pub fn rotate_view_angles_by(&mut self, delta_yaw_md: i64, delta_pitch_md: i64)
        requires
            old(self).wf(),
        ensures
            final(self).wf(),
            final(self).state() == rotated_state(
                old(self).state(),
                delta_yaw_md as int,
                delta_pitch_md as int,
            ),
    {
        self.horizontal_angle = self.horizontal_angle.add_millidegrees(delta_yaw_md);
        proof {
            crate::angle::lemma_norm_canonical(
                old(self).state().yaw + delta_yaw_md as int,
            );
            use_type_invariant(&self.vertical_angle);
        }
        let raw_pitch: i128 = self.vertical_angle.to_millidegrees() as i128 - delta_pitch_md as i128;
        let clamped: i128 = clamp_fp(raw_pitch, -(PITCH_LIMIT_MD as i128), PITCH_LIMIT_MD as i128);
        proof {
            lemma_norm_of_canonical(clamped as int);
        }
        self.vertical_angle = Angle::from_millidegrees(clamped as i64);
    }

    /// Turn a raw pointer position into rotation deltas: offset from the
    /// window centre, scaled by mouse speed and elapsed time, corrected for
    /// the HiDPI factor.  Assumes the driver recentres the pointer each frame.
    pub fn on_cursor_moved(
        &mut self,
        dt_ms: i64,
        cursor_x: i64,
        cursor_y: i64,
        win_w: i64,
        win_h: i64,
        hidpi_mf: i64,
    )
        requires
            old(self).wf(),
            0 <= dt_ms <= DT_LIMIT_MS,
            100 <= hidpi_mf <= 100_000,
            0 <= win_w <= 1_000_000,
            0 <= win_h <= 1_000_000,
            -10_000_000 <= cursor_x <= 10_000_000,
            -10_000_000 <= cursor_y <= 10_000_000,
        ensures
            final(self).wf(),
            final(self).state() == rotated_state(
                old(self).state(),
                pointer_delta_md(
                    old(self).state().mouse_speed,
                    dt_ms as int,
                    pointer_offset_px(win_w as int, cursor_x as int, hidpi_mf as int),
                ),
                pointer_delta_md(
                    old(self).state().mouse_speed,
                    dt_ms as int,
                    pointer_offset_px(win_h as int, cursor_y as int, hidpi_mf as int),
                ),
            ),
    {
        proof {
            lemma_offset_bound(cursor_x as int, hidpi_mf as int);
            lemma_offset_bound(cursor_y as int, hidpi_mf as int);
            lemma_speed_time_bound(self.mouse_speed_mf as int, dt_ms as int);
        }
        let off_x: i128 = win_w as i128 / 2 - div_fp(cursor_x as i128 * 1000, hidpi_mf as i128);
        let off_y: i128 = win_h as i128 / 2 - div_fp(cursor_y as i128 * 1000, hidpi_mf as i128);
        let k: i128 = self.mouse_speed_mf as i128 * dt_ms as i128;
        proof {
            lemma_pointer_delta_fits(k as int, off_x as int);
            lemma_pointer_delta_fits(k as int, off_y as int);
        }
        let delta_h: i128 = div_fp(k * off_x, 1000);
        let delta_v: i128 = div_fp(k * off_y, 1000);
        self.rotate_view_angles_by(delta_h as i64, delta_v as i64);
    }

    /// Integrate the held movement keys over `dt_ms` milliseconds: move along
    /// the forward and right axes and the world up axis, each contribution
    /// additive (diagonal movement is deliberately not renormalized).
    #[verifier::rlimit(60)]
    pub fn apply_input(&mut self, dt_ms: i64)
        requires
            old(self).wf(),
            0 <= dt_ms <= DT_LIMIT_MS,
        ensures
            final(self).wf(),
            final(self).state() == moved_state(old(self).state(), dt_ms as int),
    {
        let dir = self.direction();
        let rgt = self.right();
        proof {
            lemma_axis_speed_bound(dir.x as int, self.move_speed_mf as int, dt_ms as int);
            lemma_axis_speed_bound(dir.y as int, self.move_speed_mf as int, dt_ms as int);
            lemma_axis_speed_bound(dir.z as int, self.move_speed_mf as int, dt_ms as int);
            lemma_axis_speed_bound(rgt.x as int, self.move_speed_mf as int, dt_ms as int);
            lemma_axis_speed_bound(rgt.z as int, self.move_speed_mf as int, dt_ms as int);
            lemma_axis_speed_bound(DIR_ONE as int, self.move_speed_mf as int, dt_ms as int);
            lemma_step_small(dir.x as int, self.move_speed_mf as int, dt_ms as int);
            lemma_step_small(dir.y as int, self.move_speed_mf as int, dt_ms as int);
            lemma_step_small(dir.z as int, self.move_speed_mf as int, dt_ms as int);
            lemma_step_small(rgt.x as int, self.move_speed_mf as int, dt_ms as int);
            lemma_step_small(rgt.z as int, self.move_speed_mf as int, dt_ms as int);
            lemma_step_small(DIR_ONE as int, self.move_speed_mf as int, dt_ms as int);
        }
        let speed: i128 = self.move_speed_mf as i128;
        let t: i128 = dt_ms as i128;
        let step_dx: i128 = div_fp(dir.x as i128 * speed * t, MOVE_DIVISOR as i128);
        let step_dy: i128 = div_fp(dir.y as i128 * speed * t, MOVE_DIVISOR as i128);
        let step_dz: i128 = div_fp(dir.z as i128 * speed * t, MOVE_DIVISOR as i128);
        let step_rx: i128 = div_fp(rgt.x as i128 * speed * t, MOVE_DIVISOR as i128);
        let step_rz: i128 = div_fp(rgt.z as i128 * speed * t, MOVE_DIVISOR as i128);
        let step_up: i128 = div_fp(DIR_ONE as i128 * speed * t, MOVE_DIVISOR as i128);
        proof {
            let s = old(self).state();
            let n = dt_ms as int;
            assert(step_dx as int == move_step(dir_view(s).x, s.move_speed, n));
            assert(step_dy as int == move_step(dir_view(s).y, s.move_speed, n));
            assert(step_dz as int == move_step(dir_view(s).z, s.move_speed, n));
            assert(step_rx as int == move_step(right_view(s).x, s.move_speed, n));
            assert(step_rz as int == move_step(right_view(s).z, s.move_speed, n));
            assert(step_up as int == move_step(DIR_ONE as int, s.move_speed, n));
            assert(move_step(0, s.move_speed, n) == 0);
        }
        let mut dx: i128 = 0;
        let mut dy: i128 = 0;
        let mut dz: i128 = 0;
        if self.input.moving_forwards {
            dx = dx - step_dx;
            dy = dy - step_dy;
            dz = dz - step_dz;
        }
        if self.input.moving_backwards {
            dx = dx + step_dx;
            dy = dy + step_dy;
            dz = dz + step_dz;
        }
        if self.input.moving_left {
            dx = dx + step_rx;
            dz = dz + step_rz;
        }
        if self.input.moving_right {
            dx = dx - step_rx;
            dz = dz - step_rz;
        }
        if self.input.moving_up {
            dy = dy + step_up;
        }
        if self.input.moving_down {
            dy = dy - step_up;
        }
        proof {
            let s = old(self).state();
            let n = dt_ms as int;
            assert(dx as int == net_move(s, n, dir_view(s).x, right_view(s).x, 0));
            assert(dy as int == net_move(s, n, dir_view(s).y, right_view(s).y, DIR_ONE as int));
            assert(dz as int == net_move(s, n, dir_view(s).z, right_view(s).z, 0));
        }
        let l: i128 = POS_LIMIT as i128;
        let nx: i128 = clamp_fp(self.position.x as i128 + dx, -l, l);
        let ny: i128 = clamp_fp(self.position.y as i128 + dy, -l, l);
        let nz: i128 = clamp_fp(self.position.z as i128 + dz, -l, l);
        self.position = Vec3::new(nx as i64, ny as i64, nz as i64);
    }

    /// Record which movement keys are held; the verified way for the event
    /// loop to deliver key state.
    pub fn set_input(&mut self, input: PlayerInput)
        requires
            old(self).wf(),
        ensures
            final(self).wf(),
            final(self).state() == (CamState { input, ..old(self).state() }),
    {
        self.input = input;
    }

    /// Update only the perspective aspect ratio; all other state untouched.
    pub fn on_resize(&mut self, aspect_mf: i64)
        requires
            old(self).wf(),
            0 <= aspect_mf <= 1_000_000_000,
        ensures
            final(self).wf(),
            final(self).state() == resized_state(old(self).state(), aspect_mf as int),
    {
        self.aspect_mf = aspect_mf;
    }

    /// The forward axis, recomputed from the current yaw and pitch.
    pub fn direction(&self) -> (r: Vec3)
        requires
            self.wf(),
        ensures
            r.view() == dir_view(self.state()),
            -DIR_ONE <= r.x <= DIR_ONE,
            -DIR_ONE < r.y < DIR_ONE,
            -DIR_ONE <= r.z <= DIR_ONE,
    {
        proof {
            use_type_invariant(&self.horizontal_angle);
            use_type_invariant(&self.vertical_angle);
        }
        let sy: i64 = sin_fp(self.horizontal_angle.to_millidegrees());
        let cy: i64 = cos_fp(self.horizontal_angle.to_millidegrees());
        let sp: i64 = sin_fp(self.vertical_angle.to_millidegrees());
        let cp: i64 = cos_fp(self.vertical_angle.to_millidegrees());
        proof {
            lemma_trig_product_bounds(sy as int, cy as int, sp as int, cp as int);
            lemma_direction_never_vertical(self.state());
        }
        Vec3::new(cp * sy, sp * TRIG_ONE, cp * cy)
    }

    /// The right axis: the forward vector rotated a quarter turn in yaw only,
    /// independent of pitch.
    pub fn right(&self) -> (r: Vec3)
        requires
            self.wf(),
        ensures
            r.view() == right_view(self.state()),
            -DIR_ONE <= r.x <= DIR_ONE,
            r.y == 0,
            -DIR_ONE <= r.z <= DIR_ONE,
    {
        proof {
            use_type_invariant(&self.horizontal_angle);
        }
        let shifted: Angle = self.horizontal_angle.add_millidegrees(-QUARTER_TURN_MD);
        proof {
            crate::angle::lemma_norm_canonical(self.state().yaw - QUARTER_TURN_MD as int);
            lemma_quarter_shift(self.state().yaw);
        }
        let sx: i64 = sin_fp(shifted.to_millidegrees());
        let cz: i64 = cos_fp(shifted.to_millidegrees());
        proof {
            lemma_trig_product_bounds(sx as int, cz as int, 0, 0);
        }
        Vec3::new(sx * TRIG_ONE, 0, cz * TRIG_ONE)
    }

    /// The up axis: right × forward, so the three axes stay orthogonal at
    /// every pitch and roll is impossible by construction.
    pub fn up(&self) -> (r: Vec3)
        requires
            self.wf(),
        ensures
            r.view() == up_view(self.state()),
            -20_000_000_000_000_000 <= r.x <= 20_000_000_000_000_000,
            -20_000_000_000_000_000 <= r.y <= 20_000_000_000_000_000,
            -20_000_000_000_000_000 <= r.z <= 20_000_000_000_000_000,
    {
        let rgt = self.right();
        let dir = self.direction();
        proof {
            lemma_cross_component_bounds(rgt.view(), dir.view());
        }
        rgt.cross(dir)
    }

    /// The current yaw, in millidegrees.
    pub fn horizontal_angle_millidegrees(&self) -> (r: i64)
        ensures
            r as int == self.state().yaw,
    {
        self.horizontal_angle.to_millidegrees()
    }

    /// The current pitch, in millidegrees.
    pub fn vertical_angle_millidegrees(&self) -> (r: i64)
        ensures
            r as int == self.state().pitch,
    {
        self.vertical_angle.to_millidegrees()
    }

    /// The current world position.
    pub fn position(&self) -> (r: Vec3)
        ensures
            r.view().x == self.state().pos_x,
            r.view().y == self.state().pos_y,
            r.view().z == self.state().pos_z,
    {
        self.position
    }

    /// The view transform (look-at form, from position along the forward
    /// axis with the derived up axis) and the perspective parameters.
    pub fn matrices(&self) -> (m: CameraMatrices)
        requires
            self.wf(),
        ensures
            m.view.right.view() == right_view(self.state()),
            m.view.up.view() == up_view(self.state()),
            m.view.forward.view() == dir_view(self.state()),
            m.view.eye.view().x == self.state().pos_x,
            m.view.eye.view().y == self.state().pos_y,
            m.view.eye.view().z == self.state().pos_z,
            m.projection.fov_md as int == self.state().fov,
            m.projection.aspect_mf as int == self.state().aspect,
            m.projection.near_mf as int == self.state().near,
            m.projection.far_mf as int == self.state().far,
    {
        let view = ViewTransform {
            right: self.right(),
            up: self.up(),
            forward: self.direction(),
            eye: self.position,
        };
        let projection = PerspectiveParams {
            fov_md: self.fov.to_millidegrees(),
            aspect_mf: self.aspect_mf,
            near_mf: self.near_mf,
            far_mf: self.far_mf,
        };
        CameraMatrices::new(view, projection)
    }
}

/// Components of a cross product of two axis-scaled vectors stay within the
/// doubled product of their bounds.
proof fn lemma_cross_component_bounds(a: Vec3View, b: Vec3View)
    by (nonlinear_arith)
    requires
        -(DIR_ONE as int) <= a.x <= DIR_ONE as int,
        -(DIR_ONE as int) <= a.y <= DIR_ONE as int,
        -(DIR_ONE as int) <= a.z <= DIR_ONE as int,
        -(DIR_ONE as int) <= b.x <= DIR_ONE as int,
        -(DIR_ONE as int) <= b.y <= DIR_ONE as int,
        -(DIR_ONE as int) <= b.z <= DIR_ONE as int,
    ensures
        -20_000_000_000_000_000 <= a.y * b.z - a.z * b.y <= 20_000_000_000_000_000,
        -20_000_000_000_000_000 <= a.z * b.x - a.x * b.z <= 20_000_000_000_000_000,
        -20_000_000_000_000_000 <= a.x * b.y - a.y * b.x <= 20_000_000_000_000_000,
{
}

/// The spec-level initial state produced by [`CameraController::new`].
pub open spec fn initial_state(aspect: int, mouse_speed: int, move_speed: int) -> CamState {
    CamState {
        pos_x: 0,
        pos_y: 0,
        pos_z: 10_000,
        yaw: 0,
        pitch: 0,
        fov: 45_000,
        aspect: aspect,
        near: 100,
        far: 100_000,
        mouse_speed: mouse_speed,
        move_speed: move_speed,
        input: PlayerInput {
            moving_forwards: false,
            moving_backwards: false,
            moving_left: false,
            moving_right: false,
            moving_up: false,
            moving_down: false,
        },
    }
}

/// Trig values are at most one in magnitude, so the axis products fit the
/// axis scale.
proof fn lemma_trig_product_bounds(a: int, b: int, c: int, d: int)
    by (nonlinear_arith)
    requires
        -(TRIG_ONE as int) <= a <= TRIG_ONE as int,
        -(TRIG_ONE as int) <= b <= TRIG_ONE as int,
        -(TRIG_ONE as int) <= c <= TRIG_ONE as int,
        -(TRIG_ONE as int) <= d <= TRIG_ONE as int,
    ensures
        -(DIR_ONE as int) <= a * b <= DIR_ONE as int,
        -(DIR_ONE as int) <= a * TRIG_ONE as int <= DIR_ONE as int,
        -(DIR_ONE as int) <= b * TRIG_ONE as int <= DIR_ONE as int,
        -(DIR_ONE as int) <= c * TRIG_ONE as int <= DIR_ONE as int,
        -(DIR_ONE as int) <= d * a <= DIR_ONE as int,
        -(DIR_ONE as int) <= d * b <= DIR_ONE as int,
{
}

/// A speed–time product stays within one minute at the speed limit.
proof fn lemma_speed_time_bound(speed: int, dt_ms: int)
    by (nonlinear_arith)
    requires
        0 <= speed <= SPEED_LIMIT_MF as int,
        0 <= dt_ms <= DT_LIMIT_MS as int,
    ensures
        0 <= speed * dt_ms <= 60_000_000_000,
{
}

/// The pointer offset from centre is at most 2e8 pixels in magnitude once
/// the raw coordinate and the HiDPI factor are within their accepted ranges.
proof fn lemma_offset_bound(raw_coord: int, hidpi_mf: int)
    requires
        -10_000_000 <= raw_coord <= 10_000_000,
        100 <= hidpi_mf <= 100_000,
    ensures
        -200_000_000 <= div_toward_zero(raw_coord * 1000, hidpi_mf) <= 200_000_000,
{
    let scaled = raw_coord * 1000;
    crate::fixed::lemma_div_toward_zero_bounds(scaled, hidpi_mf);
    if scaled >= 0 {
        vstd::arithmetic::div_mod::lemma_div_is_ordered_by_denominator(scaled, 100, hidpi_mf);
        vstd::arithmetic::div_mod::lemma_div_is_ordered(scaled, 10_000_000_000, 100);
    } else {
        vstd::arithmetic::div_mod::lemma_div_is_ordered_by_denominator(-scaled, 100, hidpi_mf);
        vstd::arithmetic::div_mod::lemma_div_is_ordered(-scaled, 10_000_000_000, 100);
    }
}

/// The pointer rotation delta fits comfortably in 64 bits.
proof fn lemma_pointer_delta_fits(k: int, offset: int)
    requires
        0 <= k <= 60_000_000_000,
        -200_500_000 <= offset <= 200_500_000,
    ensures
        -12_030_000_000_000_000_000 <= k * offset <= 12_030_000_000_000_000_000,
        -12_030_000_000_000_000 <= div_toward_zero(k * offset, 1000) <= 12_030_000_000_000_000,
{
    let p = k * offset;
    assert(-12_030_000_000_000_000_000 <= p <= 12_030_000_000_000_000_000) by (nonlinear_arith)
        requires
            p == k * offset,
            0 <= k <= 60_000_000_000,
            -200_500_000 <= offset <= 200_500_000,
    ;
    crate::fixed::lemma_div_toward_zero_bounds(p, 1000);
    if p >= 0 {
        vstd::arithmetic::div_mod::lemma_div_is_ordered(p, 12_030_000_000_000_000_000, 1000);
    } else {
        vstd::arithmetic::div_mod::lemma_div_is_ordered(-p, 12_030_000_000_000_000_000, 1000);
    }
}

/// An axis component times speed and time stays well inside the wide range.
proof fn lemma_axis_speed_bound(c: int, speed: int, dt_ms: int)
    by (nonlinear_arith)
    requires
        -(DIR_ONE as int) <= c <= DIR_ONE as int,
        0 <= speed <= SPEED_LIMIT_MF as int,
        0 <= dt_ms <= DT_LIMIT_MS as int,
    ensures
        -100_000_000_000_000 <= c * speed <= 100_000_000_000_000,
        -6_000_000_000_000_000_000 <= c * speed * dt_ms <= 6_000_000_000_000_000_000,
{
}

/// One movement step is at most 60 000 units, so a frame's net displacement
/// cannot escape the wide range.
proof fn lemma_step_small(c: int, speed: int, dt_ms: int)
    requires
        -(DIR_ONE as int) <= c <= DIR_ONE as int,
        0 <= speed <= SPEED_LIMIT_MF as int,
        0 <= dt_ms <= DT_LIMIT_MS as int,
    ensures
        -6_000_000_000_000_000_000 <= move_step(c, speed, dt_ms) <= 6_000_000_000_000_000_000,
{
    lemma_axis_speed_bound(c, speed, dt_ms);
    crate::fixed::lemma_div_toward_zero_bounds(c * speed * dt_ms, MOVE_DIVISOR as int);
}

} // verus!
