use viewer_core::camera::{CameraController, PlayerInput, DIR_ONE, PITCH_LIMIT_MD};
use viewer_core::vec3::Vec3;

fn dot(a: Vec3, b: Vec3) -> i128 {
    a.x as i128 * b.x as i128 + a.y as i128 * b.y as i128 + a.z as i128 * b.z as i128
}

#[test]
fn quarter_turn_points_along_x() {
    // aspect 1.0, mouse speed 4.0, move speed 7.0; yaw 90° from a 0° start.
    let mut cam = CameraController::new(1000, 4000, 7000);
    cam.rotate_view_angles_by(90_000, 0);
    assert_eq!(cam.horizontal_angle_millidegrees(), 90_000);
    assert_eq!(cam.vertical_angle_millidegrees(), 0);
    let m = cam.matrices();
    assert_eq!(m.view.forward, Vec3::new(DIR_ONE, 0, 0));
    assert_eq!(cam.direction(), Vec3::new(100_000_000, 0, 0));
}

#[test]
fn initial_direction_points_along_z() {
    let cam = CameraController::new(1000, 4000, 7000);
    assert_eq!(cam.direction(), Vec3::new(0, 0, DIR_ONE));
    assert_eq!(cam.right(), Vec3::new(-DIR_ONE, 0, 0));
}

#[test]
fn forward_movement_is_subtractive_along_direction() {
    // Forward only, dt = 0.5 s, move speed 7.0 at yaw 0 / pitch 0:
    // the position moves by (0, 0, -3.5) from the (0, 0, 10) start.
    let mut cam = CameraController::new(1000, 4000, 7000);
    cam.input.moving_forwards = true;
    cam.apply_input(500);
    assert_eq!(cam.position(), Vec3::new(0, 0, 6_500));
}

#[test]
fn diagonal_movement_composes_additively() {
    let mut cam = CameraController::new(1000, 4000, 7000);
    cam.input.moving_forwards = true;
    cam.input.moving_left = true;
    cam.input.moving_up = true;
    cam.apply_input(500);
    // forward: z -= 3500; left: x -= 3500 (right axis is -x at yaw 0); up: y += 3500.
    assert_eq!(cam.position(), Vec3::new(-3_500, 3_500, 6_500));
}

#[test]
fn opposed_keys_cancel() {
    let mut cam = CameraController::new(1000, 4000, 7000);
    cam.input.moving_forwards = true;
    cam.input.moving_backwards = true;
    cam.apply_input(500);
    assert_eq!(cam.position(), Vec3::new(0, 0, 10_000));
}

#[test]
fn pitch_clamps_exactly_at_the_pole_guard() {
    let mut cam = CameraController::new(1000, 4000, 7000);
    // Pitch delta is subtracted, so a large negative delta pitches up.
    cam.rotate_view_angles_by(0, -200_000);
    assert_eq!(cam.vertical_angle_millidegrees(), PITCH_LIMIT_MD);
    assert_eq!(PITCH_LIMIT_MD, 89_000);
    cam.rotate_view_angles_by(0, -1);
    // Already at the +89° clamp; the direction never reaches straight up.
    assert_eq!(cam.vertical_angle_millidegrees(), 89_000);
    assert!(cam.direction().y < DIR_ONE);
    assert!(cam.direction().y > -DIR_ONE);
    cam.rotate_view_angles_by(0, 400_000);
    // Clamped at exactly -89° now.
    assert_eq!(cam.vertical_angle_millidegrees(), -89_000);
    assert!(cam.direction().y > -DIR_ONE);
}

#[test]
fn axes_stay_orthogonal() {
    let mut cam = CameraController::new(1000, 4000, 7000);
    cam.rotate_view_angles_by(37_000, -21_000);
    let d = cam.direction();
    let r = cam.right();
    let u = cam.up();
    assert_eq!(dot(d, r), 0);
    assert_eq!(dot(u, r), 0);
    assert_eq!(dot(u, d), 0);
    cam.rotate_view_angles_by(-163_000, 57_000);
    let d = cam.direction();
    let r = cam.right();
    let u = cam.up();
    assert_eq!(dot(d, r), 0);
    assert_eq!(dot(u, r), 0);
    assert_eq!(dot(u, d), 0);
}

#[test]
fn view_maps_eye_to_origin() {
    let mut cam = CameraController::new(1000, 4000, 7000);
    cam.rotate_view_angles_by(123_456, -7_890);
    cam.input.moving_forwards = true;
    cam.apply_input(250);
    let m = cam.matrices();
    assert_eq!(m.view.apply(cam.position()), (0, 0, 0));
}

#[test]
fn resize_is_idempotent() {
    let mut a = CameraController::new(1000, 4000, 7000);
    let mut b = CameraController::new(1000, 4000, 7000);
    a.on_resize(1_777);
    b.on_resize(1_777);
    b.on_resize(1_777);
    assert_eq!(a.matrices().projection, b.matrices().projection);
    assert_eq!(a.matrices(), b.matrices());
}

#[test]
fn cursor_offset_turns_into_rotation() {
    let mut cam = CameraController::new(1000, 4000, 7000);
    // Window 800x600, pointer at (300, 400), HiDPI 1.0, dt 0.5 s:
    // x offset 100 px -> yaw += 4.0 * 0.5 * 100 = 200°, wrapped to -160°;
    // y offset -100 px -> pitch += 200°, clamped to +89°.
    cam.on_cursor_moved(500, 300, 400, 800, 600, 1000);
    assert_eq!(cam.horizontal_angle_millidegrees(), -160_000);
    assert_eq!(cam.vertical_angle_millidegrees(), 89_000);
    let m = cam.matrices();
    assert_eq!(m.projection.aspect_mf, 1000);
    let d = cam.direction();
    // Pitch is at the clamp: strictly below the pole.
    assert!(d.y < DIR_ONE && d.y > 0);
}

#[test]
fn centered_cursor_rotates_nothing() {
    let mut cam = CameraController::new(1000, 4000, 7000);
    cam.on_cursor_moved(500, 400, 300, 800, 600, 1000);
    assert_eq!(cam.direction(), Vec3::new(0, 0, DIR_ONE));
}

#[test]
fn projection_parameters_carry_construction_values() {
    let cam = CameraController::new(1_333, 4000, 7000);
    let p = cam.matrices().projection;
    assert_eq!(p.fov_md, 45_000);
    assert_eq!(p.aspect_mf, 1_333);
    assert_eq!(p.near_mf, 100);
    assert_eq!(p.far_mf, 100_000);
}

#[test]
fn set_input_records_held_keys() {
    let mut cam = CameraController::new(1000, 4000, 7000);
    cam.set_input(PlayerInput { moving_forwards: true, ..PlayerInput::default() });
    cam.apply_input(500);
    assert_eq!(cam.position(), Vec3::new(0, 0, 6_500));
    cam.set_input(PlayerInput::default());
    cam.apply_input(500);
    assert_eq!(cam.position(), Vec3::new(0, 0, 6_500));
}

#[test]
fn split_frames_track_one_combined_frame() {
    // Frame-rate independence: integrating over 0.2 s then 0.3 s lands
    // within the fixed-point quantum of one 0.5 s step.
    let mut split = CameraController::new(1000, 4000, 7000);
    let mut whole = CameraController::new(1000, 4000, 7000);
    split.rotate_view_angles_by(37_000, -21_000);
    whole.rotate_view_angles_by(37_000, -21_000);
    let input = PlayerInput { moving_forwards: true, moving_left: true, ..PlayerInput::default() };
    split.set_input(input.clone());
    whole.set_input(input);
    split.apply_input(200);
    split.apply_input(300);
    whole.apply_input(500);
    let a = split.position();
    let b = whole.position();
    assert!((a.x - b.x).abs() <= 6);
    assert!((a.y - b.y).abs() <= 6);
    assert!((a.z - b.z).abs() <= 6);
}
