use viewer_core::angle::{Angle, EIGHTH_TURN_MD, HALF_TURN_MD, QUARTER_TURN_MD};

#[test]
fn normalization_identity_inside_range() {
    assert_eq!(Angle::from_millidegrees(0).to_millidegrees(), 0);
    assert_eq!(Angle::from_millidegrees(90_000).to_millidegrees(), 90_000);
    assert_eq!(Angle::from_millidegrees(-90_000).to_millidegrees(), -90_000);
    assert_eq!(Angle::from_millidegrees(179_999).to_millidegrees(), 179_999);
}

#[test]
fn normalization_wraps_full_turns() {
    assert_eq!(Angle::from_millidegrees(360_000).to_millidegrees(), 0);
    assert_eq!(Angle::from_millidegrees(-360_000).to_millidegrees(), 0);
    assert_eq!(Angle::from_millidegrees(540_000).to_millidegrees(), 180_000);
    assert_eq!(Angle::from_millidegrees(190_000).to_millidegrees(), -170_000);
    assert_eq!(Angle::from_millidegrees(-190_000).to_millidegrees(), 170_000);
    assert_eq!(Angle::from_millidegrees(725_000).to_millidegrees(), 5_000);
}

#[test]
fn boundary_resolves_to_positive_half_turn() {
    // Exactly 180° must come out the same from both sides, never oscillate.
    assert_eq!(Angle::from_millidegrees(180_000).to_millidegrees(), 180_000);
    assert_eq!(Angle::from_millidegrees(-180_000).to_millidegrees(), 180_000);
    assert_eq!(Angle::from_millidegrees(180_000).neg().to_millidegrees(), 180_000);
}

#[test]
fn named_constants() {
    assert_eq!(Angle::zero().to_millidegrees(), 0);
    assert_eq!(Angle::quarter().to_millidegrees(), QUARTER_TURN_MD);
    assert_eq!(Angle::eighth().to_millidegrees(), EIGHTH_TURN_MD);
    // A full turn is canonically the zero angle.
    assert_eq!(Angle::full().to_millidegrees(), 0);
    assert_eq!(HALF_TURN_MD, 180_000);
}

#[test]
fn arithmetic_renormalizes() {
    let a = Angle::from_millidegrees(170_000);
    let b = Angle::from_millidegrees(20_000);
    assert_eq!(a.add(b).to_millidegrees(), -170_000);
    assert_eq!(b.sub(a).to_millidegrees(), -150_000);
    assert_eq!(a.add_millidegrees(10_000).to_millidegrees(), 180_000);
    assert_eq!(a.neg().to_millidegrees(), -170_000);
    assert!(b.is_less_than(&a));
    assert!(!a.is_less_than(&b));
}

#[test]
fn repeated_small_steps_match_one_large_step() {
    // Ten steps of 37° land exactly where one 370° step lands.
    let mut stepped = Angle::zero();
    for _ in 0..10 {
        stepped = stepped.add_millidegrees(37_000);
    }
    let direct = Angle::from_millidegrees(370_000);
    assert_eq!(stepped.to_millidegrees(), direct.to_millidegrees());
    assert_eq!(stepped.to_millidegrees(), 10_000);
}
