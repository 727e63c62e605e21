use enki::controls::camera::Camera;
use enki::controls::first_person::{MoveInput, SPRINT_MULTIPLIER};
use enki::controls::nav_mode::{NavMode, NavState};

fn test_camera() -> Camera {
    Camera {
        position: (0.0_f64.to_bits(), 0.0_f64.to_bits(), 100_000.0_f64.to_bits()),
        orientation: (
            0.0_f32.to_bits(),
            0.0_f32.to_bits(),
            0.0_f32.to_bits(),
            1.0_f32.to_bits(),
        ),
        fov_y_radians: 60_f32.to_radians().to_bits(),
        near: 0.5_f32.to_bits(),
        far: 750_000.0_f32.to_bits(),
    }
}

#[test]
fn starts_in_globe_mode() {
    let state = NavState::new();
    assert_eq!(state.mode(), NavMode::Globe);
    assert!(!state.has_saved_globe_camera());
}

#[test]
fn globe_to_placement_snapshots_camera() {
    let mut state = NavState::new();
    let cam = test_camera();
    state.begin_placement(&cam);
    assert_eq!(state.mode(), NavMode::Placement);
    assert!(state.has_saved_globe_camera());
}

#[test]
fn placement_to_first_person() {
    let mut state = NavState::new();
    state.begin_placement(&test_camera());
    state.point_picked();
    assert_eq!(state.mode(), NavMode::FirstPerson);
}

#[test]
fn first_person_to_globe_restores_camera() {
    let mut state = NavState::new();
    let cam = test_camera();
    let expected_z = f64::from_bits(cam.position.2);
    state.begin_placement(&cam);
    state.point_picked();
    let restored = state.exit_first_person().expect("should restore camera");
    assert_eq!(state.mode(), NavMode::Globe);
    assert!((f64::from_bits(restored.position.2) - expected_z).abs() < 1e-6);
    assert_eq!(restored, cam);
}

#[test]
fn exit_from_wrong_mode_is_noop() {
    let mut state = NavState::new();
    let result = state.exit_first_person();
    assert!(result.is_none());
    assert_eq!(state.mode(), NavMode::Globe);
}

#[test]
fn begin_placement_from_wrong_mode_is_noop() {
    let mut state = NavState::new();
    state.begin_placement(&test_camera());
    state.point_picked();
    state.begin_placement(&test_camera());
    assert_eq!(state.mode(), NavMode::FirstPerson);
}

#[test]
fn full_cycle_twice() {
    let mut state = NavState::new();
    for _ in 0..2 {
        assert_eq!(state.mode(), NavMode::Globe);
        state.begin_placement(&test_camera());
        state.point_picked();
        state.exit_first_person();
    }
    assert_eq!(state.mode(), NavMode::Globe);
}

#[test]
fn second_landing_keeps_the_first_camera() {
    let mut state = NavState::default();
    state.begin_placement(&test_camera());
    let mut other = test_camera();
    other.far = 7;
    state.begin_placement(&other);
    assert_eq!(state.saved_globe_camera(), Some(&test_camera()));
}

#[test]
fn picking_needs_placement() {
    let mut state = NavState::new();
    state.point_picked();
    assert_eq!(state.mode(), NavMode::Globe);
    assert_eq!(state.saved_globe_camera(), None);
}

#[test]
fn no_key_is_no_motion() {
    let keys = MoveInput::default();
    assert!(!keys.moves());
    assert_eq!((keys.ahead(), keys.aside()), (0, 0));
    assert_eq!((keys.walk_boost(), keys.flight_boost()), (1, 1));
}

#[test]
fn opposite_keys_cancel() {
    let keys = MoveInput { forward: true, backward: true, ..Default::default() };
    assert!(!keys.moves());
    let keys = MoveInput { backward: true, left: true, sprint: true, ..Default::default() };
    assert!(keys.moves());
    assert_eq!((keys.ahead(), keys.aside()), (-1, -1));
    assert_eq!(keys.walk_boost(), SPRINT_MULTIPLIER);
    assert_eq!((keys.walk_boost(), keys.flight_boost()), (5, 6));
}
