use enki::controls::camera::Camera;
use enki::controls::first_person::MoveInput;
use enki::shell::begin::{after_begin, Answer, Begun};
use enki::shell::launch::{goes_on, parts, run_mode, Part, RunMode};
use enki::shell::panel::UiOutput;
use enki::shell::place::Place;
use enki::shell::settings::{Settings, KNOBS};
use enki::shell::state::{
    FrameStart, Key, KeyChange, Load, NavChange, Reaction, Shell, Steering, WindowEvent,
};

fn orbit(n: u64) -> Camera {
    Camera {
        position: (n, n + 1, n + 2),
        orientation: (1, 2, 3, 4),
        fov_y_radians: 5,
        near: 6,
        far: 7,
    }
}

fn settings() -> Settings {
    Settings::start([0; KNOBS], false, true, true)
}

fn shell(mode: RunMode) -> Shell {
    Shell::new(mode, settings())
}

fn press(s: &mut Shell, key: Key) -> KeyChange {
    s.on_key(key, true, false, &orbit(10))
}

fn strings(args: &[&str]) -> Vec<String> {
    args.iter().map(|a| a.to_string()).collect()
}

#[test]
fn flags_choose_the_mode() {
    assert_eq!(run_mode(&strings(&["enki"]), None, None), RunMode::Planet);
    assert_eq!(run_mode(&strings(&["enki", "--markers"]), None, None), RunMode::Markers);
    assert_eq!(
        run_mode(&strings(&["enki", "--markers", "--stress-streaming"]), None, None),
        RunMode::Stress
    );
    assert_eq!(
        run_mode(&strings(&["--soak-terrain", "--stress-streaming"]), None, None),
        RunMode::SoakTerrain
    );
}

#[test]
fn settings_stand_in_for_flags() {
    assert_eq!(run_mode(&strings(&[]), Some("1"), None), RunMode::Stress);
    assert_eq!(run_mode(&strings(&["--markers"]), Some("0"), None), RunMode::Markers);
    assert_eq!(run_mode(&strings(&[]), Some("1"), Some("1")), RunMode::SoakTerrain);
    assert_eq!(run_mode(&strings(&[]), Some("11"), Some("")), RunMode::Planet);
}

#[test]
fn titles_tell_the_modes_apart() {
    assert_eq!(RunMode::Planet.title(), "enki");
    assert_eq!(RunMode::Markers.title(), "enki — markers");
    assert_eq!(RunMode::Stress.title(), "enki — stress-streaming");
    assert_eq!(RunMode::SoakTerrain.title(), "enki — soak-terrain");
}

#[test]
fn parts_are_made_in_order() {
    assert_eq!(
        parts(RunMode::Markers, true),
        vec![Part::Window, Part::Device, Part::Scene, Part::Panel, Part::Resolve]
    );
    let planet = parts(RunMode::Planet, true);
    assert_eq!(planet.len(), 16);
    assert_eq!(planet[12], Part::Trees);
    assert_eq!(planet[13], Part::Loader);
    assert_eq!(parts(RunMode::SoakTerrain, false).len(), 15);
    assert!(!goes_on(Part::Window, false));
    assert!(!goes_on(Part::TerrainLines, false));
    assert!(goes_on(Part::Ocean, false));
    assert!(goes_on(Part::Window, true));
}

#[test]
fn tab_goes_round() {
    let mut s = shell(RunMode::Planet);
    assert_eq!(s.place(), Place::Globe);
    assert_eq!(press(&mut s, Key::Tab), KeyChange::Went(NavChange::Placing));
    assert_eq!(s.place(), Place::Placement);
    assert_eq!(press(&mut s, Key::Tab), KeyChange::Went(NavChange::PlacingCancelled));
    assert_eq!(s.place(), Place::Globe);
}

#[test]
fn landing_and_leaving_gives_the_camera_back() {
    let mut s = shell(RunMode::Planet);
    press(&mut s, Key::Tab);
    assert_eq!(s.pick(false, true), NavChange::Missed);
    assert_eq!(s.pick(true, false), NavChange::NoTerrain);
    assert_eq!(s.place(), Place::Placement);
    assert_eq!(s.pick(true, true), NavChange::Landed);
    assert_eq!(s.place(), Place::Surface);
    assert_eq!(
        s.on_key(Key::Escape, true, false, &orbit(99)),
        KeyChange::Went(NavChange::LeftSurface(Some(orbit(10))))
    );
    assert_eq!(s.place(), Place::Globe);
    assert_eq!(press(&mut s, Key::Escape), KeyChange::Went(NavChange::Nothing));
}

#[test]
fn flight_begins_and_ends_in_orbit() {
    let mut s = shell(RunMode::Planet);
    assert_eq!(press(&mut s, Key::F), KeyChange::Went(NavChange::EnteredSpace));
    assert_eq!(s.place(), Place::Space);
    assert!(s.motion_counts());
    assert_eq!(press(&mut s, Key::F), KeyChange::Went(NavChange::LeftSpace));
    press(&mut s, Key::F);
    assert_eq!(press(&mut s, Key::Tab), KeyChange::Went(NavChange::LeftSpace));
    assert_eq!(s.place(), Place::Globe);
    press(&mut s, Key::Tab);
    assert_eq!(press(&mut s, Key::F), KeyChange::Went(NavChange::Nothing));
    assert_eq!(s.place(), Place::Placement);
}

#[test]
fn first_key_means_lines_in_orbit_only() {
    let mut s = shell(RunMode::Planet);
    assert_eq!(press(&mut s, Key::W), KeyChange::Lines(true));
    assert!(s.settings().wireframe);
    assert!(!s.input().keys.forward);
    press(&mut s, Key::F);
    let ahead = MoveInput { forward: true, ..Default::default() };
    assert_eq!(press(&mut s, Key::W), KeyChange::Keys(ahead));
    assert!(s.settings().wireframe);
    assert_eq!(
        s.on_key(Key::W, false, false, &orbit(0)),
        KeyChange::Keys(MoveInput::default())
    );
}

#[test]
fn movement_keys_follow_press_and_release() {
    let mut s = shell(RunMode::Planet);
    press(&mut s, Key::A);
    press(&mut s, Key::S);
    press(&mut s, Key::D);
    press(&mut s, Key::Shift);
    let k = s.input().keys;
    assert_eq!((k.forward, k.left, k.backward, k.right, k.sprint), (false, true, true, true, true));
    s.on_key(Key::S, false, false, &orbit(0));
    assert!(!s.input().keys.backward);
    assert_eq!(s.on_key(Key::S, true, true, &orbit(0)), KeyChange::Nothing);
    assert!(!s.input().keys.backward);
    assert_eq!(press(&mut s, Key::V), KeyChange::Nothing);
    assert_eq!(press(&mut s, Key::Other), KeyChange::Nothing);
    assert_eq!(s.on_key(Key::Tab, false, false, &orbit(0)), KeyChange::Nothing);
}

#[test]
fn view_turns_on_the_ground_only() {
    let mut s = shell(RunMode::Planet);
    press(&mut s, Key::Tab);
    s.pick(true, true);
    assert_eq!(press(&mut s, Key::V), KeyChange::TurnView);
}

#[test]
fn views_pass_over_clusters_without_them() {
    let mut s = shell(RunMode::Planet);
    let mut seen = Vec::new();
    for _ in 0..10 {
        match press(&mut s, Key::M) {
            KeyChange::View(v) => seen.push(v),
            other => panic!("{other:?}"),
        }
    }
    assert_eq!(seen, vec![1, 2, 6, 7, 8, 9, 10, 0, 1, 2]);
}

#[test]
fn views_show_clusters_where_there_are_some() {
    let mut s = shell(RunMode::Planet);
    assert_eq!(s.begin_frame(Load::Finished { clusters: true }), FrameStart::Draw { steered: true });
    assert!(s.nanite_on());
    let mut seen = Vec::new();
    for _ in 0..13 {
        if let KeyChange::View(v) = press(&mut s, Key::M) {
            seen.push(v);
        }
    }
    assert_eq!(seen, vec![1, 2, 3, 4, 5, 6, 7, 8, 9, 10, 0, 1, 2]);
}

#[test]
fn sea_views_leave_the_terrain_lit() {
    let mut s = shell(RunMode::Planet);
    let mut out = UiOutput::new(&settings());
    out.settings.view_mode = 10;
    s.apply_ui(&out, &orbit(0));
    assert_eq!(s.terrain_view(), 10);
    out.settings.view_mode = 11;
    s.apply_ui(&out, &orbit(0));
    assert_eq!(s.settings().view_mode, 11);
    assert_eq!(s.terrain_view(), 0);
}

#[test]
fn drag_begins_with_the_press() {
    let mut s = shell(RunMode::Planet);
    assert_eq!(s.on_cursor(1, 2), None);
    s.on_button(true);
    assert!(s.input().clicked && s.input().dragging);
    assert_eq!(s.on_cursor(3, 4), None);
    assert_eq!(s.on_cursor(5, 6), Some((3, 4)));
    s.on_button(true);
    assert_eq!(s.on_cursor(7, 8), Some((5, 6)));
    s.on_button(false);
    assert!(!s.input().dragging && !s.input().held);
    assert_eq!(s.on_cursor(9, 9), None);
}

#[test]
fn click_is_used_up_by_the_frame() {
    let mut s = shell(RunMode::Planet);
    s.on_button(true);
    assert_eq!(s.steer(), Steering::Orbit { drag: true, pick: false });
    press(&mut s, Key::Tab);
    s.on_button(false);
    s.on_button(true);
    assert_eq!(s.steer(), Steering::Orbit { drag: true, pick: true });
    assert_eq!(s.steer(), Steering::Orbit { drag: true, pick: false });
    s.pick(true, true);
    assert_eq!(s.steer(), Steering::Walk);
    press(&mut s, Key::Tab);
    press(&mut s, Key::F);
    assert_eq!(s.steer(), Steering::Fly);
}

#[test]
fn window_events_are_routed() {
    let mut s = shell(RunMode::Planet);
    let none = Reaction { exit: false, redraw: false, navigate: false, render: false };
    assert_eq!(s.on_window(WindowEvent::Close, true), Reaction { exit: true, ..none });
    assert_eq!(
        s.on_window(WindowEvent::Resized { width: 0, height: 5 }, false),
        Reaction { redraw: true, ..none }
    );
    assert_eq!(s.begin_frame(Load::Pending), FrameStart::Skip);
    s.on_window(WindowEvent::Resized { width: 4, height: 5 }, false);
    assert_eq!(s.begin_frame(Load::Pending), FrameStart::LoadingScreen);
    assert_eq!(s.on_window(WindowEvent::Other, true), none);
    assert_eq!(s.on_window(WindowEvent::Other, false), Reaction { navigate: true, ..none });
    assert_eq!(s.on_window(WindowEvent::Redraw, true), Reaction { render: true, ..none });
}

#[test]
fn load_ends_once() {
    let mut s = shell(RunMode::Planet);
    assert_eq!(s.begin_frame(Load::Pending), FrameStart::LoadingScreen);
    assert!(!s.notice());
    assert_eq!(s.begin_frame(Load::Finished { clusters: false }), FrameStart::Draw { steered: true });
    assert!(s.notice() && !s.nanite_on());
    let mut out = UiOutput::new(&settings());
    out.dismiss_load_stats = true;
    s.apply_ui(&out, &orbit(0));
    assert_eq!(s.begin_frame(Load::Pending), FrameStart::Draw { steered: true });
    assert!(!s.notice());
}

#[test]
fn markers_need_no_load() {
    let mut s = shell(RunMode::Markers);
    assert_eq!(s.begin_frame(Load::Pending), FrameStart::Draw { steered: true });
    assert!(!s.notice());
}

#[test]
fn soak_counts_frames_between_reports() {
    let mut s = shell(RunMode::SoakTerrain);
    for _ in 0..3 {
        assert_eq!(
            s.begin_frame(Load::Finished { clusters: false }),
            FrameStart::Draw { steered: false }
        );
        assert!(!s.end_frame(Begun::Picture));
    }
    assert_eq!(s.soak_reported(), 3);
    assert_eq!(s.soak_reported(), 0);
}

#[test]
fn panel_moves_on_then_off_the_ground() {
    let mut s = shell(RunMode::Planet);
    let mut out = UiOutput::new(&settings());
    out.cycle_nav = true;
    out.exit_surface = true;
    assert_eq!(s.apply_ui(&out, &orbit(1)), (NavChange::Placing, NavChange::Nothing));
    s.pick(true, true);
    out.cycle_nav = false;
    assert_eq!(
        s.apply_ui(&out, &orbit(2)),
        (NavChange::Nothing, NavChange::LeftSurface(Some(orbit(1))))
    );
}

#[test]
fn panel_cannot_show_missing_clusters() {
    let mut s = shell(RunMode::Planet);
    let mut out = UiOutput::new(&settings());
    out.settings.view_mode = 4;
    s.apply_ui(&out, &orbit(0));
    assert_eq!(s.settings().view_mode, 0);
    s.begin_frame(Load::Finished { clusters: true });
    s.apply_ui(&out, &orbit(0));
    assert_eq!(s.settings().view_mode, 4);
    out.settings.nanite_enabled = false;
    s.apply_ui(&out, &orbit(0));
    assert_eq!(s.settings().view_mode, 0);
}

#[test]
fn only_pictures_are_drawn_and_counted() {
    let nothing = Answer { draw: false, end: false, redraw: false, count: false };
    assert_eq!(after_begin(Begun::Picture), Answer { draw: true, count: true, ..nothing });
    assert_eq!(after_begin(Begun::NoPicture), Answer { end: true, ..nothing });
    assert_eq!(after_begin(Begun::Lost), Answer { redraw: true, ..nothing });
    assert_eq!(after_begin(Begun::Failed), nothing);
    let mut s = shell(RunMode::Planet);
    for begun in [Begun::NoPicture, Begun::Lost, Begun::Failed] {
        assert!(!s.end_frame(begun));
        assert_eq!(s.frame(), 0);
    }
    assert!(s.end_frame(Begun::Picture));
    assert_eq!(s.frame(), 1);
}

#[test]
fn minimized_frames_are_skipped() {
    let mut s = shell(RunMode::Planet);
    s.on_window(WindowEvent::Resized { width: 0, height: 9 }, false);
    assert!(s.minimized());
    assert_eq!(s.begin_frame(Load::Pending), FrameStart::Skip);
    s.on_window(WindowEvent::Resized { width: 16, height: 9 }, false);
    assert!(!s.minimized());
    assert_eq!(s.begin_frame(Load::Pending), FrameStart::LoadingScreen);
}

#[test]
fn clusters_are_chosen_every_fourth_frame() {
    let mut s = shell(RunMode::Planet);
    let mut chosen = Vec::new();
    for _ in 0..12 {
        if s.may_choose() {
            let (completed, retire_at) = s.chose(2);
            assert_eq!(retire_at, completed + 2);
            chosen.push(completed);
        }
        s.end_frame(Begun::Picture);
    }
    assert_eq!(chosen, vec![4, 8]);
}

#[test]
fn reports_come_every_three_hundred_frames() {
    let mut s = shell(RunMode::Planet);
    let mut due = Vec::new();
    for n in 0..700_u64 {
        if s.end_frame(Begun::Picture) {
            due.push(n);
        }
    }
    assert_eq!(due, vec![0, 300, 600]);
    assert_eq!(s.frame(), 700);
}
