use enki::shell::panel::{
    enabled, hint, panel, view_label, Available, Button, Feature, Item, Section, UiEvent, UiOutput,
};
use enki::shell::place::Place;
use enki::shell::settings::{Knob, Settings, Toggle, KNOBS};

const ALL: Available = Available { flora: true, nanite: true };
const NONE: Available = Available { flora: false, nanite: false };

fn settings() -> Settings {
    Settings::start([0; KNOBS], false, true, true)
}

#[test]
fn panel_is_laid_out_from_top_to_bottom() {
    let items = panel(Place::Globe, ALL, false, false);
    assert_eq!(items[0], Item::Section(Section::Navigation));
    assert_eq!(items[3], Item::Button(Button::CycleMode));
    assert_eq!(items[4], Item::Section(Section::Performance));
    assert_eq!(*items.last().unwrap(), Item::Hint(4));
    let views: Vec<u32> = items
        .iter()
        .filter_map(|i| match i {
            Item::View(v) => Some(*v),
            _ => None,
        })
        .collect();
    assert_eq!(views, (0..14).collect::<Vec<u32>>());
    assert_eq!(items.iter().filter(|i| matches!(i, Item::Knob(_))).count(), KNOBS);
    assert_eq!(items.iter().filter(|i| matches!(i, Item::Toggle(_))).count(), 13);
}

#[test]
fn panel_grows_with_what_there_is() {
    let short = panel(Place::Globe, ALL, false, false);
    assert_eq!(panel(Place::Surface, ALL, false, false)[4], Item::Button(Button::ExitToOrbit));
    assert_eq!(panel(Place::Globe, ALL, true, true).len(), short.len() + 6);
    let bare = panel(Place::Globe, NONE, false, false);
    assert!(bare.contains(&Item::Missing(Feature::Flora)));
    assert!(bare.contains(&Item::Missing(Feature::Nanite)));
    assert!(!short.contains(&Item::Missing(Feature::Nanite)));
}

#[test]
fn labels_read_as_written() {
    assert_eq!(Section::PlanetLod.title(), "Planet LOD");
    assert!(Section::Ocean.open_at_first() && !Section::Time.open_at_first());
    assert_eq!(Button::Dismiss.label(), "OK");
    assert_eq!(view_label(5), "LOD");
    assert_eq!(view_label(13), "Density");
    assert_eq!(hint(0), "[M] cycle material");
    assert_eq!(hint(4), "[Esc] exit to orbit");
    assert_eq!(Toggle::Waves.label(), "FFT waves (near surface)");
    assert_eq!(Knob::CloudType.label(), "Type (stratus→cumulus)");
    assert_eq!(Place::Space.label(), "Space");
}

#[test]
fn knobs_have_their_ranges() {
    assert_eq!(Knob::TimeScale.range(), (60_000_000, 300_000_000_000));
    assert_eq!(Knob::SeaLevel.range(), (-1_200_000_000, 1_200_000_000));
    assert_eq!(Knob::WindWidth.range(), (500, 6_000));
    assert_eq!(Knob::Threshold.range(), (250_000, 8_000_000));
    assert!(Knob::TimeScale.logarithmic() && !Knob::Foam.logarithmic());
    assert_eq!(Knob::SeaLevel.step(), Some(5_000_000));
    assert_eq!(Knob::Foam.step(), None);
}

#[test]
fn start_is_without_anti_aliasing() {
    let s = settings();
    assert!(!s.taa && !s.wireframe && !s.markers_poles && !s.markers_equator);
    assert!(s.ocean_enabled && s.nanite_enabled && s.flora_enabled && s.wind_enabled);
    assert_eq!(s.view_mode, 0);
}

#[test]
fn settings_keep_what_is_set() {
    let mut s = settings();
    s.set(Toggle::Taa, true);
    s.turn(Knob::Foam, 0.4_f32.to_bits() as u64);
    s.turn(Knob::SeaLevel, (-35.0_f64).to_bits());
    assert!(s.is_on(Toggle::Taa) && !s.is_on(Toggle::Wireframe));
    assert_eq!(f32::from_bits(s.get(Knob::Foam) as u32), 0.4);
    assert_eq!(f64::from_bits(s.get(Knob::SeaLevel)), -35.0);
    assert_eq!(s.get(Knob::Choppiness), 0);
}

#[test]
fn numbers_hang_on_their_switches() {
    let mut s = settings();
    assert!(enabled(Item::Knob(Knob::SeaLevel), &s, ALL));
    s.set(Toggle::Ocean, false);
    assert!(!enabled(Item::Knob(Knob::SeaLevel), &s, ALL));
    assert!(enabled(Item::Knob(Knob::Foam), &s, ALL));
    assert!(enabled(Item::Knob(Knob::TimeScale), &s, NONE));
    assert!(!enabled(Item::Knob(Knob::Threshold), &s, NONE));
    assert!(!enabled(Item::Knob(Knob::TreeDensity), &s, NONE));
    assert!(!enabled(Item::Toggle(Toggle::Trees), &s, NONE));
    assert!(!enabled(Item::View(3), &s, NONE));
    assert!(enabled(Item::View(3), &s, ALL));
    s.set(Toggle::Nanite, false);
    assert!(!enabled(Item::View(5), &s, ALL));
    assert!(enabled(Item::View(6), &s, ALL));
    assert!(!enabled(Item::View(14), &s, ALL));
}

#[test]
fn events_change_what_they_name() {
    let mut out = UiOutput::new(&settings());
    out.apply(UiEvent::Switch(Toggle::Ocean, false), ALL, Place::Globe, false);
    assert!(!out.settings.ocean_enabled);
    out.apply(UiEvent::Turn(Knob::SeaLevel, 9), ALL, Place::Globe, false);
    assert_eq!(out.settings.get(Knob::SeaLevel), 0);
    out.apply(UiEvent::Turn(Knob::Foam, 9), ALL, Place::Globe, false);
    assert_eq!(out.settings.get(Knob::Foam), 9);
    out.apply(UiEvent::Pick(4), NONE, Place::Globe, false);
    assert_eq!(out.settings.view_mode, 0);
    out.apply(UiEvent::Pick(13), NONE, Place::Globe, false);
    assert_eq!(out.settings.view_mode, 13);
}

#[test]
fn buttons_work_where_they_stand() {
    let mut out = UiOutput::new(&settings());
    out.apply(UiEvent::Press(Button::ExitToOrbit), ALL, Place::Globe, false);
    out.apply(UiEvent::Press(Button::Dismiss), ALL, Place::Globe, false);
    assert!(!out.exit_surface && !out.dismiss_load_stats && !out.cycle_nav);
    out.apply(UiEvent::Press(Button::ExitToOrbit), ALL, Place::Surface, false);
    out.apply(UiEvent::Press(Button::Dismiss), ALL, Place::Surface, true);
    out.apply(UiEvent::Press(Button::CycleMode), ALL, Place::Surface, true);
    assert!(out.exit_surface && out.dismiss_load_stats && out.cycle_nav);
}
