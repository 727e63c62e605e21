//! The debug panel: what stands on it, what can be used, and what a use does.
use vstd::prelude::*;

use crate::shell::place::Place;
use crate::shell::settings::{settings_read_back, Knob, Settings, Toggle, LAST_VIEW};

verus! {

/// A heading of the panel, under which items fold away.
#[derive(Clone, Copy, Debug, PartialEq, Eq, Structural)]
pub enum Section {
    Navigation,
    Performance,
    Time,
    View,
    Ocean,
    Wind,
    Atmosphere,
    Clouds,
    Reference,
    Trees,
    Nanite,
    PlanetLod,
    Stress,
    KeyHints,
}

impl Section {
    /// What the heading says.
    pub open spec fn name(self) -> Seq<char> {
        match self {
            Section::Navigation => "Navigation"@,
            Section::Performance => "Performance"@,
            Section::Time => "Time"@,
            Section::View => "View"@,
            Section::Ocean => "Ocean"@,
            Section::Wind => "Wind"@,
            Section::Atmosphere => "Atmosphere"@,
            Section::Clouds => "Clouds"@,
            Section::Reference => "Reference"@,
            Section::Trees => "Trees"@,
            Section::Nanite => "Nanite"@,
            Section::PlanetLod => "Planet LOD"@,
            Section::Stress => "Stress"@,
            Section::KeyHints => "Key hints"@,
        }
    }

    /// What the heading says.
    pub fn title(self) -> (t: &'static str)
        ensures
            t@ == self.name(),
    {
        match self {
            Section::Navigation => "Navigation",
            Section::Performance => "Performance",
            Section::Time => "Time",
            Section::View => "View",
            Section::Ocean => "Ocean",
            Section::Wind => "Wind",
            Section::Atmosphere => "Atmosphere",
            Section::Clouds => "Clouds",
            Section::Reference => "Reference",
            Section::Trees => "Trees",
            Section::Nanite => "Nanite",
            Section::PlanetLod => "Planet LOD",
            Section::Stress => "Stress",
            Section::KeyHints => "Key hints",
        }
    }

    /// Unfolded at first.
    pub fn open_at_first(self) -> (b: bool)
        ensures
            b == !(self is Time || self is Reference || self is KeyHints),
    {
        !matches!(self, Section::Time | Section::Reference | Section::KeyHints)
    }
}

/// A button.
#[derive(Clone, Copy, Debug, PartialEq, Eq, Structural)]
pub enum Button {
    CycleMode,
    ExitToOrbit,
    /// On the notice that the load is complete.
    Dismiss,
}

impl Button {
    /// What is written on it.
    pub open spec fn name(self) -> Seq<char> {
        match self {
            Button::CycleMode => "Cycle mode"@,
            Button::ExitToOrbit => "Exit to orbit"@,
            Button::Dismiss => "OK"@,
        }
    }

    /// What is written on it.
    pub fn label(self) -> (t: &'static str)
        ensures
            t@ == self.name(),
    {
        match self {
            Button::CycleMode => "Cycle mode",
            Button::ExitToOrbit => "Exit to orbit",
            Button::Dismiss => "OK",
        }
    }
}

/// A part that the program may have been built without.
#[derive(Clone, Copy, Debug, PartialEq, Eq, Structural)]
pub enum Feature {
    Flora,
    Nanite,
}

/// One thing on the panel.
#[derive(Clone, Copy, Debug, PartialEq, Eq, Structural)]
pub enum Item {
    Section(Section),
    Toggle(Toggle),
    Knob(Knob),
    /// The choice of a view mode.
    View(u32),
    Button(Button),
    /// A line across.
    Rule,
    /// Where the viewer is.
    Place,
    Altitude,
    FrameRate,
    ResidentChunks,
    BuildQueue,
    Levels,
    StressReport,
    /// The word that a part is missing.
    Missing(Feature),
    /// A line of help.
    Hint(u32),
}

/// The parts that the program was built with.
#[derive(Clone, Copy, Debug, PartialEq, Eq, Structural)]
pub struct Available {
    pub flora: bool,
    pub nanite: bool,
}

/// What a view mode is called.
pub open spec fn view_name(view: u32) -> Seq<char> {
    if view == 0 {
        "Lit"@
    } else if view == 1 {
        "Unlit"@
    } else if view == 2 {
        "Normal"@
    } else if view == 3 {
        "Triangle"@
    } else if view == 4 {
        "Cluster"@
    } else if view == 5 {
        "LOD"@
    } else if view == 6 {
        "Plate"@
    } else if view == 7 {
        "Height"@
    } else if view == 8 {
        "Material"@
    } else if view == 9 {
        "Wetness"@
    } else if view == 10 {
        "Volcano"@
    } else if view == 11 {
        "Surface"@
    } else if view == 12 {
        "Intensity"@
    } else {
        "Density"@
    }
}

/// What a view mode is called.
pub fn view_label(view: u32) -> (t: &'static str)
    requires
        view <= LAST_VIEW,
    ensures
        t@ == view_name(view),
{
    match view {
        0 => "Lit",
        1 => "Unlit",
        2 => "Normal",
        3 => "Triangle",
        4 => "Cluster",
        5 => "LOD",
        6 => "Plate",
        7 => "Height",
        8 => "Material",
        9 => "Wetness",
        10 => "Volcano",
        11 => "Surface",
        12 => "Intensity",
        _ => "Density",
    }
}

/// A line of help on the keys.
pub open spec fn hint_text(n: u32) -> Seq<char> {
    if n == 0 {
        "[M] cycle material"@
    } else if n == 1 {
        "[W] toggle wireframe"@
    } else if n == 2 {
        "[Tab] cycle nav mode"@
    } else if n == 3 {
        "[V] 1st/3rd-person (surface)"@
    } else {
        "[Esc] exit to orbit"@
    }
}

/// A line of help on the keys.
pub fn hint(n: u32) -> (t: &'static str)
    requires
        n < 5,
    ensures
        t@ == hint_text(n),
{
    match n {
        0 => "[M] cycle material",
        1 => "[W] toggle wireframe",
        2 => "[Tab] cycle nav mode",
        3 => "[V] 1st/3rd-person (surface)",
        _ => "[Esc] exit to orbit",
    }
}

/// The item, where the condition holds.
pub open spec fn only_if(cond: bool, items: Seq<Item>) -> Seq<Item> {
    if cond {
        items
    } else {
        Seq::empty()
    }
}

/// The head of the panel: where the viewer is, and how to go elsewhere.
pub open spec fn navigation_items(place: Place) -> Seq<Item> {
    seq![
        Item::Section(Section::Navigation),
        Item::Place,
        Item::Altitude,
        Item::Button(Button::CycleMode),
    ] + only_if(place is Surface, seq![Item::Button(Button::ExitToOrbit)])
}

/// Speed, view, sea, wind and air.
pub open spec fn scene_items() -> Seq<Item> {
    seq![
        Item::Section(Section::Performance),
        Item::FrameRate,
        Item::Section(Section::Time),
        Item::Toggle(Toggle::Paused),
        Item::Knob(Knob::TimeScale),
        Item::Section(Section::View),
        Item::View(0),
        Item::View(1),
        Item::View(2),
        Item::View(3),
        Item::View(4),
        Item::View(5),
        Item::View(6),
        Item::View(7),
        Item::View(8),
        Item::View(9),
        Item::View(10),
        Item::View(11),
        Item::View(12),
        Item::View(13),
        Item::Toggle(Toggle::Wireframe),
        Item::Toggle(Toggle::Taa),
        Item::Section(Section::Ocean),
        Item::Toggle(Toggle::Ocean),
        Item::Knob(Knob::SeaLevel),
        Item::Rule,
        Item::Toggle(Toggle::Waves),
        Item::Knob(Knob::Choppiness),
        Item::Knob(Knob::Foam),
        Item::Section(Section::Wind),
        Item::Toggle(Toggle::Wind),
        Item::Knob(Knob::WindSpeed),
        Item::Knob(Knob::WindWidth),
        Item::Knob(Knob::WindAltitude),
        Item::Knob(Knob::WindGust),
        Item::Knob(Knob::WindIntensity),
        Item::Section(Section::Atmosphere),
        Item::Toggle(Toggle::Atmosphere),
        Item::Knob(Knob::AtmoHeight),
        Item::Knob(Knob::AtmoDensity),
    ]
}

/// Clouds, reference marks and trees.
pub open spec fn detail_items(available: Available) -> Seq<Item> {
    seq![
        Item::Section(Section::Clouds),
        Item::Toggle(Toggle::Clouds),
        Item::Knob(Knob::CloudCoverage),
        Item::Knob(Knob::CloudDensity),
        Item::Knob(Knob::CloudBase),
        Item::Knob(Knob::CloudThickness),
        Item::Knob(Knob::CloudWind),
        Item::Knob(Knob::CloudScale),
        Item::Knob(Knob::CloudType),
        Item::Knob(Knob::CloudMoisture),
        Item::Knob(Knob::CloudScatter),
        Item::Knob(Knob::CloudPowder),
        Item::Knob(Knob::CloudCurl),
        Item::Knob(Knob::CloudSteps),
        Item::Section(Section::Reference),
        Item::Toggle(Toggle::Equator),
        Item::Toggle(Toggle::Poles),
        Item::Toggle(Toggle::Rivers),
        Item::Section(Section::Trees),
        Item::Toggle(Toggle::Trees),
        Item::Knob(Knob::TreeDensity),
    ] + only_if(!available.flora, seq![Item::Missing(Feature::Flora)])
}

/// Clusters.
pub open spec fn nanite_items(available: Available) -> Seq<Item> {
    seq![
        Item::Section(Section::Nanite),
        Item::Toggle(Toggle::Nanite),
        Item::Knob(Knob::Threshold),
    ] + only_if(!available.nanite, seq![Item::Missing(Feature::Nanite)])
}

/// The readouts, where there is something to read, and the help on keys.
pub open spec fn report_items(planet: bool, stress: bool) -> Seq<Item> {
    only_if(
        planet,
        seq![
            Item::Section(Section::PlanetLod),
            Item::ResidentChunks,
            Item::BuildQueue,
            Item::Levels,
        ],
    ) + only_if(stress, seq![
        Item::Section(Section::Stress),
        Item::StressReport,
    ]) + seq![
        Item::Section(Section::KeyHints),
        Item::Hint(0),
        Item::Hint(1),
        Item::Hint(2),
        Item::Hint(3),
        Item::Hint(4),
    ]
}

/// All that stands on the panel, from top to bottom.
pub open spec fn panel_items(place: Place, available: Available, planet: bool, stress: bool) -> Seq<
    Item,
> {
    navigation_items(place) + scene_items() + detail_items(available) + nanite_items(available)
        + report_items(planet, stress)
}

fn push_navigation(items: &mut Vec<Item>, place: Place)
    ensures
        final(items)@ == old(items)@ + navigation_items(place),
{
    items.push(Item::Section(Section::Navigation));
    items.push(Item::Place);
    items.push(Item::Altitude);
    items.push(Item::Button(Button::CycleMode));
    if matches!(place, Place::Surface) {
        items.push(Item::Button(Button::ExitToOrbit));
    }
}

fn push_scene(items: &mut Vec<Item>)
    ensures
        final(items)@ == old(items)@ + scene_items(),
{
    items.push(Item::Section(Section::Performance));
    items.push(Item::FrameRate);
    items.push(Item::Section(Section::Time));
    items.push(Item::Toggle(Toggle::Paused));
    items.push(Item::Knob(Knob::TimeScale));
    items.push(Item::Section(Section::View));
    items.push(Item::View(0));
    items.push(Item::View(1));
    items.push(Item::View(2));
    items.push(Item::View(3));
    items.push(Item::View(4));
    items.push(Item::View(5));
    items.push(Item::View(6));
    items.push(Item::View(7));
    items.push(Item::View(8));
    items.push(Item::View(9));
    items.push(Item::View(10));
    items.push(Item::View(11));
    items.push(Item::View(12));
    items.push(Item::View(13));
    items.push(Item::Toggle(Toggle::Wireframe));
    items.push(Item::Toggle(Toggle::Taa));
    items.push(Item::Section(Section::Ocean));
    items.push(Item::Toggle(Toggle::Ocean));
    items.push(Item::Knob(Knob::SeaLevel));
    items.push(Item::Rule);
    items.push(Item::Toggle(Toggle::Waves));
    items.push(Item::Knob(Knob::Choppiness));
    items.push(Item::Knob(Knob::Foam));
    items.push(Item::Section(Section::Wind));
    items.push(Item::Toggle(Toggle::Wind));
    items.push(Item::Knob(Knob::WindSpeed));
    items.push(Item::Knob(Knob::WindWidth));
    items.push(Item::Knob(Knob::WindAltitude));
    items.push(Item::Knob(Knob::WindGust));
    items.push(Item::Knob(Knob::WindIntensity));
    items.push(Item::Section(Section::Atmosphere));
    items.push(Item::Toggle(Toggle::Atmosphere));
    items.push(Item::Knob(Knob::AtmoHeight));
    items.push(Item::Knob(Knob::AtmoDensity));
}

fn push_detail(items: &mut Vec<Item>, available: Available)
    ensures
        final(items)@ == old(items)@ + detail_items(available),
{
    items.push(Item::Section(Section::Clouds));
    items.push(Item::Toggle(Toggle::Clouds));
    items.push(Item::Knob(Knob::CloudCoverage));
    items.push(Item::Knob(Knob::CloudDensity));
    items.push(Item::Knob(Knob::CloudBase));
    items.push(Item::Knob(Knob::CloudThickness));
    items.push(Item::Knob(Knob::CloudWind));
    items.push(Item::Knob(Knob::CloudScale));
    items.push(Item::Knob(Knob::CloudType));
    items.push(Item::Knob(Knob::CloudMoisture));
    items.push(Item::Knob(Knob::CloudScatter));
    items.push(Item::Knob(Knob::CloudPowder));
    items.push(Item::Knob(Knob::CloudCurl));
    items.push(Item::Knob(Knob::CloudSteps));
    items.push(Item::Section(Section::Reference));
    items.push(Item::Toggle(Toggle::Equator));
    items.push(Item::Toggle(Toggle::Poles));
    items.push(Item::Toggle(Toggle::Rivers));
    items.push(Item::Section(Section::Trees));
    items.push(Item::Toggle(Toggle::Trees));
    items.push(Item::Knob(Knob::TreeDensity));
    if !available.flora {
        items.push(Item::Missing(Feature::Flora));
    }
}

fn push_nanite(items: &mut Vec<Item>, available: Available)
    ensures
        final(items)@ == old(items)@ + nanite_items(available),
{
    items.push(Item::Section(Section::Nanite));
    items.push(Item::Toggle(Toggle::Nanite));
    items.push(Item::Knob(Knob::Threshold));
    if !available.nanite {
        items.push(Item::Missing(Feature::Nanite));
    }
}

fn push_report(items: &mut Vec<Item>, planet: bool, stress: bool)
    ensures
        final(items)@ == old(items)@ + report_items(planet, stress),
{
    if planet {
        items.push(Item::Section(Section::PlanetLod));
        items.push(Item::ResidentChunks);
        items.push(Item::BuildQueue);
        items.push(Item::Levels);
    }
    if stress {
        items.push(Item::Section(Section::Stress));
        items.push(Item::StressReport);
    }
    items.push(Item::Section(Section::KeyHints));
    items.push(Item::Hint(0));
    items.push(Item::Hint(1));
    items.push(Item::Hint(2));
    items.push(Item::Hint(3));
    items.push(Item::Hint(4));
}

/// All that stands on the panel, from top to bottom.
pub fn panel(place: Place, available: Available, planet: bool, stress: bool) -> (items: Vec<Item>)
    ensures
        items@ == panel_items(place, available, planet, stress),
{
    let mut items: Vec<Item> = Vec::new();
    push_navigation(&mut items, place);
    push_scene(&mut items);
    push_detail(&mut items, available);
    push_nanite(&mut items, available);
    push_report(&mut items, planet, stress);
    assert(items@ =~= panel_items(place, available, planet, stress));
    items
}

/// The switch that a number hangs on, where it hangs on one.
pub open spec fn switch_of(k: Knob) -> Option<Toggle> {
    match k {
        Knob::SeaLevel => Some(Toggle::Ocean),
        Knob::Choppiness | Knob::Foam => Some(Toggle::Waves),
        Knob::WindSpeed
        | Knob::WindWidth
        | Knob::WindAltitude
        | Knob::WindGust
        | Knob::WindIntensity => Some(Toggle::Wind),
        Knob::AtmoHeight | Knob::AtmoDensity => Some(Toggle::Atmosphere),
        Knob::TreeDensity => Some(Toggle::Trees),
        Knob::TimeScale | Knob::Threshold => None,
        _ => Some(Toggle::Clouds),
    }
}

fn switch(k: Knob) -> (t: Option<Toggle>)
    ensures
        t == switch_of(k),
{
    match k {
        Knob::SeaLevel => Some(Toggle::Ocean),
        Knob::Choppiness | Knob::Foam => Some(Toggle::Waves),
        Knob::WindSpeed
        | Knob::WindWidth
        | Knob::WindAltitude
        | Knob::WindGust
        | Knob::WindIntensity => Some(Toggle::Wind),
        Knob::AtmoHeight | Knob::AtmoDensity => Some(Toggle::Atmosphere),
        Knob::TreeDensity => Some(Toggle::Trees),
        Knob::TimeScale | Knob::Threshold => None,
        _ => Some(Toggle::Clouds),
    }
}

/// The view shows clusters, and needs them.
pub open spec fn cluster_view(view: u32) -> bool {
    3 <= view <= 5
}

/// The item can be used, as things are set.
pub open spec fn usable(item: Item, s: Settings, available: Available) -> bool {
    match item {
        Item::Toggle(t) => match t {
            Toggle::Trees => available.flora,
            Toggle::Nanite => available.nanite,
            _ => true,
        },
        Item::Knob(k) => {
            &&& k is TreeDensity ==> available.flora
            &&& k is Threshold ==> available.nanite
            &&& switch_of(k) matches Some(t) ==> s.on(t)
        },
        Item::View(v) => v <= LAST_VIEW && (cluster_view(v) ==> available.nanite
            && s.nanite_enabled),
        _ => true,
    }
}

/// The item can be used, as things are set.
pub fn enabled(item: Item, s: &Settings, available: Available) -> (b: bool)
    ensures
        b == usable(item, *s, available),
{
    match item {
        Item::Toggle(t) => match t {
            Toggle::Trees => available.flora,
            Toggle::Nanite => available.nanite,
            _ => true,
        },
        Item::Knob(k) => {
            let built: bool = match k {
                Knob::TreeDensity => available.flora,
                Knob::Threshold => available.nanite,
                _ => true,
            };
            let switched: bool = match switch(k) {
                Some(t) => s.is_on(t),
                None => true,
            };
            built && switched
        },
        Item::View(v) => v <= LAST_VIEW && (!(3 <= v && v <= 5) || (available.nanite
            && s.nanite_enabled)),
        _ => true,
    }
}

/// What was done on the panel.
#[derive(Clone, Copy, Debug, PartialEq, Eq, Structural)]
pub enum UiEvent {
    Switch(Toggle, bool),
    Turn(Knob, u64),
    Pick(u32),
    Press(Button),
}

impl UiEvent {
    /// The item that it was done on.
    pub open spec fn item(self) -> Item {
        match self {
            UiEvent::Switch(t, _) => Item::Toggle(t),
            UiEvent::Turn(k, _) => Item::Knob(k),
            UiEvent::Pick(v) => Item::View(v),
            UiEvent::Press(b) => Item::Button(b),
        }
    }

    /// The item that it was done on.
    pub fn on(self) -> (i: Item)
        ensures
            i == self.item(),
    {
        match self {
            UiEvent::Switch(t, _) => Item::Toggle(t),
            UiEvent::Turn(k, _) => Item::Knob(k),
            UiEvent::Pick(v) => Item::View(v),
            UiEvent::Press(b) => Item::Button(b),
        }
    }
}

/// What one frame of the panel gives: the settings as they now are, and what was asked for
/// once.
#[derive(Clone, Copy, Debug)]
pub struct UiOutput {
    pub settings: Settings,
    /// Go on to the next navigation mode.
    pub cycle_nav: bool,
    /// Leave the ground.
    pub exit_surface: bool,
    /// Put the notice away.
    pub dismiss_load_stats: bool,
}

impl UiOutput {
    /// The settings as they are, and nothing asked for.
    pub fn new(settings: &Settings) -> (out: UiOutput)
        ensures
            out == (UiOutput {
                settings: *settings,
                cycle_nav: false,
                exit_surface: false,
                dismiss_load_stats: false,
            }),
    {
        UiOutput {
            settings: *settings,
            cycle_nav: false,
            exit_surface: false,
            dismiss_load_stats: false,
        }
    }

    /// Takes in what was done. What cannot be used, or is not there, does nothing: only a walker
    /// is offered the way back to orbit, and only a standing notice can be put away.
    pub fn apply(&mut self, event: UiEvent, available: Available, place: Place, notice: bool)
        ensures
            !usable(event.item(), old(self).settings, available) ==> *final(self) == *old(self),
            usable(event.item(), old(self).settings, available) ==> match event {
                UiEvent::Switch(t, v) => *final(self) == (UiOutput {
                    settings: old(self).settings.with(t, v),
                    ..*old(self)
                }),
                UiEvent::Turn(k, v) => {
                    &&& final(self).settings.bits(k) == v
                    &&& forall|o: Knob|
                        o != k ==> #[trigger] final(self).settings.bits(o)
                            == old(self).settings.bits(o)
                    &&& *final(self) == (UiOutput {
                        settings: Settings {
                            knobs: final(self).settings.knobs,
                            ..old(self).settings
                        },
                        ..*old(self)
                    })
                },
                UiEvent::Pick(v) => *final(self) == (UiOutput {
                    settings: Settings { view_mode: v, ..old(self).settings },
                    ..*old(self)
                }),
                UiEvent::Press(Button::CycleMode) => *final(self) == (UiOutput {
                    cycle_nav: true,
                    ..*old(self)
                }),
                UiEvent::Press(Button::ExitToOrbit) => *final(self) == (UiOutput {
                    exit_surface: old(self).exit_surface || place is Surface,
                    ..*old(self)
                }),
                UiEvent::Press(Button::Dismiss) => *final(self) == (UiOutput {
                    dismiss_load_stats: old(self).dismiss_load_stats || notice,
                    ..*old(self)
                }),
            },
            old(self).settings.wf() ==> final(self).settings.wf(),
    {
        if !enabled(event.on(), &self.settings, available) {
            return;
        }
        let now: UiOutput = *self;
        match event {
            UiEvent::Switch(t, v) => {
                let mut settings: Settings = now.settings;
                settings.set(t, v);
                proof {
                    settings_read_back(now.settings, t, v, t);
                }
                *self = UiOutput { settings, ..now };
            },
            UiEvent::Turn(k, v) => {
                let mut settings: Settings = now.settings;
                settings.turn(k, v);
                *self = UiOutput { settings, ..now };
            },
            UiEvent::Pick(v) => {
                *self =
                UiOutput { settings: Settings { view_mode: v, ..now.settings }, ..now };
            },
            UiEvent::Press(Button::CycleMode) => {
                *self = UiOutput { cycle_nav: true, ..now };
            },
            UiEvent::Press(Button::ExitToOrbit) => {
                let walking: bool = matches!(place, Place::Surface);
                *self = UiOutput { exit_surface: now.exit_surface || walking, ..now };
            },
            UiEvent::Press(Button::Dismiss) => {
                *self =
                UiOutput { dismiss_load_stats: now.dismiss_load_stats || notice, ..now };
            },
        }
    }
}

/// The panel can neither pick a cluster view without clusters nor move a number whose switch
/// is off.
pub proof fn panel_keeps_off(s: Settings, available: Available, k: Knob, view: u32)
    requires
        !available.nanite || !s.nanite_enabled,
        cluster_view(view),
        switch_of(k) is Some,
        !s.on(switch_of(k)->0),
    ensures
        !usable(Item::View(view), s, available),
        !usable(Item::Knob(k), s, available),
{
}

/// What can be used: switches and buttons always, but for parts that the program lacks; sliders
/// while their switch is on; views that there are, those of clusters where clusters are drawn.
pub proof fn panel_lets_use(s: Settings, available: Available, k: Knob, t: Toggle, view: u32, b: Button)
    ensures
        usable(Item::Button(b), s, available),
        usable(Item::Toggle(t), s, available) <==> !(t is Trees && !available.flora) && !(
        t is Nanite && !available.nanite),
        switch_of(k) is None && k !is Threshold ==> usable(Item::Knob(k), s, available),
        switch_of(k) is Some && k !is TreeDensity ==> (usable(Item::Knob(k), s, available) <==> s.on(
            switch_of(k)->0,
        )),
        usable(Item::Knob(Knob::TreeDensity), s, available) <==> available.flora && s.flora_enabled,
        usable(Item::Knob(Knob::Threshold), s, available) <==> available.nanite,
        view <= 13 && (view < 3 || view > 5) ==> usable(Item::View(view), s, available),
        3 <= view <= 5 ==> (usable(Item::View(view), s, available) <==> available.nanite
            && s.nanite_enabled),
        view > 13 ==> !usable(Item::View(view), s, available),
{
}

/// No two view modes are called alike.
pub proof fn views_have_names_of_their_own(a: u32, b: u32)
    requires
        a < b <= 13,
    ensures
        view_name(a) != view_name(b),
{
    reveal_strlit("Lit");
    reveal_strlit("Unlit");
    reveal_strlit("Normal");
    reveal_strlit("Triangle");
    reveal_strlit("Cluster");
    reveal_strlit("LOD");
    reveal_strlit("Plate");
    reveal_strlit("Height");
    reveal_strlit("Material");
    reveal_strlit("Wetness");
    reveal_strlit("Volcano");
    reveal_strlit("Surface");
    reveal_strlit("Intensity");
    reveal_strlit("Density");
    assert(view_name(a)[0] != view_name(b)[0] || view_name(a)[1] != view_name(b)[1]);
}

} // verus!
