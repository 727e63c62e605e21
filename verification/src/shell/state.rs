//! What keys, clicks, the panel and the clock do to the program.
use vstd::prelude::*;

use crate::controls::camera::Camera;
use crate::controls::first_person::MoveInput;
use crate::controls::nav_mode::{Nav, NavMode, NavState};
use crate::shell::begin::{after_begin, Begun};
use crate::shell::launch::RunMode;
use crate::shell::panel::{cluster_view, UiOutput};
use crate::shell::place::Place;
use crate::shell::settings::Settings;

verus! {

/// The last view mode that the key reaches; those of sea and clouds are on the panel only.
pub const LAST_KEYED: u32 = 10;

/// What mouse and keys are at. Positions stand as the bit patterns of their coordinates.
#[derive(Clone, Copy, Debug, PartialEq, Eq)]
pub struct Input {
    /// The left button is down.
    pub held: bool,
    /// The left button went down since the last frame.
    pub clicked: bool,
    /// The press began on the scene, and goes on.
    pub dragging: bool,
    /// Where the cursor was last, since the press.
    pub cursor: Option<(u64, u64)>,
    pub keys: MoveInput,
}

/// A key that does something.
#[derive(Clone, Copy, Debug, PartialEq, Eq, Structural)]
pub enum Key {
    Tab,
    Escape,
    V,
    F,
    M,
    W,
    A,
    S,
    D,
    Shift,
    Other,
}

/// What became of the wish to be elsewhere.
#[derive(Clone, Copy, Debug, PartialEq, Eq)]
pub enum NavChange {
    Nothing,
    /// A point to land on is being chosen.
    Placing,
    /// The choice was called off.
    PlacingCancelled,
    /// Back in orbit. The walker goes, the orbit camera comes back, and the cursor is free.
    LeftSurface(Option<Camera>),
    /// In free flight. The cursor is caught.
    EnteredSpace,
    /// Back in orbit. The flight camera goes, and the cursor is free.
    LeftSpace,
    /// On the ground. The cursor is caught.
    Landed,
    /// The click missed the planet.
    Missed,
    /// There is no ground yet to land on.
    NoTerrain,
}

/// What a key did.
#[derive(Clone, Copy, Debug, PartialEq, Eq)]
pub enum KeyChange {
    Nothing,
    Went(NavChange),
    /// The walker's camera goes from its eyes to behind its back, or the other way.
    TurnView,
    View(u32),
    Lines(bool),
    Keys(MoveInput),
}

/// How a frame moves the viewer.
#[derive(Clone, Copy, Debug, PartialEq, Eq, Structural)]
pub enum Steering {
    /// In orbit: whether the mouse turns the globe, and whether a click picks a point.
    Orbit { drag: bool, pick: bool },
    Walk,
    Fly,
}

/// What the loader says.
#[derive(Clone, Copy, Debug, PartialEq, Eq, Structural)]
pub enum Load {
    /// Still at work.
    Pending,
    /// Done, with or without clusters to draw.
    Finished { clusters: bool },
}

/// How a frame begins.
#[derive(Clone, Copy, Debug, PartialEq, Eq, Structural)]
pub enum FrameStart {
    /// There is nothing to draw on.
    Skip,
    /// The loader is still at work.
    LoadingScreen,
    /// The frame is drawn. The camera is steered, or follows its script.
    Draw { steered: bool },
}

/// A happening at the window.
#[derive(Clone, Copy, Debug, PartialEq, Eq, Structural)]
pub enum WindowEvent {
    Close,
    Resized { width: u32, height: u32 },
    Redraw,
    Other,
}

/// What follows from a happening at the window.
#[derive(Clone, Copy, Debug, PartialEq, Eq, Structural)]
pub struct Reaction {
    /// The program ends.
    pub exit: bool,
    /// A new frame is asked for.
    pub redraw: bool,
    /// The happening goes on to navigation.
    pub navigate: bool,
    /// A frame is drawn.
    pub render: bool,
}

/// The state of a [`Shell`] as mathematics.
pub ghost struct ShellState {
    pub mode: RunMode,
    pub nav: Nav,
    /// In free flight.
    pub flying: bool,
    pub settings: Settings,
    pub input: Input,
    pub minimized: bool,
    /// The frames drawn.
    pub frame: u64,
    pub loading: bool,
    /// The notice that the load is complete stands.
    pub notice: bool,
    /// There are clusters to draw.
    pub clusters: bool,
    /// The frame in which the clusters were last chosen.
    pub chosen_at: u64,
    /// The frames of the scripted flight since the last report.
    pub soak_frames: u64,
}

/// The view mode after this one. The key goes through those of the scene and of the planet, and
/// without clusters passes over the ones that need them.
pub open spec fn view_after(view: u32, clusters: bool) -> u32 {
    if view >= LAST_KEYED {
        0
    } else if 2 <= view <= 4 && !clusters || view == 5 {
        6
    } else {
        (view + 1) as u32
    }
}

impl ShellState {
    /// Free flight begins and ends in orbit, a camera is saved exactly while away from it, and
    /// the view is one of those that there are.
    pub open spec fn wf(self) -> bool {
        &&& self.nav.wf()
        &&& self.flying ==> self.nav.mode is Globe
        &&& self.settings.wf()
    }

    /// Where the viewer is.
    pub open spec fn place(self) -> Place {
        if self.flying {
            Place::Space
        } else {
            match self.nav.mode {
                NavMode::Globe => Place::Globe,
                NavMode::Placement => Place::Placement,
                NavMode::FirstPerson => Place::Surface,
            }
        }
    }

    /// Clusters are drawn, rather than the quadtree.
    pub open spec fn nanite_on(self) -> bool {
        self.settings.nanite_enabled && self.clusters
    }

    /// After the step to the next place: from orbit to the choice of a point, and from
    /// everywhere else back to orbit.
    pub open spec fn cycled(self, orbit: Camera) -> ShellState {
        match self.place() {
            Place::Globe => ShellState { nav: self.nav.placing(orbit), ..self },
            Place::Placement => ShellState { nav: Nav::start(), ..self },
            Place::Surface => ShellState { nav: self.nav.left(), ..self },
            Place::Space => ShellState { flying: false, ..self },
        }
    }

    /// What the step to the next place comes to.
    pub open spec fn cycling(self) -> NavChange {
        match self.place() {
            Place::Globe => NavChange::Placing,
            Place::Placement => NavChange::PlacingCancelled,
            Place::Surface => NavChange::LeftSurface(self.nav.saved),
            Place::Space => NavChange::LeftSpace,
        }
    }

    /// After leaving the ground, if on it.
    pub open spec fn lifted(self) -> ShellState {
        if self.place() is Surface {
            ShellState { nav: self.nav.left(), ..self }
        } else {
            self
        }
    }

    /// What leaving the ground comes to.
    pub open spec fn lifting(self) -> NavChange {
        if self.place() is Surface {
            NavChange::LeftSurface(self.nav.saved)
        } else {
            NavChange::Nothing
        }
    }

    /// After the switch between orbit and free flight.
    pub open spec fn flown(self) -> ShellState {
        match self.place() {
            Place::Globe => ShellState { flying: true, ..self },
            Place::Space => ShellState { flying: false, ..self },
            _ => self,
        }
    }

    /// What the switch between orbit and free flight comes to.
    pub open spec fn flying_to(self) -> NavChange {
        match self.place() {
            Place::Globe => NavChange::EnteredSpace,
            Place::Space => NavChange::LeftSpace,
            _ => NavChange::Nothing,
        }
    }

    /// After the next view mode.
    pub open spec fn viewed(self) -> ShellState {
        ShellState {
            settings: Settings {
                view_mode: view_after(self.settings.view_mode, self.nanite_on()),
                ..self.settings
            },
            ..self
        }
    }

    /// With filled terrain as lines, or the other way.
    pub open spec fn lined(self) -> ShellState {
        ShellState {
            settings: Settings { wireframe: !self.settings.wireframe, ..self.settings },
            ..self
        }
    }

    /// With these movement keys held.
    pub open spec fn holding(self, keys: MoveInput) -> ShellState {
        ShellState { input: Input { keys, ..self.input }, ..self }
    }

    /// In orbit, on the way to the ground or not.
    pub open spec fn orbiting(self) -> bool {
        self.place() is Globe || self.place() is Placement
    }

    /// The movement keys after a key went down or up.
    pub open spec fn keys_after(self, key: Key, pressed: bool) -> MoveInput {
        let k = self.input.keys;
        match key {
            Key::W => MoveInput { forward: pressed, ..k },
            Key::A => MoveInput { left: pressed, ..k },
            Key::S => MoveInput { backward: pressed, ..k },
            Key::D => MoveInput { right: pressed, ..k },
            Key::Shift => MoveInput { sprint: pressed, ..k },
            _ => k,
        }
    }

    /// A movement key, as things stand: in orbit, pressing the first of them means lines.
    pub open spec fn steers(self, key: Key, pressed: bool) -> bool {
        match key {
            Key::W => !(pressed && self.orbiting()),
            Key::A | Key::S | Key::D | Key::Shift => true,
            _ => false,
        }
    }

    /// After a key went down or up.
    pub open spec fn keyed(self, key: Key, pressed: bool, orbit: Camera) -> ShellState {
        if self.steers(key, pressed) {
            self.holding(self.keys_after(key, pressed))
        } else if !pressed {
            self
        } else {
            match key {
                Key::Tab => self.cycled(orbit),
                Key::Escape => self.lifted(),
                Key::F => self.flown(),
                Key::M => self.viewed(),
                Key::W => self.lined(),
                _ => self,
            }
        }
    }

    /// What a key comes to.
    pub open spec fn keying(self, key: Key, pressed: bool) -> KeyChange {
        if self.steers(key, pressed) {
            KeyChange::Keys(self.keys_after(key, pressed))
        } else if !pressed {
            KeyChange::Nothing
        } else {
            match key {
                Key::Tab => KeyChange::Went(self.cycling()),
                Key::Escape => KeyChange::Went(self.lifting()),
                Key::V => if self.place() is Surface {
                    KeyChange::TurnView
                } else {
                    KeyChange::Nothing
                },
                Key::F => KeyChange::Went(self.flying_to()),
                Key::M => KeyChange::View(self.viewed().settings.view_mode),
                Key::W => KeyChange::Lines(!self.settings.wireframe),
                _ => KeyChange::Nothing,
            }
        }
    }

    /// With the settings of the panel. A view that needs clusters falls back to the lit one
    /// where there are none.
    pub open spec fn set_to(self, s: Settings) -> ShellState {
        let view = if cluster_view(s.view_mode) && !(s.nanite_enabled && self.clusters) {
            0
        } else {
            s.view_mode
        };
        ShellState { settings: Settings { view_mode: view, ..s }, ..self }
    }

    /// After a frame of the panel: the settings, then the step to the next place, then leaving
    /// the ground, then the notice.
    pub open spec fn paneled(self, out: UiOutput, orbit: Camera) -> ShellState {
        let set = self.set_to(out.settings);
        let gone = if out.cycle_nav {
            set.cycled(orbit)
        } else {
            set
        };
        let left = if out.exit_surface {
            gone.lifted()
        } else {
            gone
        };
        ShellState { notice: left.notice && !out.dismiss_load_stats, ..left }
    }

    /// The clusters may be chosen anew: at the earliest four frames after the last time.
    pub open spec fn may_choose(self) -> bool {
        (self.frame - self.chosen_at) % 0x1_0000_0000_0000_0000 >= 4
    }
}

/// The program's state between frames.
pub struct Shell {
    mode: RunMode,
    nav: NavState,
    flying: bool,
    settings: Settings,
    input: Input,
    minimized: bool,
    frame: u64,
    loading: bool,
    notice: bool,
    clusters: bool,
    chosen_at: u64,
    soak_frames: u64,
}

impl View for Shell {
    type V = ShellState;

    closed spec fn view(&self) -> ShellState {
        ShellState {
            mode: self.mode,
            nav: self.nav@,
            flying: self.flying,
            settings: self.settings,
            input: self.input,
            minimized: self.minimized,
            frame: self.frame,
            loading: self.loading,
            notice: self.notice,
            clusters: self.clusters,
            chosen_at: self.chosen_at,
            soak_frames: self.soak_frames,
        }
    }
}

impl Shell {
    /// In orbit, with no key down. The planet is loaded in the background.
    pub fn new(mode: RunMode, settings: Settings) -> (s: Self)
        requires
            settings.wf(),
        ensures
            s@.wf(),
            s@ == (ShellState {
                mode,
                nav: Nav::start(),
                flying: false,
                settings,
                input: Input {
                    held: false,
                    clicked: false,
                    dragging: false,
                    cursor: None,
                    keys: MoveInput {
                        forward: false,
                        backward: false,
                        left: false,
                        right: false,
                        sprint: false,
                    },
                },
                minimized: false,
                frame: 0,
                loading: mode is Planet || mode is SoakTerrain,
                notice: false,
                clusters: false,
                chosen_at: 0,
                soak_frames: 0,
            }),
    {
        Shell {
            mode,
            nav: NavState::new(),
            flying: false,
            settings,
            input: Input {
                held: false,
                clicked: false,
                dragging: false,
                cursor: None,
                keys: MoveInput::default(),
            },
            minimized: false,
            frame: 0,
            loading: matches!(mode, RunMode::Planet | RunMode::SoakTerrain),
            notice: false,
            clusters: false,
            chosen_at: 0,
            soak_frames: 0,
        }
    }

    /// What the program runs.
    pub fn mode(&self) -> (m: RunMode)
        ensures
            m == self@.mode,
    {
        self.mode
    }

    /// Where the viewer is.
    pub fn place(&self) -> (p: Place)
        ensures
            p == self@.place(),
    {
        if self.flying {
            Place::Space
        } else {
            match self.nav.mode() {
                NavMode::Globe => Place::Globe,
                NavMode::Placement => Place::Placement,
                NavMode::FirstPerson => Place::Surface,
            }
        }
    }

    /// The settings.
    pub fn settings(&self) -> (s: Settings)
        ensures
            s == self@.settings,
    {
        self.settings
    }

    /// Mouse and keys.
    pub fn input(&self) -> (i: Input)
        ensures
            i == self@.input,
    {
        self.input
    }

    /// The frames drawn.
    pub fn frame(&self) -> (n: u64)
        ensures
            n == self@.frame,
    {
        self.frame
    }

    /// There is nothing to draw on: the frame is left before anything is done for it.
    pub fn minimized(&self) -> (b: bool)
        ensures
            b == self@.minimized,
    {
        self.minimized
    }

    /// The notice that the load is complete stands.
    pub fn notice(&self) -> (b: bool)
        ensures
            b == self@.notice,
    {
        self.notice
    }

    /// Clusters are drawn, rather than the quadtree.
    pub fn nanite_on(&self) -> (b: bool)
        ensures
            b == self@.nanite_on(),
    {
        self.settings.nanite_enabled && self.clusters
    }

    /// The view mode of the terrain: the views of sea and clouds leave it lit.
    pub fn terrain_view(&self) -> (v: u32)
        ensures
            v == (if self@.settings.view_mode >= 11 {
                0
            } else {
                self@.settings.view_mode
            }),
    {
        if self.settings.view_mode >= 11 {
            0
        } else {
            self.settings.view_mode
        }
    }

    /// Goes on to the next place. `orbit` is the orbit camera.
    pub fn cycle_nav_mode(&mut self, orbit: &Camera) -> (c: NavChange)
        requires
            old(self)@.wf(),
        ensures
            final(self)@.wf(),
            final(self)@ == old(self)@.cycled(*orbit),
            c == old(self)@.cycling(),
    {
        match self.place() {
            Place::Globe => {
                self.nav.begin_placement(orbit);
                NavChange::Placing
            },
            Place::Placement => {
                self.nav = NavState::new();
                NavChange::PlacingCancelled
            },
            Place::Surface => NavChange::LeftSurface(self.nav.exit_first_person()),
            Place::Space => {
                self.flying = false;
                NavChange::LeftSpace
            },
        }
    }

    /// Leaves the ground, if on it.
    pub fn exit_surface(&mut self) -> (c: NavChange)
        requires
            old(self)@.wf(),
        ensures
            final(self)@.wf(),
            final(self)@ == old(self)@.lifted(),
            c == old(self)@.lifting(),
    {
        match self.place() {
            Place::Surface => NavChange::LeftSurface(self.nav.exit_first_person()),
            _ => NavChange::Nothing,
        }
    }

    /// Goes from orbit into free flight, or back.
    pub fn toggle_flight(&mut self) -> (c: NavChange)
        requires
            old(self)@.wf(),
        ensures
            final(self)@.wf(),
            final(self)@ == old(self)@.flown(),
            c == old(self)@.flying_to(),
    {
        match self.place() {
            Place::Globe => {
                self.flying = true;
                NavChange::EnteredSpace
            },
            Place::Space => {
                self.flying = false;
                NavChange::LeftSpace
            },
            _ => NavChange::Nothing,
        }
    }

    fn next_view(&mut self) -> (v: u32)
        requires
            old(self)@.wf(),
        ensures
            final(self)@.wf(),
            final(self)@ == old(self)@.viewed(),
            v == final(self)@.settings.view_mode,
    {
        let clusters: bool = self.nanite_on();
        let mut view: u32 = if self.settings.view_mode >= LAST_KEYED {
            0
        } else {
            self.settings.view_mode + 1
        };
        if !clusters && 3 <= view && view <= 5 {
            view = 6;
        }
        self.settings = Settings { view_mode: view, ..self.settings };
        view
    }

    fn toggle_lines(&mut self) -> (lines: bool)
        ensures
            final(self)@ == old(self)@.lined(),
            final(self)@.wf() == old(self)@.wf(),
            lines == !old(self)@.settings.wireframe,
    {
        let lines: bool = !self.settings.wireframe;
        self.settings = Settings { wireframe: lines, ..self.settings };
        lines
    }

    fn hold(&mut self, key: Key, pressed: bool) -> (keys: MoveInput)
        ensures
            final(self)@ == old(self)@.holding(old(self)@.keys_after(key, pressed)),
            final(self)@.wf() == old(self)@.wf(),
            keys == old(self)@.keys_after(key, pressed),
    {
        let k: MoveInput = self.input.keys;
        let keys: MoveInput = match key {
            Key::W => MoveInput { forward: pressed, ..k },
            Key::A => MoveInput { left: pressed, ..k },
            Key::S => MoveInput { backward: pressed, ..k },
            Key::D => MoveInput { right: pressed, ..k },
            Key::Shift => MoveInput { sprint: pressed, ..k },
            _ => k,
        };
        self.input = Input { keys, ..self.input };
        keys
    }

    /// A key went down or up. Repeats of a key that is held do nothing.
    pub fn on_key(&mut self, key: Key, pressed: bool, repeat: bool, orbit: &Camera) -> (c: KeyChange)
        requires
            old(self)@.wf(),
        ensures
            final(self)@.wf(),
            repeat ==> final(self)@ == old(self)@ && c == KeyChange::Nothing,
            !repeat ==> final(self)@ == old(self)@.keyed(key, pressed, *orbit),
            !repeat ==> c == old(self)@.keying(key, pressed),
    {
        if repeat {
            return KeyChange::Nothing;
        }
        let orbiting: bool = matches!(self.place(), Place::Globe | Place::Placement);
        let steers: bool = match key {
            Key::W => !(pressed && orbiting),
            Key::A | Key::S | Key::D | Key::Shift => true,
            _ => false,
        };
        if steers {
            return KeyChange::Keys(self.hold(key, pressed));
        }
        if !pressed {
            return KeyChange::Nothing;
        }
        match key {
            Key::Tab => KeyChange::Went(self.cycle_nav_mode(orbit)),
            Key::Escape => KeyChange::Went(self.exit_surface()),
            Key::V => if matches!(self.place(), Place::Surface) {
                KeyChange::TurnView
            } else {
                KeyChange::Nothing
            },
            Key::F => KeyChange::Went(self.toggle_flight()),
            Key::M => KeyChange::View(self.next_view()),
            Key::W => KeyChange::Lines(self.toggle_lines()),
            _ => KeyChange::Nothing,
        }
    }

    /// The left button went down or up. A press is one click, and begins a drag; the drag ends
    /// with the release.
    pub fn on_button(&mut self, pressed: bool)
        ensures
            final(self)@ == (ShellState {
                input: if pressed && !old(self)@.input.held {
                    Input {
                        held: true,
                        clicked: true,
                        dragging: true,
                        cursor: None,
                        ..old(self)@.input
                    }
                } else {
                    Input {
                        held: pressed,
                        dragging: old(self)@.input.dragging && pressed,
                        ..old(self)@.input
                    }
                },
                ..old(self)@
            }),
    {
        let i: Input = self.input;
        self.input =
        if pressed && !i.held {
            Input { held: true, clicked: true, dragging: true, cursor: None, ..i }
        } else {
            Input { held: pressed, dragging: i.dragging && pressed, ..i }
        };
    }

    /// The cursor moved. Where it drags the scene, the place it came from is given: the first
    /// move after the press only finds out where it is.
    pub fn on_cursor(&mut self, x: u64, y: u64) -> (from: Option<(u64, u64)>)
        ensures
            final(self)@ == (ShellState {
                input: Input { cursor: Some((x, y)), ..old(self)@.input },
                ..old(self)@
            }),
            from == (if old(self)@.input.dragging {
                old(self)@.input.cursor
            } else {
                None
            }),
    {
        let i: Input = self.input;
        self.input = Input { cursor: Some((x, y)), ..i };
        if i.dragging {
            i.cursor
        } else {
            None
        }
    }

    /// The mouse's own motion counts: on the ground and in flight, where the cursor is caught.
    pub fn motion_counts(&self) -> (b: bool)
        ensures
            b == (self@.place() is Surface || self@.place() is Space),
    {
        matches!(self.place(), Place::Surface | Place::Space)
    }

    /// How this frame moves the viewer. The click is used up.
    pub fn steer(&mut self) -> (s: Steering)
        ensures
            final(self)@ == (ShellState {
                input: Input { clicked: false, ..old(self)@.input },
                ..old(self)@
            }),
            s == (match old(self)@.place() {
                Place::Surface => Steering::Walk,
                Place::Space => Steering::Fly,
                _ => Steering::Orbit {
                    drag: old(self)@.input.dragging,
                    pick: old(self)@.place() is Placement && old(self)@.input.clicked,
                },
            }),
    {
        let i: Input = self.input;
        let s: Steering = match self.place() {
            Place::Globe => Steering::Orbit { drag: i.dragging, pick: false },
            Place::Placement => Steering::Orbit { drag: i.dragging, pick: i.clicked },
            Place::Surface => Steering::Walk,
            Place::Space => Steering::Fly,
        };
        self.input = Input { clicked: false, ..i };
        s
    }

    /// A point was clicked on: it lies on the planet or not, and the ground is there or not.
    pub fn pick(&mut self, hit: bool, terrain: bool) -> (c: NavChange)
        requires
            old(self)@.wf(),
            old(self)@.place() is Placement,
        ensures
            final(self)@.wf(),
            final(self)@ == (if hit && terrain {
                ShellState { nav: old(self)@.nav.landed(), ..old(self)@ }
            } else {
                old(self)@
            }),
            c == (if !hit {
                NavChange::Missed
            } else if !terrain {
                NavChange::NoTerrain
            } else {
                NavChange::Landed
            }),
    {
        if !hit {
            NavChange::Missed
        } else if !terrain {
            NavChange::NoTerrain
        } else {
            self.nav.point_picked();
            NavChange::Landed
        }
    }

    /// Something happened at the window; `consumed` says whether the panel took it. Closing and
    /// resizing are seen to in any case, and end there.
    pub fn on_window(&mut self, event: WindowEvent, consumed: bool) -> (r: Reaction)
        ensures
            final(self)@ == (match event {
                WindowEvent::Resized { width, height } => ShellState {
                    minimized: width == 0 || height == 0,
                    ..old(self)@
                },
                _ => old(self)@,
            }),
            r == (match event {
                WindowEvent::Close => Reaction {
                    exit: true,
                    redraw: false,
                    navigate: false,
                    render: false,
                },
                WindowEvent::Resized { .. } => Reaction {
                    exit: false,
                    redraw: true,
                    navigate: false,
                    render: false,
                },
                WindowEvent::Redraw => Reaction {
                    exit: false,
                    redraw: false,
                    navigate: !consumed,
                    render: true,
                },
                WindowEvent::Other => Reaction {
                    exit: false,
                    redraw: false,
                    navigate: !consumed,
                    render: false,
                },
            }),
    {
        match event {
            WindowEvent::Close => Reaction {
                exit: true,
                redraw: false,
                navigate: false,
                render: false,
            },
            WindowEvent::Resized { width, height } => {
                self.minimized = width == 0 || height == 0;
                Reaction { exit: false, redraw: true, navigate: false, render: false }
            },
            WindowEvent::Redraw => Reaction {
                exit: false,
                redraw: false,
                navigate: !consumed,
                render: true,
            },
            WindowEvent::Other => Reaction {
                exit: false,
                redraw: false,
                navigate: !consumed,
                render: false,
            },
        }
    }

    /// Begins a frame. `load` is what the loader says, while there is one. When it is done its
    /// notice goes up, and the frame is drawn.
    pub fn begin_frame(&mut self, load: Load) -> (f: FrameStart)
        requires
            old(self)@.soak_frames < u64::MAX,
        ensures
            old(self)@.wf() ==> final(self)@.wf(),
            f == (if old(self)@.minimized {
                FrameStart::Skip
            } else if old(self)@.loading && load is Pending {
                FrameStart::LoadingScreen
            } else {
                FrameStart::Draw { steered: old(self)@.mode !is SoakTerrain }
            }),
            final(self)@ == (if f !is Draw {
                old(self)@
            } else {
                ShellState {
                    loading: false,
                    notice: old(self)@.notice || old(self)@.loading,
                    clusters: if old(self)@.loading {
                        load->clusters
                    } else {
                        old(self)@.clusters
                    },
                    soak_frames: if old(self)@.mode is SoakTerrain {
                        (old(self)@.soak_frames + 1) as u64
                    } else {
                        old(self)@.soak_frames
                    },
                    ..old(self)@
                }
            }),
    {
        if self.minimized {
            return FrameStart::Skip;
        }
        if self.loading {
            match load {
                Load::Pending => {
                    return FrameStart::LoadingScreen;
                },
                Load::Finished { clusters } => {
                    self.loading = false;
                    self.notice = true;
                    self.clusters = clusters;
                },
            }
        }
        match self.mode {
            RunMode::SoakTerrain => {
                self.soak_frames = self.soak_frames + 1;
                FrameStart::Draw { steered: false }
            },
            _ => FrameStart::Draw { steered: true },
        }
    }

    fn adopt(&mut self, s: &Settings)
        requires
            old(self)@.wf(),
            s.wf(),
        ensures
            final(self)@.wf(),
            final(self)@ == old(self)@.set_to(*s),
            final(self)@.nav == old(self)@.nav,
            final(self)@.flying == old(self)@.flying,
    {
        let clusters: bool = s.nanite_enabled && self.clusters;
        let view: u32 = if !clusters && 3 <= s.view_mode && s.view_mode <= 5 {
            0
        } else {
            s.view_mode
        };
        self.settings = Settings { view_mode: view, ..*s };
    }

    /// Takes in what the panel gave. First comes what the step to the next place came to, then
    /// what leaving the ground came to.
    pub fn apply_ui(&mut self, out: &UiOutput, orbit: &Camera) -> (c: (NavChange, NavChange))
        requires
            old(self)@.wf(),
            out.settings.wf(),
        ensures
            final(self)@.wf(),
            final(self)@ == old(self)@.paneled(*out, *orbit),
            c.0 == (if out.cycle_nav {
                old(self)@.cycling()
            } else {
                NavChange::Nothing
            }),
            c.1 == (if !out.exit_surface {
                NavChange::Nothing
            } else if out.cycle_nav {
                old(self)@.cycled(*orbit).lifting()
            } else {
                old(self)@.lifting()
            }),
    {
        self.adopt(&out.settings);
        let went: NavChange = if out.cycle_nav {
            self.cycle_nav_mode(orbit)
        } else {
            NavChange::Nothing
        };
        let left: NavChange = if out.exit_surface {
            self.exit_surface()
        } else {
            NavChange::Nothing
        };
        if out.dismiss_load_stats {
            self.notice = false;
        }
        (went, left)
    }

    /// The clusters may be chosen anew.
    pub fn may_choose(&self) -> (b: bool)
        ensures
            b == self@.may_choose(),
    {
        self.frame.wrapping_sub(self.chosen_at) >= 4
    }

    /// The clusters were chosen anew, with so many frames in flight. The frames that are done
    /// are given, and the frame after which the old slots are free.
    pub fn chose(&mut self, in_flight: u64) -> (r: (u64, u64))
        requires
            old(self)@.frame + in_flight <= u64::MAX,
        ensures
            final(self)@ == (ShellState { chosen_at: old(self)@.frame, ..old(self)@ }),
            r.0 == old(self)@.frame,
            r.1 == old(self)@.frame + in_flight,
    {
        self.chosen_at = self.frame;
        (self.frame, self.frame + in_flight)
    }

    /// Ends a frame that began like this. Only one with a picture counts. Tells whether a report
    /// on the planet is due: in the first frame, and in every three hundredth after it.
    pub fn end_frame(&mut self, begun: Begun) -> (report: bool)
        ensures
            !begun.answer().count ==> final(self)@ == old(self)@ && !report,
            begun.answer().count ==> final(self)@ == (ShellState {
                frame: ((old(self)@.frame + 1) % 0x1_0000_0000_0000_0000) as u64,
                ..old(self)@
            }),
            begun.answer().count ==> report == (old(self)@.mode is Planet && final(self)@.frame
                % 300 == 1),
    {
        if !after_begin(begun).count {
            return false;
        }
        self.frame = self.frame.wrapping_add(1);
        matches!(self.mode, RunMode::Planet) && self.frame % 300 == 1
    }

    /// The scripted flight was reported on: the frames since the last report.
    pub fn soak_reported(&mut self) -> (n: u64)
        ensures
            n == old(self)@.soak_frames,
            final(self)@ == (ShellState { soak_frames: 0, ..old(self)@ }),
    {
        let n: u64 = self.soak_frames;
        self.soak_frames = 0;
        n
    }
}

/// From anywhere but orbit, the step to the next place leads back to orbit; from orbit, a
/// second step calls off the first.
pub proof fn cycling_comes_back(s: ShellState, first: Camera, second: Camera)
    requires
        s.wf(),
    ensures
        s.place() !is Globe ==> s.cycled(first).place() is Globe,
        s.place() is Globe ==> s.cycled(first).cycled(second) == s,
        s.cycled(first).wf(),
{
}

/// The key of free flight undoes itself.
pub proof fn flight_undoes_itself(s: ShellState)
    requires
        s.wf(),
    ensures
        s.flown().flown() == s,
{
}

/// What comes back from the ground is the camera that left orbit, whatever keys were pressed
/// in between, as long as the walker stays there.
pub proof fn orbit_camera_survives(s: ShellState, orbit: Camera, key: Key, pressed: bool, other: Camera)
    requires
        s.wf(),
        s.place() is Surface,
        s.nav.saved == Some(orbit),
        s.keyed(key, pressed, other).place() is Surface,
    ensures
        s.keyed(key, pressed, other).nav == s.nav,
        s.keyed(key, pressed, other).lifting() == NavChange::LeftSurface(Some(orbit)),
{
}

/// A view that needs clusters is never shown without them: not by the key, and not by the
/// panel.
pub proof fn cluster_views_need_clusters(s: ShellState, out: UiOutput, orbit: Camera)
    requires
        s.wf(),
        out.settings.wf(),
    ensures
        cluster_view(s.viewed().settings.view_mode) ==> s.nanite_on(),
        cluster_view(s.paneled(out, orbit).settings.view_mode) ==> s.paneled(
            out,
            orbit,
        ).nanite_on(),
{
}

/// The clusters are chosen at most once in four frames.
pub proof fn choices_are_apart(s: ShellState, later: u64)
    requires
        s.chosen_at <= later < s.chosen_at + 4,
    ensures
        !(ShellState { frame: later, ..s }).may_choose(),
{
}

} // verus!
