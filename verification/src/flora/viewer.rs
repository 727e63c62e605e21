//! The plant viewer: how it starts, what its panel and keys ask for, and what a frame draws.
use vstd::prelude::*;

use crate::flora::cas::Tab;
use crate::flora::dials::{first_looks, Looks, ViewDial};
use crate::flora::render_mode::RenderMode;
use crate::shell::begin::{after_begin, Begun};
use crate::text::{eq_ignore_case, parse_u32, same_letter, same_text, same_word, spelled, trim, trimmed};

verus! {

/// The seed that a setting asks for, if it is a number.
pub open spec fn seed_of(setting: Option<&str>) -> Option<u32> {
    match setting {
        Some(text) => spelled(trimmed(text@)),
        None => None,
    }
}

/// The seed that a setting asks for, if it is a number.
pub fn seed_setting(setting: Option<&str>) -> (seed: Option<u32>)
    ensures
        seed == seed_of(setting),
{
    match setting {
        Some(text) => parse_u32(trim(text)),
        None => None,
    }
}

/// The render mode of that name, whatever the case of its letters; lit if there is none.
/// Without clusters, the three modes that show them are not known.
pub open spec fn mode_named(name: Seq<char>, nanite: bool) -> RenderMode {
    if same_word(name, "unlit"@) {
        RenderMode::Unlit
    } else if same_word(name, "wireframe"@) {
        RenderMode::Wireframe
    } else if same_word(name, "normals"@) {
        RenderMode::Normals
    } else if same_word(name, "ao"@) {
        RenderMode::Ao
    } else if nanite && same_word(name, "triangle"@) {
        RenderMode::Triangle
    } else if nanite && same_word(name, "cluster"@) {
        RenderMode::Cluster
    } else if nanite && same_word(name, "lod"@) {
        RenderMode::Lod
    } else {
        RenderMode::Lit
    }
}

/// The render mode that a setting asks for.
pub fn mode_setting(setting: Option<&str>, nanite: bool) -> (mode: RenderMode)
    ensures
        mode == (match setting {
            Some(text) => mode_named(trimmed(text@), nanite),
            None => RenderMode::Lit,
        }),
{
    match setting {
        Some(text) => {
            let name: &str = trim(text);
            if eq_ignore_case(name, "unlit") {
                RenderMode::Unlit
            } else if eq_ignore_case(name, "wireframe") {
                RenderMode::Wireframe
            } else if eq_ignore_case(name, "normals") {
                RenderMode::Normals
            } else if eq_ignore_case(name, "ao") {
                RenderMode::Ao
            } else if nanite && eq_ignore_case(name, "triangle") {
                RenderMode::Triangle
            } else if nanite && eq_ignore_case(name, "cluster") {
                RenderMode::Cluster
            } else if nanite && eq_ignore_case(name, "lod") {
                RenderMode::Lod
            } else {
                RenderMode::Lit
            }
        },
        None => RenderMode::Lit,
    }
}

/// A picture is to be taken: the setting names a file.
pub fn wants_picture(setting: Option<&str>) -> (b: bool)
    ensures
        b == (setting matches Some(text) && trimmed(text@).len() > 0),
{
    match setting {
        Some(text) => trim(text).unicode_len() > 0,
        None => false,
    }
}

/// The panel is to be on the picture: the setting is a one.
pub fn wants_panel(setting: Option<&str>) -> (b: bool)
    ensures
        b == (setting matches Some(text) && trimmed(text@) == "1"@),
{
    match setting {
        Some(text) => same_text(trim(text), "1"),
        None => false,
    }
}

/// The render modes on offer, in order.
pub open spec fn offered(nanite: bool) -> Seq<RenderMode> {
    seq![
        RenderMode::Lit,
        RenderMode::Unlit,
        RenderMode::Wireframe,
        RenderMode::Normals,
        RenderMode::Ao,
    ] + (if nanite {
        seq![RenderMode::Triangle, RenderMode::Cluster, RenderMode::Lod]
    } else {
        Seq::empty()
    })
}

/// The render modes on offer, in order.
pub fn render_modes(nanite: bool) -> (list: Vec<RenderMode>)
    ensures
        list@ == offered(nanite),
{
    let mut list: Vec<RenderMode> = Vec::new();
    list.push(RenderMode::Lit);
    list.push(RenderMode::Unlit);
    list.push(RenderMode::Wireframe);
    list.push(RenderMode::Normals);
    list.push(RenderMode::Ao);
    if nanite {
        list.push(RenderMode::Triangle);
        list.push(RenderMode::Cluster);
        list.push(RenderMode::Lod);
    }
    assert(list@ =~= offered(nanite));
    list
}

/// What a render mode is called.
pub open spec fn mode_name(m: RenderMode) -> Seq<char> {
    match m {
        RenderMode::Lit => "Lit"@,
        RenderMode::Unlit => "Unlit"@,
        RenderMode::Wireframe => "Wireframe"@,
        RenderMode::Normals => "Normals"@,
        RenderMode::Ao => "AO"@,
        RenderMode::Triangle => "Triangle"@,
        RenderMode::Cluster => "Cluster"@,
        RenderMode::Lod => "LOD"@,
    }
}

/// What a render mode is called.
pub fn mode_label(m: RenderMode) -> (t: &'static str)
    ensures
        t@ == mode_name(m),
{
    match m {
        RenderMode::Lit => "Lit",
        RenderMode::Unlit => "Unlit",
        RenderMode::Wireframe => "Wireframe",
        RenderMode::Normals => "Normals",
        RenderMode::Ao => "AO",
        RenderMode::Triangle => "Triangle",
        RenderMode::Cluster => "Cluster",
        RenderMode::Lod => "LOD",
    }
}

/// How good a frame rate is.
#[derive(Clone, Copy, Debug, PartialEq, Eq, Structural)]
pub enum Grade {
    Good,
    Fair,
    Poor,
}

/// How good a frame rate is, by whole frames a second.
pub fn grade(fps: u32) -> (g: Grade)
    ensures
        g == (if fps >= 50 {
            Grade::Good
        } else if fps >= 30 {
            Grade::Fair
        } else {
            Grade::Poor
        }),
{
    if fps >= 50 {
        Grade::Good
    } else if fps >= 30 {
        Grade::Fair
    } else {
        Grade::Poor
    }
}

impl Grade {
    /// The colour that the frame rate is written in.
    pub fn colour(self) -> (rgb: (u8, u8, u8))
        ensures
            rgb == (match self {
                Grade::Good => (0x4cu8, 0xd9u8, 0x64u8),
                Grade::Fair => (0xe6u8, 0xc4u8, 0x4cu8),
                Grade::Poor => (0xe0u8, 0x5cu8, 0x5cu8),
            }),
    {
        match self {
            Grade::Good => (0x4c, 0xd9, 0x64),
            Grade::Fair => (0xe6, 0xc4, 0x4c),
            Grade::Poor => (0xe0, 0x5c, 0x5c),
        }
    }
}

/// What was done on the panel.
#[derive(Clone, Copy, Debug, PartialEq, Eq, Structural)]
pub enum PanelEvent {
    /// A ready-made genome was picked.
    Preset,
    Generate,
    Reroll,
    SeedSet(u32),
    /// The seed of the plant's structure was changed.
    StructureSet,
    TabPicked(Tab),
    /// A slider of the surroundings, or of a gene, was moved.
    Edited,
    ModePicked(RenderMode),
    WindSet(bool),
    BloomSet(bool),
    /// A slider of the view was moved.
    Turned(ViewDial, u32),
}

/// What the panel asks for in one frame.
#[derive(Clone, Copy, Debug, PartialEq, Eq, Structural)]
pub struct PanelOut {
    /// The plant is to be grown from the genome as it is.
    pub rebuild: bool,
    /// The genome is to be drawn anew, and the plant grown from it.
    pub generate: bool,
    /// The render mode is to be changed.
    pub mode_changed: bool,
}

impl Default for PanelOut {
    fn default() -> (out: Self)
        ensures
            out == (PanelOut { rebuild: false, generate: false, mode_changed: false }),
    {
        PanelOut { rebuild: false, generate: false, mode_changed: false }
    }
}

/// What the viewer does to the plant.
#[derive(Clone, Copy, Debug, PartialEq, Eq, Structural)]
pub enum Growth {
    Nothing,
    /// Draw a genome from this seed and grow it.
    Draw(u32),
    /// Grow the genome as it is.
    Grow,
    /// Only show the plant otherwise.
    Show(RenderMode),
}

/// Where the first genome comes from.
#[derive(Clone, Copy, Debug, PartialEq, Eq, Structural)]
pub enum FirstGenome {
    /// The ready-made tree.
    Default,
    /// Drawn from a seed.
    Drawn(u32),
}

/// A key of the viewer.
#[derive(Clone, Copy, Debug, PartialEq, Eq, Structural)]
pub enum ViewerKey {
    Escape,
    /// The next plant.
    Next,
    Other,
}

/// What a key asks for.
#[derive(Clone, Copy, Debug, PartialEq, Eq, Structural)]
pub enum KeyAction {
    Nothing,
    Quit,
    /// Draw a genome from this seed and grow it.
    Draw(u32),
}

/// How a picture is taken in a frame.
#[derive(Clone, Copy, Debug, PartialEq, Eq, Structural)]
pub enum Capture {
    Nothing,
    /// Without the panel.
    Clean,
    WithPanel,
}

/// The frame in which the picture is taken: by then everything has settled.
pub const WARMUP_FRAMES: u32 = 45;

/// The state of the viewer between frames.
#[derive(Clone, Copy, Debug, PartialEq, Eq, Structural)]
pub struct Viewer {
    /// The program has clusters.
    pub nanite: bool,
    pub seed: u32,
    pub mode: RenderMode,
    pub tab: Tab,
    pub wind_on: bool,
    pub bloom_on: bool,
    pub looks: Looks,
    pub minimized: bool,
    /// A picture is to be taken.
    pub picture: bool,
    /// The panel is to be on it.
    pub picture_panel: bool,
    pub frames: u32,
    /// The picture was taken: the viewer ends.
    pub done: bool,
}

impl Viewer {
    /// Starts with wind and bloom, on the tab of the surroundings. Without a seed in the setting
    /// the first plant is the ready-made one.
    pub fn new(
        nanite: bool,
        seed: Option<&str>,
        mode: Option<&str>,
        picture: Option<&str>,
        panel: Option<&str>,
    ) -> (r: (Viewer, FirstGenome))
        ensures
            r.1 == (match seed_of(seed) {
                Some(s) => FirstGenome::Drawn(s),
                None => FirstGenome::Default,
            }),
            r.0 == (Viewer {
                nanite,
                seed: match seed_of(seed) {
                    Some(s) => s,
                    None => 0,
                },
                mode: match mode {
                    Some(text) => mode_named(trimmed(text@), nanite),
                    None => RenderMode::Lit,
                },
                tab: Tab::Climate,
                wind_on: true,
                bloom_on: true,
                looks: first_looks(),
                minimized: false,
                picture: picture matches Some(text) && trimmed(text@).len() > 0,
                picture_panel: panel matches Some(text) && trimmed(text@) == "1"@,
                frames: 0,
                done: false,
            }),
    {
        let asked: Option<u32> = seed_setting(seed);
        let first: FirstGenome = match asked {
            Some(s) => FirstGenome::Drawn(s),
            None => FirstGenome::Default,
        };
        let viewer: Viewer = Viewer {
            nanite,
            seed: match asked {
                Some(s) => s,
                None => 0,
            },
            mode: mode_setting(mode, nanite),
            tab: Tab::Climate,
            wind_on: true,
            bloom_on: true,
            looks: Looks::default(),
            minimized: false,
            picture: wants_picture(picture),
            picture_panel: wants_panel(panel),
            frames: 0,
            done: false,
        };
        (viewer, first)
    }

    /// The panel is built: always, but for a picture without it.
    pub fn builds_panel(&self) -> (b: bool)
        ensures
            b == (!self.picture || self.picture_panel),
    {
        !self.picture || self.picture_panel
    }

    /// The seed after this one.
    pub open spec fn next_seed(self) -> u32 {
        ((self.seed + 1) % 0x1_0000_0000) as u32
    }

    /// The viewer after something was done on the panel.
    pub open spec fn after(self, event: PanelEvent) -> Viewer {
        match event {
            PanelEvent::Reroll => Viewer { seed: self.next_seed(), ..self },
            PanelEvent::SeedSet(s) => Viewer { seed: s, ..self },
            PanelEvent::TabPicked(t) => Viewer { tab: t, ..self },
            PanelEvent::ModePicked(m) => Viewer { mode: m, ..self },
            PanelEvent::WindSet(b) => Viewer { wind_on: b, ..self },
            PanelEvent::BloomSet(b) => Viewer { bloom_on: b, ..self },
            PanelEvent::Turned(dial, value) => Viewer {
                looks: self.looks.turned(dial, value, self.bloom_on),
                ..self
            },
            _ => self,
        }
    }

    /// Something was done on the panel.
    pub fn on_panel(&mut self, event: PanelEvent, out: &mut PanelOut)
        ensures
            *final(self) == old(self).after(event),
            *final(out) == (match event {
                PanelEvent::Preset | PanelEvent::StructureSet | PanelEvent::Edited => PanelOut {
                    rebuild: true,
                    ..*old(out)
                },
                PanelEvent::Generate | PanelEvent::Reroll | PanelEvent::SeedSet(_) => PanelOut {
                    generate: true,
                    ..*old(out)
                },
                PanelEvent::ModePicked(_) => PanelOut { mode_changed: true, ..*old(out) },
                _ => *old(out),
            }),
    {
        match event {
            PanelEvent::Preset | PanelEvent::StructureSet | PanelEvent::Edited => {
                out.rebuild = true;
            },
            PanelEvent::Generate => {
                out.generate = true;
            },
            PanelEvent::Reroll => {
                self.seed = self.seed.wrapping_add(1);
                out.generate = true;
            },
            PanelEvent::SeedSet(s) => {
                self.seed = s;
                out.generate = true;
            },
            PanelEvent::TabPicked(t) => {
                self.tab = t;
            },
            PanelEvent::ModePicked(m) => {
                self.mode = m;
                out.mode_changed = true;
            },
            PanelEvent::WindSet(b) => {
                self.wind_on = b;
            },
            PanelEvent::BloomSet(b) => {
                self.bloom_on = b;
            },
            PanelEvent::Turned(dial, value) => {
                let on: bool = self.bloom_on;
                let mut looks: Looks = self.looks;
                looks.turn(dial, value, on);
                self.looks = looks;
            },
        }
    }

    /// What to do to the plant: a new genome before a new growth before another look.
    pub fn growth(&self, out: &PanelOut) -> (g: Growth)
        ensures
            g == (if out.generate {
                Growth::Draw(self.seed)
            } else if out.rebuild {
                Growth::Grow
            } else if out.mode_changed {
                Growth::Show(self.mode)
            } else {
                Growth::Nothing
            }),
    {
        if out.generate {
            Growth::Draw(self.seed)
        } else if out.rebuild {
            Growth::Grow
        } else if out.mode_changed {
            Growth::Show(self.mode)
        } else {
            Growth::Nothing
        }
    }

    /// A key went down. The panel has it first: where it took the key, or listens for text,
    /// nothing follows.
    pub fn on_key(&mut self, key: ViewerKey, taken: bool, typing: bool) -> (a: KeyAction)
        ensures
            a == (if taken || typing {
                KeyAction::Nothing
            } else {
                match key {
                    ViewerKey::Escape => KeyAction::Quit,
                    ViewerKey::Next => KeyAction::Draw(old(self).next_seed()),
                    ViewerKey::Other => KeyAction::Nothing,
                }
            }),
            *final(self) == (if a is Draw {
                Viewer { seed: old(self).next_seed(), ..*old(self) }
            } else {
                *old(self)
            }),
    {
        if taken || typing {
            return KeyAction::Nothing;
        }
        match key {
            ViewerKey::Escape => KeyAction::Quit,
            ViewerKey::Next => {
                self.seed = self.seed.wrapping_add(1);
                KeyAction::Draw(self.seed)
            },
            ViewerKey::Other => KeyAction::Nothing,
        }
    }

    /// The window has a new size.
    pub fn on_resize(&mut self, width: u32, height: u32)
        ensures
            *final(self) == (Viewer { minimized: width == 0 || height == 0, ..*old(self) }),
    {
        self.minimized = width == 0 || height == 0;
    }

    /// The branches are drawn from clusters, where there are any.
    pub fn draws_clusters(&self, clusters: bool) -> (b: bool)
        ensures
            b == (self.nanite && clusters && (self.mode is Triangle || self.mode is Cluster
                || self.mode is Lod)),
    {
        self.nanite && clusters && self.mode.uses_nanite()
    }

    /// Counts a frame that began like this, if it counts, and tells how its picture is taken, if it
    /// is.
    pub fn count_frame(&mut self, begun: Begun) -> (c: Capture)
        ensures
            !begun.answer().count ==> *final(self) == *old(self) && c == Capture::Nothing,
            begun.answer().count ==> *final(self) == (Viewer {
                frames: ((old(self).frames + 1) % 0x1_0000_0000) as u32,
                ..*old(self)
            }),
            begun.answer().count ==> c == (if !(old(self).picture && final(self).frames == 45) {
                Capture::Nothing
            } else if old(self).picture_panel {
                Capture::WithPanel
            } else {
                Capture::Clean
            }),
    {
        if !after_begin(begun).count {
            return Capture::Nothing;
        }
        self.frames = self.frames.wrapping_add(1);
        if self.picture && self.frames == WARMUP_FRAMES {
            if self.picture_panel {
                Capture::WithPanel
            } else {
                Capture::Clean
            }
        } else {
            Capture::Nothing
        }
    }

    /// The picture was written, or could not be: either way the viewer ends.
    pub fn picture_taken(&mut self)
        ensures
            *final(self) == (Viewer { done: old(self).done || old(self).picture, ..*old(self) }),
    {
        if self.picture {
            self.done = true;
        }
    }
}

/// A step of a frame of the viewer.
#[derive(Clone, Copy, Debug, PartialEq, Eq, Structural)]
pub enum ViewerPass {
    /// The targets that the scene is drawn to are made as large as the window.
    Resize,
    Uniforms,
    Bones,
    /// The plant's shadow.
    Shadow,
    ClusterCull,
    BeginScene,
    Staging,
    ClusterDraw,
    Plant,
    EndScene,
    Bloom,
    BeginCapture,
    /// The panel, onto the picture that is taken.
    CapturePanel,
    EndCapture,
    /// The picture without the panel.
    CaptureClean,
    BeginRendering,
    Composite,
    UiPass,
    Panel,
    EndFrame,
    WritePicture,
}

/// The parts that the viewer has to draw with.
#[derive(Clone, Copy, Debug, PartialEq, Eq, Structural)]
pub struct ViewerParts {
    pub renderer: bool,
    /// The renderer's targets are not as large as the window.
    pub resized: bool,
    pub plant: bool,
    pub clusters: bool,
    pub staging: bool,
    pub panel: bool,
}

/// The size that the renderer's targets are to be given before a frame: that of the window, where
/// theirs is another.
pub fn target_size(targets: (u32, u32), window: (u32, u32)) -> (size: Option<(u32, u32)>)
    ensures
        size == (if targets == window {
            None
        } else {
            Some(window)
        }),
{
    if targets.0 == window.0 && targets.1 == window.1 {
        None
    } else {
        Some(window)
    }
}

/// Targets are resized before anything is drawn to them, and only where the sizes differ.
pub proof fn targets_fit_the_window(v: Viewer, has: ViewerParts, i: int)
    requires
        0 <= i < v.scene(has).len(),
        v.scene(has)[i] == ViewerPass::Resize,
    ensures
        i == 0,
        has.renderer && has.resized,
{
}

/// The pass, where the condition holds.
pub open spec fn given(cond: bool, p: ViewerPass) -> Seq<ViewerPass> {
    if cond {
        seq![p]
    } else {
        Seq::empty()
    }
}

fn push_given(list: &mut Vec<ViewerPass>, cond: bool, p: ViewerPass)
    ensures
        final(list)@ == old(list)@ + given(cond, p),
{
    if cond {
        list.push(p);
    }
    assert(list@ =~= old(list)@ + given(cond, p));
}

impl Viewer {
    /// The branches are drawn from clusters.
    pub open spec fn clustered(self, has: ViewerParts) -> bool {
        self.nanite && has.clusters && (self.mode is Triangle || self.mode is Cluster
            || self.mode is Lod)
    }

    /// What a frame draws up to the finished scene. The views of clusters draw the branches
    /// only, all others the whole plant.
    pub open spec fn scene(self, has: ViewerParts) -> Seq<ViewerPass> {
        let r = has.renderer;
        let c = self.clustered(has);
        given(r && has.resized, ViewerPass::Resize) + given(r, ViewerPass::Uniforms) + given(
            r && has.plant,
            ViewerPass::Bones,
        ) + given(r && has.plant, ViewerPass::Shadow) + given(c, ViewerPass::ClusterCull) + given(r, ViewerPass::BeginScene) + given(
            r && has.staging,
            ViewerPass::Staging,
        ) + given(c, ViewerPass::ClusterDraw) + given(
            !c && r && has.plant,
            ViewerPass::Plant,
        ) + given(r, ViewerPass::EndScene) + given(r, ViewerPass::Bloom)
    }

    /// What a frame draws after the scene. A picture with the panel uses the panel up.
    pub open spec fn output(self, has: ViewerParts, capture: Capture) -> Seq<ViewerPass> {
        let r = has.renderer;
        given(r && capture is WithPanel, ViewerPass::BeginCapture) + given(
            has.panel && capture is WithPanel,
            ViewerPass::CapturePanel,
        ) + given(r && capture is WithPanel, ViewerPass::EndCapture) + given(
            r && capture is Clean,
            ViewerPass::CaptureClean,
        ) + seq![ViewerPass::BeginRendering] + given(r, ViewerPass::Composite) + seq![
            ViewerPass::UiPass,
        ] + given(has.panel && !self.picture, ViewerPass::Panel) + seq![ViewerPass::EndFrame]
            + given(capture !is Nothing, ViewerPass::WritePicture)
    }

    /// All steps of a frame that began like this: without a picture nothing but its end, and none
    /// if it was not begun.
    pub open spec fn steps(self, has: ViewerParts, begun: Begun, capture: Capture) -> Seq<
        ViewerPass,
    > {
        if begun.answer().draw {
            self.scene(has) + self.output(has, capture)
        } else if begun.answer().end {
            seq![ViewerPass::EndFrame]
        } else {
            Seq::empty()
        }
    }

    /// What a frame draws up to the finished scene.
    pub fn scene_passes(&self, has: ViewerParts) -> (list: Vec<ViewerPass>)
        ensures
            list@ == self.scene(has),
    {
        let r: bool = has.renderer;
        let c: bool = self.draws_clusters(has.clusters);
        let mut list: Vec<ViewerPass> = Vec::new();
        push_given(&mut list, r && has.resized, ViewerPass::Resize);
        assert(list@ =~= given(r && has.resized, ViewerPass::Resize));
        push_given(&mut list, r, ViewerPass::Uniforms);
        push_given(&mut list, r && has.plant, ViewerPass::Bones);
        push_given(&mut list, r && has.plant, ViewerPass::Shadow);
        push_given(&mut list, c, ViewerPass::ClusterCull);
        push_given(&mut list, r, ViewerPass::BeginScene);
        push_given(&mut list, r && has.staging, ViewerPass::Staging);
        push_given(&mut list, c, ViewerPass::ClusterDraw);
        push_given(&mut list, !c && r && has.plant, ViewerPass::Plant);
        push_given(&mut list, r, ViewerPass::EndScene);
        push_given(&mut list, r, ViewerPass::Bloom);
        list
    }

    /// What a frame draws after the scene.
    pub fn output_passes(&self, has: ViewerParts, capture: Capture) -> (list: Vec<ViewerPass>)
        ensures
            list@ == self.output(has, capture),
    {
        let r: bool = has.renderer;
        let with_panel: bool = matches!(capture, Capture::WithPanel);
        let clean: bool = matches!(capture, Capture::Clean);
        let mut list: Vec<ViewerPass> = Vec::new();
        push_given(&mut list, r && with_panel, ViewerPass::BeginCapture);
        assert(list@ =~= given(r && with_panel, ViewerPass::BeginCapture));
        push_given(&mut list, has.panel && with_panel, ViewerPass::CapturePanel);
        push_given(&mut list, r && with_panel, ViewerPass::EndCapture);
        push_given(&mut list, r && clean, ViewerPass::CaptureClean);
        push_given(&mut list, true, ViewerPass::BeginRendering);
        push_given(&mut list, r, ViewerPass::Composite);
        push_given(&mut list, true, ViewerPass::UiPass);
        push_given(&mut list, has.panel && !self.picture, ViewerPass::Panel);
        push_given(&mut list, true, ViewerPass::EndFrame);
        push_given(&mut list, with_panel || clean, ViewerPass::WritePicture);
        list
    }
}

proof fn scene_ends_nothing(v: Viewer, has: ViewerParts, i: int)
    requires
        0 <= i < v.scene(has).len(),
    ensures
        v.scene(has)[i] != ViewerPass::EndFrame,
{
}

proof fn output_ends_once(v: Viewer, has: ViewerParts, capture: Capture, i: int)
    requires
        0 <= i < v.output(has, capture).len(),
    ensures
        ({
            let s = v.output(has, capture);
            let at = s.len() - (if capture is Nothing {
                1int
            } else {
                2
            });
            &&& 0 <= at < s.len()
            &&& s[at] == ViewerPass::EndFrame
            &&& (s[i] == ViewerPass::EndFrame ==> i == at)
            &&& (i > at ==> s[i] == ViewerPass::WritePicture)
        }),
{
}

/// A frame with a picture is ended once, and after that at most the picture is written. One
/// without a picture is ended and nothing else; one that was not begun is left alone.
pub proof fn viewer_frames_are_ended(
    v: Viewer,
    has: ViewerParts,
    begun: Begun,
    capture: Capture,
) -> (at: int)
    ensures
        begun is Picture ==> {
            let s = v.steps(has, begun, capture);
            &&& 0 <= at < s.len()
            &&& s[at] == ViewerPass::EndFrame
            &&& forall|i: int|
                0 <= i < s.len() ==> {
                    &&& #[trigger] s[i] == ViewerPass::EndFrame ==> i == at
                    &&& i > at ==> s[i] == ViewerPass::WritePicture
                }
        },
        begun is NoPicture ==> v.steps(has, begun, capture) == seq![ViewerPass::EndFrame],
        begun is Lost || begun is Failed ==> v.steps(has, begun, capture) == Seq::<
            ViewerPass,
        >::empty(),
{
    let a = v.scene(has);
    let b = v.output(has, capture);
    assert(b.len() > 0);
    output_ends_once(v, has, capture, 0);
    let at = a.len() + b.len() - (if capture is Nothing {
        1int
    } else {
        2
    });
    if begun is Picture {
        let s = v.steps(has, begun, capture);
        assert(s == a + b);
        assert(s[at] == b[at - a.len()]);
        assert forall|i: int| 0 <= i < s.len() implies {
            &&& #[trigger] s[i] == ViewerPass::EndFrame ==> i == at
            &&& i > at ==> s[i] == ViewerPass::WritePicture
        } by {
            if i < a.len() {
                assert(s[i] == a[i]);
                scene_ends_nothing(v, has, i);
            } else {
                assert(s[i] == b[i - a.len()]);
                output_ends_once(v, has, capture, i - a.len());
            }
        }
    }
    at
}

/// The draw calls that the viewer shows: those of the plant, and two for sky and ground.
pub fn shown_draw_calls(plant: u32) -> (n: u32)
    requires
        plant <= u32::MAX - 2,
    ensures
        n == plant + 2,
{
    plant + 2
}

/// A run that is asked for a picture takes it in the forty-fifth frame, and in no other
/// until the count has gone all the way round.
pub proof fn picture_comes_in_its_frame(v: Viewer, w: Viewer, k: nat)
    requires
        v.frames == 0,
        k < 0x1_0000_0000,
        w == (Viewer { frames: k as u32, ..v }),
    ensures
        (((w.frames + 1) % 0x1_0000_0000) as u32 == WARMUP_FRAMES) <==> k + 1 == WARMUP_FRAMES,
{
}

/// Choosing a mode alone never grows a plant, and a plant that is grown keeps the mode.
pub proof fn modes_grow_nothing(v: Viewer, m: RenderMode)
    ensures
        v.after(PanelEvent::ModePicked(m)).seed == v.seed,
        v.after(PanelEvent::ModePicked(m)).mode == m,
        v.after(PanelEvent::Reroll).mode == v.mode,
        v.after(PanelEvent::Edited) == v,
{
}

proof fn mode_words()
    ensures
        "unlit"@.len() == 5 && "wireframe"@.len() == 9 && "normals"@.len() == 7 && "ao"@.len() == 2,
        "triangle"@.len() == 8 && "cluster"@.len() == 7 && "lod"@.len() == 3,
        "Lit"@.len() == 3 && "Unlit"@.len() == 5 && "Wireframe"@.len() == 9 && "Normals"@.len() == 7,
        "AO"@.len() == 2 && "Triangle"@.len() == 8 && "Cluster"@.len() == 7 && "LOD"@.len() == 3,
        "Lit"@[1] == 'i' && "lod"@[1] == 'o',
        "Normals"@[0] == 'N' && "cluster"@[0] == 'c' && "Cluster"@[0] == 'C' && "normals"@[0] == 'n',
        same_word("Unlit"@, "unlit"@) && same_word("Wireframe"@, "wireframe"@),
        same_word("Normals"@, "normals"@) && same_word("AO"@, "ao"@),
        same_word("Triangle"@, "triangle"@) && same_word("Cluster"@, "cluster"@) && same_word(
            "LOD"@,
            "lod"@,
        ),
{
    reveal_strlit("unlit");
    reveal_strlit("wireframe");
    reveal_strlit("normals");
    reveal_strlit("ao");
    reveal_strlit("triangle");
    reveal_strlit("cluster");
    reveal_strlit("lod");
    reveal_strlit("Lit");
    reveal_strlit("Unlit");
    reveal_strlit("Wireframe");
    reveal_strlit("Normals");
    reveal_strlit("AO");
    reveal_strlit("Triangle");
    reveal_strlit("Cluster");
    reveal_strlit("LOD");
}

/// A mode is chosen by the name that it has on the panel, if it is on offer.
pub proof fn modes_go_by_their_names(m: RenderMode, nanite: bool)
    ensures
        offered(nanite).contains(m) <==> nanite || !(m is Triangle || m is Cluster || m is Lod),
        offered(nanite).contains(m) ==> mode_named(mode_name(m), nanite) == m,
        !offered(nanite).contains(m) ==> mode_named(mode_name(m), nanite) is Lit,
{
    mode_words();
    let all = offered(nanite);
    assert(all[0] is Lit && all[1] is Unlit && all[2] is Wireframe && all[3] is Normals && all[4] is Ao);
    if nanite {
        assert(all[5] is Triangle && all[6] is Cluster && all[7] is Lod);
    }
    let n = mode_name(m);
    if m is Lit || m is Lod {
        assert(same_word(n, "lod"@) ==> same_letter(n[1], "lod"@[1]));
    }
    if m is Normals || m is Cluster {
        assert(same_word(n, "normals"@) ==> same_letter(n[0], "normals"@[0]));
        assert(same_word(n, "cluster"@) ==> same_letter(n[0], "cluster"@[0]));
    }
}

/// What is done on the panel moves the one thing it is done on.
pub proof fn panel_moves_one_thing(v: Viewer, on: bool, tab: Tab, seed: u32, m: RenderMode)
    ensures
        v.after(PanelEvent::WindSet(on)) == (Viewer { wind_on: on, ..v }),
        v.after(PanelEvent::BloomSet(on)) == (Viewer { bloom_on: on, ..v }),
        v.after(PanelEvent::TabPicked(tab)) == (Viewer { tab, ..v }),
        v.after(PanelEvent::SeedSet(seed)) == (Viewer { seed, ..v }),
        v.after(PanelEvent::ModePicked(m)) == (Viewer { mode: m, ..v }),
        v.after(PanelEvent::Generate) == v && v.after(PanelEvent::Preset) == v && v.after(
            PanelEvent::StructureSet,
        ) == v,
        v.seed < u32::MAX ==> v.after(PanelEvent::Reroll) == (Viewer {
            seed: (v.seed + 1) as u32,
            ..v
        }),
        v.seed == u32::MAX ==> v.after(PanelEvent::Reroll).seed == 0,
{
}

} // verus!
