//! What a frame draws, and in which order.
//!
//! A frame has three stretches. The first ends with the question whether the picture can be
//! split for the sea to refract it; the second depends on the answer; the third closes the
//! picture and lays the panel over it.
use vstd::prelude::*;

use crate::shell::begin::{after_begin, Begun};
use crate::shell::launch::RunMode;
use crate::shell::place::Place;
use crate::shell::settings::Settings;

verus! {

/// The parts that there are to draw with.
#[derive(Clone, Copy, Debug, PartialEq, Eq, Structural)]
pub struct Built {
    pub quadtree: bool,
    pub bodies: bool,
    pub atmosphere: bool,
    pub markers: bool,
    pub character: bool,
    /// The renderer of trees.
    pub trees: bool,
    /// The mesh of a tree, grown in this frame at the latest.
    pub tree: bool,
    pub ocean: bool,
    pub waves: bool,
    pub wind: bool,
    pub scene: bool,
    pub stress: bool,
    pub panel: bool,
}

/// What a frame is drawn from.
#[derive(Clone, Copy, Debug)]
pub struct Frame {
    pub mode: RunMode,
    pub place: Place,
    pub settings: Settings,
    /// Clusters are drawn, rather than the quadtree.
    pub nanite: bool,
    /// The clusters may be chosen anew.
    pub choose: bool,
    /// The walker is seen from outside.
    pub walker_seen: bool,
    /// The camera is low enough for single waves to be seen.
    pub low: bool,
    pub built: Built,
}

/// A step of a frame.
#[derive(Clone, Copy, Debug, PartialEq, Eq, Structural)]
pub enum Pass {
    /// Streams the quadtree in.
    QuadtreeUpdate,
    /// Chooses clusters anew.
    ClusterChoice,
    ClusterUpdate,
    ClusterCull,
    /// Moves the walker's limbs.
    CharacterPose,
    /// Grows, scatters and bends the trees.
    TreesPrepare,
    StressUpload,
    /// Opens the picture.
    BeginScene,
    Viewport,
    QuadtreeDraw,
    ClusterDraw,
    Bodies,
    Atmosphere,
    Markers,
    CharacterDraw,
    TreesDraw,
    MarkerScene,
    StressDraw,
    /// Asks for the picture to be split.
    WaterSplit,
    /// Sea and waves, in the split picture; `detail` says whether single waves are drawn.
    Waves { detail: bool, intensity: bool },
    /// The sea as one shell.
    OceanShell,
    /// The wind, in the split picture or not.
    Wind { split: bool },
    Resolve,
    UiPass,
    Panel,
    EndFrame,
}

/// The pass, where the condition holds.
#[verifier::opaque]
pub open spec fn when_true(cond: bool, p: Pass) -> Seq<Pass> {
    if cond {
        seq![p]
    } else {
        Seq::empty()
    }
}

fn push_if(list: &mut Vec<Pass>, cond: bool, p: Pass)
    ensures
        final(list)@ == old(list)@ + when_true(cond, p),
{
    if cond {
        list.push(p);
    }
    proof {
        reveal(when_true);
        assert(list@ =~= old(list)@ + when_true(cond, p));
    }
}

impl Frame {
    /// The walker is drawn.
    pub open spec fn walker(self) -> bool {
        self.place is Surface && self.walker_seen && self.built.character
    }

    /// Trees are drawn.
    pub open spec fn trees(self) -> bool {
        self.place is Surface && self.settings.flora_enabled && self.built.trees
    }

    /// What is done for the planet before the picture is opened.
    pub open spec fn planet_before(self) -> Seq<Pass> {
        when_true(!self.nanite && self.built.quadtree, Pass::QuadtreeUpdate) + when_true(
            self.nanite && self.choose,
            Pass::ClusterChoice,
        ) + when_true(self.nanite, Pass::ClusterUpdate) + when_true(self.nanite, Pass::ClusterCull)
            + when_true(self.walker(), Pass::CharacterPose) + when_true(
            self.trees(),
            Pass::TreesPrepare,
        )
    }

    /// What of the planet is solid, and the air round it.
    pub open spec fn planet_solid(self) -> Seq<Pass> {
        when_true(!self.nanite && self.built.quadtree, Pass::QuadtreeDraw) + when_true(
            self.nanite,
            Pass::ClusterDraw,
        ) + when_true(self.built.bodies, Pass::Bodies) + when_true(
            self.settings.atmo_enabled && self.built.atmosphere,
            Pass::Atmosphere,
        ) + when_true(
            (self.settings.markers_poles || self.settings.markers_equator) && self.built.markers,
            Pass::Markers,
        ) + when_true(self.walker(), Pass::CharacterDraw) + when_true(
            self.trees() && self.built.tree,
            Pass::TreesDraw,
        )
    }

    /// The picture is to be split for the sea.
    pub open spec fn splits(self) -> bool {
        self.mode is Planet && self.settings.ocean_enabled && self.built.waves
    }

    /// The first stretch.
    pub open spec fn opening(self) -> Seq<Pass> {
        match self.mode {
            RunMode::Planet => self.planet_before() + seq![Pass::BeginScene, Pass::Viewport]
                + self.planet_solid() + when_true(self.splits(), Pass::WaterSplit),
            RunMode::Markers => seq![Pass::BeginScene] + when_true(
                self.built.scene,
                Pass::MarkerScene,
            ),
            RunMode::Stress => when_true(self.built.stress, Pass::StressUpload) + seq![
                Pass::BeginScene,
            ] + when_true(self.built.stress, Pass::StressDraw),
            RunMode::SoakTerrain => when_true(self.built.quadtree, Pass::QuadtreeUpdate) + seq![
                Pass::BeginScene,
                Pass::Viewport,
            ] + when_true(self.built.quadtree, Pass::QuadtreeDraw),
        }
    }

    /// The second stretch. `split` says whether the picture was split.
    pub open spec fn water(self, split: bool) -> Seq<Pass> {
        if self.mode is Planet {
            when_true(
                self.splits() && split,
                Pass::Waves {
                    detail: self.settings.wave_enabled && self.low,
                    intensity: self.settings.view_mode == 12,
                },
            ) + when_true(
                self.settings.ocean_enabled && !(self.splits() && split) && self.built.ocean,
                Pass::OceanShell,
            ) + when_true(
                self.settings.wind_enabled && self.built.wind,
                Pass::Wind { split: self.splits() && split },
            )
        } else {
            Seq::empty()
        }
    }

    /// The third stretch.
    pub open spec fn closing(self) -> Seq<Pass> {
        when_true(self.settings.taa, Pass::Resolve) + seq![Pass::UiPass] + when_true(
            self.built.panel,
            Pass::Panel,
        ) + seq![Pass::EndFrame]
    }

    fn push_before(&self, list: &mut Vec<Pass>)
        ensures
            final(list)@ == old(list)@ + self.planet_before(),
    {
        let walker: bool = matches!(self.place, Place::Surface) && self.walker_seen
            && self.built.character;
        let trees: bool = matches!(self.place, Place::Surface) && self.settings.flora_enabled
            && self.built.trees;
        let ghost start = list@;
        push_if(list, !self.nanite && self.built.quadtree, Pass::QuadtreeUpdate);
        let ghost a1 = when_true(!self.nanite && self.built.quadtree, Pass::QuadtreeUpdate);
        push_if(list, self.nanite && self.choose, Pass::ClusterChoice);
        let ghost a2 = a1 + when_true(self.nanite && self.choose, Pass::ClusterChoice);
        assert(list@ =~= start + a2);
        push_if(list, self.nanite, Pass::ClusterUpdate);
        let ghost a3 = a2 + when_true(self.nanite, Pass::ClusterUpdate);
        assert(list@ =~= start + a3);
        push_if(list, self.nanite, Pass::ClusterCull);
        let ghost a4 = a3 + when_true(self.nanite, Pass::ClusterCull);
        assert(list@ =~= start + a4);
        push_if(list, walker, Pass::CharacterPose);
        let ghost a5 = a4 + when_true(walker, Pass::CharacterPose);
        assert(list@ =~= start + a5);
        push_if(list, trees, Pass::TreesPrepare);
        let ghost a6 = a5 + when_true(trees, Pass::TreesPrepare);
        assert(list@ =~= start + a6);
        assert(a6 == self.planet_before());
    }

    fn push_solid(&self, list: &mut Vec<Pass>)
        ensures
            final(list)@ == old(list)@ + self.planet_solid(),
    {
        let walker: bool = matches!(self.place, Place::Surface) && self.walker_seen
            && self.built.character;
        let trees: bool = matches!(self.place, Place::Surface) && self.settings.flora_enabled
            && self.built.trees;
        let ghost start = list@;
        push_if(list, !self.nanite && self.built.quadtree, Pass::QuadtreeDraw);
        let ghost a1 = when_true(!self.nanite && self.built.quadtree, Pass::QuadtreeDraw);
        push_if(list, self.nanite, Pass::ClusterDraw);
        let ghost a2 = a1 + when_true(self.nanite, Pass::ClusterDraw);
        assert(list@ =~= start + a2);
        push_if(list, self.built.bodies, Pass::Bodies);
        let ghost a3 = a2 + when_true(self.built.bodies, Pass::Bodies);
        assert(list@ =~= start + a3);
        push_if(list, self.settings.atmo_enabled && self.built.atmosphere, Pass::Atmosphere);
        let ghost a4 = a3 + when_true(self.settings.atmo_enabled && self.built.atmosphere, Pass::Atmosphere);
        assert(list@ =~= start + a4);
        push_if(list, (self.settings.markers_poles || self.settings.markers_equator) && self.built.markers, Pass::Markers);
        let ghost a5 = a4 + when_true((self.settings.markers_poles || self.settings.markers_equator) && self.built.markers, Pass::Markers);
        assert(list@ =~= start + a5);
        push_if(list, walker, Pass::CharacterDraw);
        let ghost a6 = a5 + when_true(walker, Pass::CharacterDraw);
        assert(list@ =~= start + a6);
        push_if(list, trees && self.built.tree, Pass::TreesDraw);
        let ghost a7 = a6 + when_true(trees && self.built.tree, Pass::TreesDraw);
        assert(list@ =~= start + a7);
        assert(a7 == self.planet_solid());
    }

    /// The first stretch.
    pub fn opening_passes(&self) -> (list: Vec<Pass>)
        ensures
            list@ == self.opening(),
    {
        let mut list: Vec<Pass> = Vec::new();
        match self.mode {
            RunMode::Planet => {
                self.push_before(&mut list);
                list.push(Pass::BeginScene);
                list.push(Pass::Viewport);
                self.push_solid(&mut list);
                push_if(
                    &mut list,
                    self.settings.ocean_enabled && self.built.waves,
                    Pass::WaterSplit,
                );
            },
            RunMode::Markers => {
                list.push(Pass::BeginScene);
                push_if(&mut list, self.built.scene, Pass::MarkerScene);
            },
            RunMode::Stress => {
                push_if(&mut list, self.built.stress, Pass::StressUpload);
                list.push(Pass::BeginScene);
                push_if(&mut list, self.built.stress, Pass::StressDraw);
            },
            RunMode::SoakTerrain => {
                push_if(&mut list, self.built.quadtree, Pass::QuadtreeUpdate);
                list.push(Pass::BeginScene);
                list.push(Pass::Viewport);
                push_if(&mut list, self.built.quadtree, Pass::QuadtreeDraw);
            },
        }
        assert(list@ =~= self.opening());
        list
    }

    /// The second stretch. `split` says whether the picture was split.
    pub fn water_passes(&self, split: bool) -> (list: Vec<Pass>)
        ensures
            list@ == self.water(split),
    {
        let mut list: Vec<Pass> = Vec::new();
        if matches!(self.mode, RunMode::Planet) {
            let apart: bool = self.settings.ocean_enabled && self.built.waves && split;
            push_if(
                &mut list,
                apart,
                Pass::Waves {
                    detail: self.settings.wave_enabled && self.low,
                    intensity: self.settings.view_mode == 12,
                },
            );
            push_if(
                &mut list,
                self.settings.ocean_enabled && !apart && self.built.ocean,
                Pass::OceanShell,
            );
            push_if(
                &mut list,
                self.settings.wind_enabled && self.built.wind,
                Pass::Wind { split: apart },
            );
        }
        assert(list@ =~= self.water(split));
        list
    }

    /// The third stretch.
    pub fn closing_passes(&self) -> (list: Vec<Pass>)
        ensures
            list@ == self.closing(),
    {
        let mut list: Vec<Pass> = Vec::new();
        push_if(&mut list, self.settings.taa, Pass::Resolve);
        list.push(Pass::UiPass);
        push_if(&mut list, self.built.panel, Pass::Panel);
        list.push(Pass::EndFrame);
        assert(list@ =~= self.closing());
        list
    }
}

/// The pass copies or computes, which an open picture does not allow.
pub open spec fn goes_before(p: Pass) -> bool {
    match p {
        Pass::QuadtreeUpdate
        | Pass::ClusterChoice
        | Pass::ClusterUpdate
        | Pass::ClusterCull
        | Pass::CharacterPose
        | Pass::TreesPrepare
        | Pass::StressUpload => true,
        _ => false,
    }
}

/// Every pass is of a kind.
spec fn all(s: Seq<Pass>, kind: spec_fn(Pass) -> bool) -> bool {
    forall|i: int| 0 <= i < s.len() ==> kind(#[trigger] s[i])
}

proof fn all_joined(a: Seq<Pass>, b: Seq<Pass>, kind: spec_fn(Pass) -> bool)
    requires
        all(a, kind),
        all(b, kind),
    ensures
        all(a + b, kind),
{
    let s = a + b;
    assert forall|i: int| 0 <= i < s.len() implies kind(#[trigger] s[i]) by {
        if i < a.len() {
            assert(s[i] == a[i]);
        } else {
            assert(s[i] == b[i - a.len()]);
        }
    }
}

proof fn all_when(cond: bool, p: Pass, kind: spec_fn(Pass) -> bool)
    requires
        cond ==> kind(p),
    ensures
        all(when_true(cond, p), kind),
{
    reveal(when_true);
}

proof fn before_is(f: Frame, kind: spec_fn(Pass) -> bool)
    requires
        f.nanite || kind(Pass::QuadtreeUpdate),
        kind(Pass::ClusterChoice),
        kind(Pass::ClusterUpdate),
        kind(Pass::ClusterCull),
        kind(Pass::CharacterPose),
        kind(Pass::TreesPrepare),
    ensures
        all(f.planet_before(), kind),
{
    let p1 = when_true(!f.nanite && f.built.quadtree, Pass::QuadtreeUpdate);
    all_when(!f.nanite && f.built.quadtree, Pass::QuadtreeUpdate, kind);
    let p2 = when_true(f.nanite && f.choose, Pass::ClusterChoice);
    all_when(f.nanite && f.choose, Pass::ClusterChoice, kind);
    let p3 = when_true(f.nanite, Pass::ClusterUpdate);
    all_when(f.nanite, Pass::ClusterUpdate, kind);
    let p4 = when_true(f.nanite, Pass::ClusterCull);
    all_when(f.nanite, Pass::ClusterCull, kind);
    let p5 = when_true(f.walker(), Pass::CharacterPose);
    all_when(f.walker(), Pass::CharacterPose, kind);
    let p6 = when_true(f.trees(), Pass::TreesPrepare);
    all_when(f.trees(), Pass::TreesPrepare, kind);
    all_joined(p1, p2, kind);
    all_joined(p1 + p2, p3, kind);
    all_joined(p1 + p2 + p3, p4, kind);
    all_joined(p1 + p2 + p3 + p4, p5, kind);
    all_joined(p1 + p2 + p3 + p4 + p5, p6, kind);
}

proof fn solid_is(f: Frame, kind: spec_fn(Pass) -> bool)
    requires
        f.nanite || kind(Pass::QuadtreeDraw),
        !f.nanite || kind(Pass::ClusterDraw),
        kind(Pass::Bodies),
        kind(Pass::Atmosphere),
        kind(Pass::Markers),
        kind(Pass::CharacterDraw),
        kind(Pass::TreesDraw),
    ensures
        all(f.planet_solid(), kind),
{
    let p1 = when_true(!f.nanite && f.built.quadtree, Pass::QuadtreeDraw);
    all_when(!f.nanite && f.built.quadtree, Pass::QuadtreeDraw, kind);
    let p2 = when_true(f.nanite, Pass::ClusterDraw);
    all_when(f.nanite, Pass::ClusterDraw, kind);
    let p3 = when_true(f.built.bodies, Pass::Bodies);
    all_when(f.built.bodies, Pass::Bodies, kind);
    let p4 = when_true(f.settings.atmo_enabled && f.built.atmosphere, Pass::Atmosphere);
    all_when(f.settings.atmo_enabled && f.built.atmosphere, Pass::Atmosphere, kind);
    let p5 = when_true(
        (f.settings.markers_poles || f.settings.markers_equator) && f.built.markers,
        Pass::Markers,
    );
    all_when(
        (f.settings.markers_poles || f.settings.markers_equator) && f.built.markers,
        Pass::Markers,
        kind,
    );
    let p6 = when_true(f.walker(), Pass::CharacterDraw);
    all_when(f.walker(), Pass::CharacterDraw, kind);
    let p7 = when_true(f.trees() && f.built.tree, Pass::TreesDraw);
    all_when(f.trees() && f.built.tree, Pass::TreesDraw, kind);
    all_joined(p1, p2, kind);
    all_joined(p1 + p2, p3, kind);
    all_joined(p1 + p2 + p3, p4, kind);
    all_joined(p1 + p2 + p3 + p4, p5, kind);
    all_joined(p1 + p2 + p3 + p4 + p5, p6, kind);
    all_joined(p1 + p2 + p3 + p4 + p5 + p6, p7, kind);
}

proof fn clusters_come_first(f: Frame)
    requires
        f.nanite,
    ensures
        f.planet_solid().len() > 0,
        f.planet_solid()[0] == Pass::ClusterDraw,
{
    reveal(when_true);
    let p1 = when_true(!f.nanite && f.built.quadtree, Pass::QuadtreeDraw);
    let p2 = when_true(f.nanite, Pass::ClusterDraw);
    let p3 = when_true(f.built.bodies, Pass::Bodies);
    let p4 = when_true(f.settings.atmo_enabled && f.built.atmosphere, Pass::Atmosphere);
    let p5 = when_true(
        (f.settings.markers_poles || f.settings.markers_equator) && f.built.markers,
        Pass::Markers,
    );
    let p6 = when_true(f.walker(), Pass::CharacterDraw);
    assert((p1 + p2)[0] == Pass::ClusterDraw);
    assert((p1 + p2 + p3)[0] == Pass::ClusterDraw);
    assert((p1 + p2 + p3 + p4)[0] == Pass::ClusterDraw);
    assert((p1 + p2 + p3 + p4 + p5)[0] == Pass::ClusterDraw);
    assert((p1 + p2 + p3 + p4 + p5 + p6)[0] == Pass::ClusterDraw);
}

/// What a planet's frame is made of, read from a place in it.
proof fn planet_pass(f: Frame, a: Seq<Pass>, b: Seq<Pass>, i: int)
    requires
        f.mode is Planet,
        a == f.planet_before(),
        b == f.planet_solid(),
        0 <= i < f.opening().len(),
    ensures
        i < a.len() ==> f.opening()[i] == a[i],
        i == a.len() ==> f.opening()[i] == Pass::BeginScene,
        i == a.len() + 1 ==> f.opening()[i] == Pass::Viewport,
        a.len() + 2 <= i < a.len() + 2 + b.len() ==> f.opening()[i] == b[i - a.len() - 2],
        a.len() + 2 + b.len() <= i ==> f.opening()[i] == Pass::WaterSplit,
{
    reveal(when_true);
    let m = seq![Pass::BeginScene, Pass::Viewport];
    let w = when_true(f.splits(), Pass::WaterSplit);
    assert(f.opening() == a + m + b + w);
}

/// A stretch opens the picture once, at `at`.
spec fn opens_at(s: Seq<Pass>, at: int) -> bool {
    &&& 0 <= at < s.len()
    &&& s[at] == Pass::BeginScene
    &&& forall|i: int| 0 <= i < at ==> goes_before(#[trigger] s[i])
    &&& forall|i: int|
        at < i < s.len() ==> !goes_before(#[trigger] s[i]) && s[i] != Pass::BeginScene
}

#[verifier::spinoff_prover]
proof fn planet_opens_once(f: Frame)
    requires
        f.mode is Planet,
    ensures
        opens_at(f.opening(), f.planet_before().len() as int),
{
    let a = f.planet_before();
    let b = f.planet_solid();
    let s = f.opening();
    planet_length(f);
    planet_pass(f, a, b, a.len() as int);
    assert forall|i: int| 0 <= i < a.len() implies goes_before(#[trigger] s[i]) by {
        planet_opens_late(f, i);
    }
    assert forall|i: int| a.len() < i < s.len() implies !goes_before(#[trigger] s[i]) && s[i]
        != Pass::BeginScene by {
        planet_draws_late(f, i);
    }
}

proof fn planet_opens_late(f: Frame, i: int)
    requires
        f.mode is Planet,
        0 <= i < f.planet_before().len(),
        i < f.opening().len(),
    ensures
        goes_before(f.opening()[i]),
{
    let early = |p: Pass| goes_before(p);
    before_is(f, early);
    planet_pass(f, f.planet_before(), f.planet_solid(), i);
    assert(early(f.planet_before()[i]));
}

proof fn planet_draws_late(f: Frame, i: int)
    requires
        f.mode is Planet,
        f.planet_before().len() < i < f.opening().len(),
    ensures
        !goes_before(f.opening()[i]),
        f.opening()[i] != Pass::BeginScene,
{
    let a = f.planet_before();
    let b = f.planet_solid();
    let late = |p: Pass| !goes_before(p) && p != Pass::BeginScene;
    solid_is(f, late);
    planet_pass(f, a, b, i);
    if a.len() + 2 <= i < a.len() + 2 + b.len() {
        assert(late(b[i - a.len() - 2]));
    }
}

/// Where a frame other than the planet's opens its picture.
spec fn other_opening(f: Frame) -> int {
    if (f.mode is Stress && f.built.stress) || (f.mode is SoakTerrain && f.built.quadtree) {
        1
    } else {
        0
    }
}

#[verifier::spinoff_prover]
proof fn others_open_once(f: Frame)
    requires
        f.mode !is Planet,
    ensures
        opens_at(f.opening(), other_opening(f)),
{
    reveal(when_true);
}

/// The picture is opened exactly once in a frame: what copies or computes comes before, and
/// what draws comes after.
pub proof fn picture_opens_once(f: Frame) -> (at: int)
    ensures
        0 <= at < f.opening().len(),
        f.opening()[at] == Pass::BeginScene,
        forall|i: int| 0 <= i < at ==> goes_before(#[trigger] f.opening()[i]),
        forall|i: int|
            at < i < f.opening().len() ==> !goes_before(#[trigger] f.opening()[i])
                && f.opening()[i] != Pass::BeginScene,
{
    if f.mode is Planet {
        planet_opens_once(f);
        f.planet_before().len() as int
    } else {
        others_open_once(f);
        other_opening(f)
    }
}

proof fn planet_length(f: Frame)
    requires
        f.mode is Planet,
    ensures
        f.opening().len() >= f.planet_before().len() + 2 + f.planet_solid().len(),
{
    let m = seq![Pass::BeginScene, Pass::Viewport];
    let w = when_true(f.splits(), Pass::WaterSplit);
    assert(f.opening() == f.planet_before() + m + f.planet_solid() + w);
}

proof fn planet_never_draws(f: Frame, other: Pass, i: int)
    requires
        f.mode is Planet,
        other == (if f.nanite {
            Pass::QuadtreeDraw
        } else {
            Pass::ClusterDraw
        }),
        0 <= i < f.opening().len(),
    ensures
        f.opening()[i] != other,
{
    let a = f.planet_before();
    let b = f.planet_solid();
    let kind = |p: Pass| p != other;
    before_is(f, kind);
    solid_is(f, kind);
    planet_pass(f, a, b, i);
    if i < a.len() {
        assert(kind(a[i]));
    } else if a.len() + 2 <= i < a.len() + 2 + b.len() {
        assert(kind(b[i - a.len() - 2]));
    }
}

proof fn others_draw_no_clusters(f: Frame, i: int)
    requires
        f.mode !is Planet,
        0 <= i < f.opening().len(),
    ensures
        f.opening()[i] != Pass::ClusterDraw,
{
    reveal(when_true);
}

/// The clusters replace the quadtree: a frame draws from one of them at most.
pub proof fn terrain_is_drawn_once(f: Frame)
    ensures
        !(f.opening().contains(Pass::QuadtreeDraw) && f.opening().contains(Pass::ClusterDraw)),
        f.mode is Planet && f.nanite ==> f.opening().contains(Pass::ClusterDraw),
{
    let s = f.opening();
    let other = if f.mode is Planet && f.nanite {
        Pass::QuadtreeDraw
    } else {
        Pass::ClusterDraw
    };
    assert forall|i: int| 0 <= i < s.len() implies #[trigger] s[i] != other by {
        if f.mode is Planet {
            planet_never_draws(f, other, i);
        } else {
            others_draw_no_clusters(f, i);
        }
    }
    if f.mode is Planet && f.nanite {
        let at = f.planet_before().len() as int + 2;
        clusters_come_first(f);
        planet_length(f);
        planet_pass(f, f.planet_before(), f.planet_solid(), at);
        assert(s[at] == Pass::ClusterDraw);
    }
}

/// The sea is drawn once at most, and nothing is drawn over the wind but the panel.
pub proof fn sea_is_drawn_once(f: Frame, split: bool)
    ensures
        f.water(split).len() <= 2,
        f.water(split).len() == 2 ==> f.water(split)[1] is Wind && (f.water(split)[0] is Waves
            || f.water(split)[0] is OceanShell),
{
    reveal(when_true);
}

/// Every frame opens the panel's picture and ends there, whatever was drawn before.
pub proof fn frame_is_closed(f: Frame)
    ensures
        f.closing().contains(Pass::UiPass),
        f.closing().last() == Pass::EndFrame,
        f.settings.taa ==> f.closing()[0] == Pass::Resolve,
{
    reveal(when_true);
    let at: int = if f.settings.taa {
        1
    } else {
        0
    };
    assert(f.closing()[at] == Pass::UiPass);
}

impl Frame {
    /// All steps of a frame that began like this: without a picture nothing but its end, and none
    /// if it was not begun.
    pub open spec fn steps(self, begun: Begun, split: bool) -> Seq<Pass> {
        if begun.answer().draw {
            self.opening() + self.water(split) + self.closing()
        } else if begun.answer().end {
            seq![Pass::EndFrame]
        } else {
            Seq::empty()
        }
    }
}

/// Neither ends the frame nor opens the panel's picture.
spec fn inner(p: Pass) -> bool {
    p != Pass::EndFrame && p != Pass::UiPass
}

proof fn planet_is_inner(f: Frame, i: int)
    requires
        f.mode is Planet,
        0 <= i < f.opening().len(),
    ensures
        inner(f.opening()[i]),
{
    let kind = |p: Pass| inner(p);
    let a = f.planet_before();
    let b = f.planet_solid();
    before_is(f, kind);
    solid_is(f, kind);
    planet_pass(f, a, b, i);
    if i < a.len() {
        assert(kind(a[i]));
    } else if a.len() + 2 <= i < a.len() + 2 + b.len() {
        assert(kind(b[i - a.len() - 2]));
    }
}

proof fn others_are_inner(f: Frame, i: int)
    requires
        f.mode !is Planet,
        0 <= i < f.opening().len(),
    ensures
        inner(f.opening()[i]),
{
    reveal(when_true);
}

proof fn opening_is_inner(f: Frame, i: int)
    requires
        0 <= i < f.opening().len(),
    ensures
        inner(f.opening()[i]),
{
    if f.mode is Planet {
        planet_is_inner(f, i);
    } else {
        others_are_inner(f, i);
    }
}

proof fn water_is_inner(f: Frame, split: bool, i: int)
    requires
        0 <= i < f.water(split).len(),
    ensures
        inner(f.water(split)[i]),
        f.water(split)[i] != Pass::BeginScene,
{
    reveal(when_true);
}

/// Where the closing stretch opens the panel's picture.
spec fn panel_opening(f: Frame) -> int {
    if f.settings.taa {
        1
    } else {
        0
    }
}

proof fn closing_shape(f: Frame, i: int)
    requires
        0 <= i < f.closing().len(),
    ensures
        0 <= panel_opening(f) < f.closing().len() - 1,
        f.closing()[panel_opening(f)] == Pass::UiPass,
        f.closing().last() == Pass::EndFrame,
        f.closing()[i] != Pass::BeginScene,
        f.closing()[i] == Pass::UiPass ==> i == panel_opening(f),
        f.closing()[i] == Pass::EndFrame ==> i == f.closing().len() - 1,
{
    reveal(when_true);
}

/// A frame with a picture opens it once, later opens the panel's picture once, and is ended once,
/// by its last step. One without a picture is ended and nothing else; one that was not begun is
/// left alone.
pub proof fn frames_are_bracketed(f: Frame, begun: Begun, split: bool) -> (at: (int, int))
    ensures
        begun is Picture ==> {
            let s = f.steps(begun, split);
            &&& 0 <= at.0 < at.1 < s.len() - 1
            &&& s[at.0] == Pass::BeginScene
            &&& s[at.1] == Pass::UiPass
            &&& s.last() == Pass::EndFrame
            &&& forall|i: int|
                0 <= i < s.len() ==> {
                    &&& #[trigger] s[i] == Pass::BeginScene ==> i == at.0
                    &&& s[i] == Pass::UiPass ==> i == at.1
                    &&& s[i] == Pass::EndFrame ==> i == s.len() - 1
                }
        },
        begun is NoPicture ==> f.steps(begun, split) == seq![Pass::EndFrame],
        begun is Lost || begun is Failed ==> f.steps(begun, split) == Seq::<Pass>::empty(),
{
    let a = f.opening();
    let w = f.water(split);
    let c = f.closing();
    frame_is_closed(f);
    closing_shape(f, 0);
    let first = picture_opens_once(f);
    let panel = a.len() + w.len() + panel_opening(f);
    if begun is Picture {
        let s = f.steps(begun, split);
        assert(s == a + w + c);
        assert(s[first] == a[first]);
        assert(s[panel] == c[panel_opening(f)]);
        assert(s.last() == c.last());
        assert forall|i: int| 0 <= i < s.len() implies {
            &&& #[trigger] s[i] == Pass::BeginScene ==> i == first
            &&& s[i] == Pass::UiPass ==> i == panel
            &&& s[i] == Pass::EndFrame ==> i == s.len() - 1
        } by {
            if i < a.len() {
                assert(s[i] == a[i]);
                opening_is_inner(f, i);
                if i < first {
                    assert(goes_before(a[i]));
                }
            } else if i < a.len() + w.len() {
                assert(s[i] == w[i - a.len()]);
                water_is_inner(f, split, i - a.len());
            } else {
                assert(s[i] == c[i - a.len() - w.len()]);
                closing_shape(f, i - a.len() - w.len());
            }
        }
    }
    (first, panel)
}

/// The steps of a frame that only shows how far the load is.
pub open spec fn loading_steps(begun: Begun, panel: bool) -> Seq<Pass> {
    if begun.answer().draw {
        seq![Pass::BeginScene, Pass::Viewport, Pass::UiPass] + when_true(panel, Pass::Panel) + seq![
            Pass::EndFrame,
        ]
    } else if begun.answer().end {
        seq![Pass::EndFrame]
    } else {
        Seq::empty()
    }
}

/// What a frame draws that only shows how far the load is.
pub fn loading_passes(begun: Begun, panel: bool) -> (list: Vec<Pass>)
    ensures
        list@ == loading_steps(begun, panel),
{
    let mut list: Vec<Pass> = Vec::new();
    let a = after_begin(begun);
    if a.draw {
        list.push(Pass::BeginScene);
        list.push(Pass::Viewport);
        list.push(Pass::UiPass);
        push_if(&mut list, panel, Pass::Panel);
    }
    if a.draw || a.end {
        list.push(Pass::EndFrame);
    }
    assert(list@ =~= loading_steps(begun, panel));
    list
}

/// A frame of the load is cleared, takes the window and draws the panel, where there is one, and
/// nothing else, and is ended last. One that was begun without a picture is only ended.
pub proof fn loading_frames_are_plain(begun: Begun, panel: bool)
    ensures
        begun is Lost || begun is Failed ==> loading_steps(begun, panel).len() == 0,
        begun is NoPicture ==> loading_steps(begun, panel) == seq![Pass::EndFrame],
        begun is Picture ==> {
            let list = loading_steps(begun, panel);
            &&& list.first() is BeginScene
            &&& list[1] is Viewport
            &&& list[2] is UiPass
            &&& list.last() is EndFrame
            &&& (list.contains(Pass::Panel) <==> panel)
            &&& panel ==> list.len() == 5
            &&& !panel ==> list.len() == 4
        },
{
    reveal(when_true);
    let list = loading_steps(begun, panel);
    if begun is Picture && panel {
        assert(list =~= seq![
            Pass::BeginScene,
            Pass::Viewport,
            Pass::UiPass,
            Pass::Panel,
            Pass::EndFrame,
        ]);
        assert(list[3] == Pass::Panel);
    } else if begun is Picture {
        assert(list =~= seq![Pass::BeginScene, Pass::Viewport, Pass::UiPass, Pass::EndFrame]);
    }
}

} // verus!
