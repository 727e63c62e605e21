//! What a frame does and in which order, pass by pass.
use vstd::prelude::*;

use crate::shell::begin::Begun;
use crate::shell::frame::{when_true, Frame, Pass};
use crate::shell::launch::RunMode;

verus! {

/// The pass belongs into a frame that has a picture; `split` says whether the picture was split.
pub open spec fn is_due(f: Frame, split: bool, p: Pass) -> bool {
    let planet = f.mode is Planet;
    let grounded = planet && f.place is Surface;
    let sea = planet && f.settings.ocean_enabled;
    let parted = sea && f.built.waves && split;
    match p {
        Pass::BeginScene | Pass::UiPass | Pass::EndFrame => true,
        Pass::Viewport => planet || f.mode is SoakTerrain,
        Pass::QuadtreeUpdate | Pass::QuadtreeDraw => f.built.quadtree && (f.mode is SoakTerrain || (
        planet && !f.nanite)),
        Pass::ClusterChoice => planet && f.nanite && f.choose,
        Pass::ClusterUpdate | Pass::ClusterCull | Pass::ClusterDraw => planet && f.nanite,
        Pass::CharacterPose | Pass::CharacterDraw => grounded && f.walker_seen && f.built.character,
        Pass::TreesPrepare => grounded && f.settings.flora_enabled && f.built.trees,
        Pass::TreesDraw => grounded && f.settings.flora_enabled && f.built.trees && f.built.tree,
        Pass::StressUpload | Pass::StressDraw => f.mode is Stress && f.built.stress,
        Pass::Bodies => planet && f.built.bodies,
        Pass::Atmosphere => planet && f.settings.atmo_enabled && f.built.atmosphere,
        Pass::Markers => planet && f.built.markers && (f.settings.markers_poles
            || f.settings.markers_equator),
        Pass::MarkerScene => f.mode is Markers && f.built.scene,
        Pass::WaterSplit => sea && f.built.waves,
        Pass::Waves { detail, intensity } => parted && detail == (f.settings.wave_enabled && f.low)
            && intensity == (f.settings.view_mode == 12),
        Pass::OceanShell => sea && !parted && f.built.ocean,
        Pass::Wind { split } => planet && f.settings.wind_enabled && f.built.wind && split == parted,
        Pass::Resolve => f.settings.taa,
        Pass::Panel => f.built.panel,
    }
}

/// How late in a frame a pass comes. What copies or computes comes before the picture is opened;
/// what is solid before what one sees through, the sea after the land, the wind over the sea, and
/// the panel over all.
pub open spec fn rank(p: Pass) -> int {
    match p {
        Pass::QuadtreeUpdate => 0,
        Pass::ClusterChoice => 1,
        Pass::ClusterUpdate => 2,
        Pass::ClusterCull => 3,
        Pass::CharacterPose => 4,
        Pass::TreesPrepare => 5,
        Pass::StressUpload => 6,
        Pass::BeginScene => 7,
        Pass::Viewport => 8,
        Pass::QuadtreeDraw => 9,
        Pass::ClusterDraw => 10,
        Pass::Bodies => 11,
        Pass::Atmosphere => 12,
        Pass::Markers => 13,
        Pass::CharacterDraw => 14,
        Pass::TreesDraw => 15,
        Pass::MarkerScene => 16,
        Pass::StressDraw => 17,
        Pass::WaterSplit => 18,
        Pass::Waves { .. } => 19,
        Pass::OceanShell => 20,
        Pass::Wind { .. } => 21,
        Pass::Resolve => 22,
        Pass::UiPass => 23,
        Pass::Panel => 24,
        Pass::EndFrame => 25,
    }
}

/// The passes come in their order, none twice, with ranks from `lo` up to but not including `hi`.
spec fn ranked(s: Seq<Pass>, lo: int, hi: int) -> bool {
    &&& forall|i: int| 0 <= i < s.len() ==> lo <= rank(#[trigger] s[i]) < hi
    &&& forall|i: int, j: int|
        0 <= i < j < s.len() ==> rank(#[trigger] s[i]) < rank(#[trigger] s[j])
}

proof fn ranked_join(a: Seq<Pass>, b: Seq<Pass>, lo: int, mid: int, hi: int)
    requires
        ranked(a, lo, mid),
        ranked(b, mid, hi),
        lo <= mid <= hi,
    ensures
        ranked(a + b, lo, hi),
{
    let s = a + b;
    assert forall|i: int| 0 <= i < s.len() implies lo <= rank(#[trigger] s[i]) < hi by {
        if i < a.len() {
            assert(s[i] == a[i]);
        } else {
            assert(s[i] == b[i - a.len()]);
        }
    }
    assert forall|i: int, j: int| 0 <= i < j < s.len() implies rank(#[trigger] s[i]) < rank(
        #[trigger] s[j],
    ) by {
        if j < a.len() {
            assert(s[i] == a[i] && s[j] == a[j]);
        } else if i >= a.len() {
            assert(s[i] == b[i - a.len()] && s[j] == b[j - a.len()]);
        } else {
            assert(s[i] == a[i] && s[j] == b[j - a.len()]);
        }
    }
}

proof fn ranked_one(cond: bool, p: Pass)
    ensures
        ranked(when_true(cond, p), rank(p), rank(p) + 1),
        ranked(seq![p], rank(p), rank(p) + 1),
{
    reveal(when_true);
}

proof fn ranked_wider(s: Seq<Pass>, lo: int, hi: int, low: int, high: int)
    requires
        ranked(s, lo, hi),
        low <= lo,
        hi <= high,
    ensures
        ranked(s, low, high),
{
}

proof fn ranked_then(a: Seq<Pass>, lo: int, mid: int, cond: bool, p: Pass)
    requires
        ranked(a, lo, mid),
        lo <= mid <= rank(p),
    ensures
        ranked(a + when_true(cond, p), lo, rank(p) + 1),
{
    ranked_one(cond, p);
    ranked_wider(a, lo, mid, lo, rank(p));
    ranked_join(a, when_true(cond, p), lo, rank(p), rank(p) + 1);
}

proof fn held_by_both(a: Seq<Pass>, b: Seq<Pass>, p: Pass)
    ensures
        (a + b).contains(p) <==> a.contains(p) || b.contains(p),
{
    let s = a + b;
    if a.contains(p) {
        let i = choose|i: int| 0 <= i < a.len() && a[i] == p;
        assert(s[i] == p);
    }
    if b.contains(p) {
        let i = choose|i: int| 0 <= i < b.len() && b[i] == p;
        assert(s[a.len() + i] == p);
    }
    if s.contains(p) {
        let i = choose|i: int| 0 <= i < s.len() && s[i] == p;
        if i < a.len() {
            assert(a[i] == p);
        } else {
            assert(b[i - a.len()] == p);
        }
    }
}

proof fn held_by_one(cond: bool, q: Pass, p: Pass)
    ensures
        when_true(cond, q).contains(p) <==> cond && p == q,
        seq![q].contains(p) <==> p == q,
{
    reveal(when_true);
    assert(seq![q][0] == q);
    if cond {
        assert(when_true(cond, q)[0] == q);
    }
}

/// `a` with the pass where the condition holds: what that holds.
proof fn held_then(a: Seq<Pass>, cond: bool, q: Pass, p: Pass)
    ensures
        (a + when_true(cond, q)).contains(p) <==> a.contains(p) || (cond && p == q),
{
    held_by_both(a, when_true(cond, q), p);
    held_by_one(cond, q, p);
}

proof fn before_in_order(f: Frame, p: Pass)
    ensures
        ranked(f.planet_before(), 0, 6),
        f.planet_before().contains(p) <==> rank(p) < 6 && is_due(
            Frame { mode: RunMode::Planet, ..f },
            false,
            p,
        ),
{
    let q = !f.nanite && f.built.quadtree;
    let a1 = when_true(q, Pass::QuadtreeUpdate);
    ranked_one(q, Pass::QuadtreeUpdate);
    held_by_one(q, Pass::QuadtreeUpdate, p);
    let c = f.nanite && f.choose;
    let a2 = a1 + when_true(c, Pass::ClusterChoice);
    ranked_then(a1, 0, 1, c, Pass::ClusterChoice);
    held_then(a1, c, Pass::ClusterChoice, p);
    let a3 = a2 + when_true(f.nanite, Pass::ClusterUpdate);
    ranked_then(a2, 0, 2, f.nanite, Pass::ClusterUpdate);
    held_then(a2, f.nanite, Pass::ClusterUpdate, p);
    let a4 = a3 + when_true(f.nanite, Pass::ClusterCull);
    ranked_then(a3, 0, 3, f.nanite, Pass::ClusterCull);
    held_then(a3, f.nanite, Pass::ClusterCull, p);
    let a5 = a4 + when_true(f.walker(), Pass::CharacterPose);
    ranked_then(a4, 0, 4, f.walker(), Pass::CharacterPose);
    held_then(a4, f.walker(), Pass::CharacterPose, p);
    ranked_then(a5, 0, 5, f.trees(), Pass::TreesPrepare);
    held_then(a5, f.trees(), Pass::TreesPrepare, p);
    assert(f.planet_before() == a5 + when_true(f.trees(), Pass::TreesPrepare));
}

proof fn solid_in_order(f: Frame, p: Pass)
    ensures
        ranked(f.planet_solid(), 9, 16),
        f.planet_solid().contains(p) <==> 9 <= rank(p) < 16 && is_due(
            Frame { mode: RunMode::Planet, ..f },
            false,
            p,
        ),
{
    let q = !f.nanite && f.built.quadtree;
    let a1 = when_true(q, Pass::QuadtreeDraw);
    ranked_one(q, Pass::QuadtreeDraw);
    held_by_one(q, Pass::QuadtreeDraw, p);
    let a2 = a1 + when_true(f.nanite, Pass::ClusterDraw);
    ranked_then(a1, 9, 10, f.nanite, Pass::ClusterDraw);
    held_then(a1, f.nanite, Pass::ClusterDraw, p);
    let a3 = a2 + when_true(f.built.bodies, Pass::Bodies);
    ranked_then(a2, 9, 11, f.built.bodies, Pass::Bodies);
    held_then(a2, f.built.bodies, Pass::Bodies, p);
    let air = f.settings.atmo_enabled && f.built.atmosphere;
    let a4 = a3 + when_true(air, Pass::Atmosphere);
    ranked_then(a3, 9, 12, air, Pass::Atmosphere);
    held_then(a3, air, Pass::Atmosphere, p);
    let marks = (f.settings.markers_poles || f.settings.markers_equator) && f.built.markers;
    let a5 = a4 + when_true(marks, Pass::Markers);
    ranked_then(a4, 9, 13, marks, Pass::Markers);
    held_then(a4, marks, Pass::Markers, p);
    let a6 = a5 + when_true(f.walker(), Pass::CharacterDraw);
    ranked_then(a5, 9, 14, f.walker(), Pass::CharacterDraw);
    held_then(a5, f.walker(), Pass::CharacterDraw, p);
    let grown = f.trees() && f.built.tree;
    ranked_then(a6, 9, 15, grown, Pass::TreesDraw);
    held_then(a6, grown, Pass::TreesDraw, p);
    assert(f.planet_solid() == a6 + when_true(grown, Pass::TreesDraw));
}

proof fn opened_in_order(p: Pass)
    ensures
        ranked(seq![Pass::BeginScene, Pass::Viewport], 7, 9),
        seq![Pass::BeginScene, Pass::Viewport].contains(p) <==> p == Pass::BeginScene || p
            == Pass::Viewport,
        ranked(seq![Pass::BeginScene], 7, 8),
        seq![Pass::BeginScene].contains(p) <==> p == Pass::BeginScene,
{
    assert(seq![Pass::BeginScene, Pass::Viewport][0] == Pass::BeginScene);
    assert(seq![Pass::BeginScene, Pass::Viewport][1] == Pass::Viewport);
    assert(seq![Pass::BeginScene][0] == Pass::BeginScene);
}

proof fn planet_opening_in_order(f: Frame, p: Pass)
    requires
        f.mode is Planet,
    ensures
        ranked(f.opening(), 0, 19),
        f.opening().contains(p) <==> rank(p) < 19 && is_due(f, false, p),
{
    let two = seq![Pass::BeginScene, Pass::Viewport];
    before_in_order(f, p);
    solid_in_order(f, p);
    opened_in_order(p);
    assert(Frame { mode: RunMode::Planet, ..f } == f);
    let a = f.planet_before() + two;
    ranked_wider(f.planet_before(), 0, 6, 0, 7);
    ranked_join(f.planet_before(), two, 0, 7, 9);
    held_by_both(f.planet_before(), two, p);
    let b = a + f.planet_solid();
    ranked_join(a, f.planet_solid(), 0, 9, 16);
    held_by_both(a, f.planet_solid(), p);
    ranked_then(b, 0, 16, f.splits(), Pass::WaterSplit);
    held_then(b, f.splits(), Pass::WaterSplit, p);
    assert(f.opening() == b + when_true(f.splits(), Pass::WaterSplit));
}

proof fn other_opening_in_order(f: Frame, p: Pass)
    requires
        f.mode !is Planet,
    ensures
        ranked(f.opening(), 0, 19),
        f.opening().contains(p) <==> rank(p) < 19 && is_due(f, false, p),
{
    opened_in_order(p);
    let one = seq![Pass::BeginScene];
    let two = seq![Pass::BeginScene, Pass::Viewport];
    match f.mode {
        RunMode::Markers => {
            ranked_then(one, 7, 8, f.built.scene, Pass::MarkerScene);
            held_then(one, f.built.scene, Pass::MarkerScene, p);
            ranked_wider(f.opening(), 7, 17, 0, 19);
        },
        RunMode::Stress => {
            let first = when_true(f.built.stress, Pass::StressUpload);
            ranked_one(f.built.stress, Pass::StressUpload);
            held_by_one(f.built.stress, Pass::StressUpload, p);
            ranked_join(first, one, 6, 7, 8);
            held_by_both(first, one, p);
            ranked_then(first + one, 6, 8, f.built.stress, Pass::StressDraw);
            held_then(first + one, f.built.stress, Pass::StressDraw, p);
            ranked_wider(f.opening(), 6, 18, 0, 19);
        },
        _ => {
            let first = when_true(f.built.quadtree, Pass::QuadtreeUpdate);
            ranked_one(f.built.quadtree, Pass::QuadtreeUpdate);
            held_by_one(f.built.quadtree, Pass::QuadtreeUpdate, p);
            ranked_wider(first, 0, 1, 0, 7);
            ranked_join(first, two, 0, 7, 9);
            held_by_both(first, two, p);
            ranked_then(first + two, 0, 9, f.built.quadtree, Pass::QuadtreeDraw);
            held_then(first + two, f.built.quadtree, Pass::QuadtreeDraw, p);
            ranked_wider(f.opening(), 0, 10, 0, 19);
        },
    }
}

proof fn water_in_order(f: Frame, split: bool, p: Pass)
    ensures
        ranked(f.water(split), 19, 22),
        f.water(split).contains(p) <==> 19 <= rank(p) < 22 && is_due(f, split, p),
{
    if f.mode is Planet {
        let parted = f.splits() && split;
        let waves = Pass::Waves {
            detail: f.settings.wave_enabled && f.low,
            intensity: f.settings.view_mode == 12,
        };
        let a = when_true(parted, waves);
        ranked_one(parted, waves);
        held_by_one(parted, waves, p);
        let shell = f.settings.ocean_enabled && !parted && f.built.ocean;
        let b = a + when_true(shell, Pass::OceanShell);
        ranked_then(a, 19, 20, shell, Pass::OceanShell);
        held_then(a, shell, Pass::OceanShell, p);
        let wind = f.settings.wind_enabled && f.built.wind;
        let blow = Pass::Wind { split: parted };
        ranked_then(b, 19, 21, wind, blow);
        held_then(b, wind, blow, p);
        assert(f.water(split) == b + when_true(wind, blow));
    }
}

proof fn closing_in_order(f: Frame, p: Pass)
    ensures
        ranked(f.closing(), 22, 26),
        f.closing().contains(p) <==> rank(p) >= 22 && is_due(f, false, p),
{
    let ui = seq![Pass::UiPass];
    let end = seq![Pass::EndFrame];
    let a = when_true(f.settings.taa, Pass::Resolve);
    ranked_one(f.settings.taa, Pass::Resolve);
    held_by_one(f.settings.taa, Pass::Resolve, p);
    ranked_one(true, Pass::UiPass);
    held_by_one(true, Pass::UiPass, p);
    ranked_join(a, ui, 22, 23, 24);
    held_by_both(a, ui, p);
    let b = a + ui;
    ranked_then(b, 22, 24, f.built.panel, Pass::Panel);
    held_then(b, f.built.panel, Pass::Panel, p);
    let c = b + when_true(f.built.panel, Pass::Panel);
    ranked_one(true, Pass::EndFrame);
    held_by_one(true, Pass::EndFrame, p);
    ranked_join(c, end, 22, 25, 26);
    held_by_both(c, end, p);
    assert(f.closing() == c + end);
}

/// A frame with a picture does what is due and nothing else.
pub proof fn frames_do_what_is_due(f: Frame, split: bool, p: Pass)
    ensures
        f.steps(Begun::Picture, split).contains(p) <==> is_due(f, split, p),
        f.opening().contains(p) <==> rank(p) <= 18 && is_due(f, split, p),
        f.water(split).contains(p) <==> 19 <= rank(p) <= 21 && is_due(f, split, p),
        f.closing().contains(p) <==> rank(p) >= 22 && is_due(f, split, p),
{
    if f.mode is Planet {
        planet_opening_in_order(f, p);
    } else {
        other_opening_in_order(f, p);
    }
    water_in_order(f, split, p);
    closing_in_order(f, p);
    held_by_both(f.opening(), f.water(split), p);
    held_by_both(f.opening() + f.water(split), f.closing(), p);
}

/// And it does each thing once, in its order.
pub proof fn frames_go_in_order(f: Frame, split: bool, i: int, j: int)
    requires
        0 <= i < j < f.steps(Begun::Picture, split).len(),
    ensures
        rank(f.steps(Begun::Picture, split)[i]) < rank(f.steps(Begun::Picture, split)[j]),
{
    let p = Pass::EndFrame;
    if f.mode is Planet {
        planet_opening_in_order(f, p);
    } else {
        other_opening_in_order(f, p);
    }
    water_in_order(f, split, p);
    closing_in_order(f, p);
    ranked_join(f.opening(), f.water(split), 0, 19, 22);
    ranked_join(f.opening() + f.water(split), f.closing(), 0, 22, 26);
    assert(ranked(f.steps(Begun::Picture, split), 0, 26));
}

} // verus!
