//! Where everything stands on the panel.
use vstd::prelude::*;

use crate::shell::panel::{
    detail_items, nanite_items, navigation_items, only_if, panel_items, report_items, scene_items,
    switch_of, Available, Button, Feature, Item, Section,
};
use crate::shell::place::Place;
use crate::shell::settings::{Knob, Toggle};

verus! {

/// How far down the panel a section begins.
pub open spec fn section_rank(s: Section) -> int {
    match s {
        Section::Navigation => 0,
        Section::Performance => 5,
        Section::Time => 7,
        Section::View => 10,
        Section::Ocean => 27,
        Section::Wind => 34,
        Section::Atmosphere => 41,
        Section::Clouds => 45,
        Section::Reference => 59,
        Section::Trees => 63,
        Section::Nanite => 67,
        Section::PlanetLod => 71,
        Section::Stress => 75,
        Section::KeyHints => 77,
    }
}

/// How far down the panel a switch stands: each in the section of what it switches.
pub open spec fn toggle_rank(t: Toggle) -> int {
    match t {
        Toggle::Paused => 8,
        Toggle::Wireframe => 25,
        Toggle::Taa => 26,
        Toggle::Ocean => 28,
        Toggle::Waves => 31,
        Toggle::Wind => 35,
        Toggle::Atmosphere => 42,
        Toggle::Clouds => 46,
        Toggle::Equator => 60,
        Toggle::Poles => 61,
        Toggle::Rivers => 62,
        Toggle::Trees => 64,
        Toggle::Nanite => 68,
    }
}

/// How far down the panel a slider stands: each below its switch, in the same section.
pub open spec fn knob_rank(k: Knob) -> int {
    match k {
        Knob::TimeScale => 9,
        Knob::SeaLevel => 29,
        Knob::Choppiness => 32,
        Knob::Foam => 33,
        Knob::WindSpeed => 36,
        Knob::WindWidth => 37,
        Knob::WindAltitude => 38,
        Knob::WindGust => 39,
        Knob::WindIntensity => 40,
        Knob::AtmoHeight => 43,
        Knob::AtmoDensity => 44,
        Knob::CloudCoverage => 47,
        Knob::CloudDensity => 48,
        Knob::CloudBase => 49,
        Knob::CloudThickness => 50,
        Knob::CloudWind => 51,
        Knob::CloudScale => 52,
        Knob::CloudType => 53,
        Knob::CloudMoisture => 54,
        Knob::CloudScatter => 55,
        Knob::CloudPowder => 56,
        Knob::CloudCurl => 57,
        Knob::CloudSteps => 58,
        Knob::TreeDensity => 65,
        Knob::Threshold => 69,
    }
}

/// How far down the panel an item stands, where everything is on it; below nought for what is never
/// on it.
pub open spec fn rank(item: Item) -> int {
    match item {
        Item::Section(s) => section_rank(s),
        Item::Toggle(t) => toggle_rank(t),
        Item::Knob(k) => knob_rank(k),
        Item::View(v) => if v <= 13 {
            11 + v
        } else {
            -1
        },
        Item::Button(b) => match b {
            Button::CycleMode => 3,
            Button::ExitToOrbit => 4,
            Button::Dismiss => -1,
        },
        Item::Rule => 30,
        Item::Place => 1,
        Item::Altitude => 2,
        Item::FrameRate => 6,
        Item::ResidentChunks => 72,
        Item::BuildQueue => 73,
        Item::Levels => 74,
        Item::StressReport => 76,
        Item::Missing(f) => match f {
            Feature::Flora => 66,
            Feature::Nanite => 70,
        },
        Item::Hint(n) => if n < 5 {
            78 + n
        } else {
            -1
        },
    }
}

/// The item stands on the panel: the way off the ground for a walker only, the word that a part is
/// missing where it is, the readouts where there is something to read, and all else always.
pub open spec fn is_offered(
    item: Item,
    place: Place,
    available: Available,
    planet: bool,
    stress: bool,
) -> bool {
    &&& rank(item) >= 0
    &&& match item {
        Item::Button(Button::ExitToOrbit) => place is Surface,
        Item::Missing(Feature::Flora) => !available.flora,
        Item::Missing(Feature::Nanite) => !available.nanite,
        Item::Section(Section::PlanetLod)
        | Item::ResidentChunks
        | Item::BuildQueue
        | Item::Levels => planet,
        Item::Section(Section::Stress) | Item::StressReport => stress,
        _ => true,
    }
}

/// The items stand in a row: from rank `lo` on, none left out.
spec fn in_a_row(s: Seq<Item>, lo: int) -> bool {
    forall|i: int| 0 <= i < s.len() ==> rank(#[trigger] s[i]) == lo + i
}

/// The items come in their order, none twice, with ranks from `lo` up to but not including `hi`.
spec fn ranked(s: Seq<Item>, lo: int, hi: int) -> bool {
    &&& forall|i: int| 0 <= i < s.len() ==> lo <= rank(#[trigger] s[i]) < hi
    &&& forall|i: int, j: int|
        0 <= i < j < s.len() ==> rank(#[trigger] s[i]) < rank(#[trigger] s[j])
}

/// No two items stand at one place.
pub proof fn places_are_apart(a: Item, b: Item)
    requires
        rank(a) >= 0,
        rank(a) == rank(b),
    ensures
        a == b,
{
}

proof fn row_holds(s: Seq<Item>, lo: int, item: Item)
    requires
        lo >= 0,
        in_a_row(s, lo),
    ensures
        ranked(s, lo, lo + s.len()),
        s.contains(item) <==> lo <= rank(item) < lo + s.len(),
{
    if lo <= rank(item) < lo + s.len() {
        let i = rank(item) - lo;
        assert(rank(s[i]) == lo + i);
        places_are_apart(s[i], item);
    }
    if s.contains(item) {
        let i = choose|i: int| 0 <= i < s.len() && s[i] == item;
        assert(rank(s[i]) == lo + i);
    }
}

proof fn joined(a: Seq<Item>, b: Seq<Item>, lo: int, mid: int, hi: int, item: Item)
    requires
        ranked(a, lo, mid),
        ranked(b, mid, hi),
        lo <= mid <= hi,
    ensures
        ranked(a + b, lo, hi),
        (a + b).contains(item) <==> a.contains(item) || b.contains(item),
{
    let s = a + b;
    assert forall|i: int| 0 <= i < s.len() implies lo <= rank(#[trigger] s[i]) < hi by {
        if i < a.len() {
            assert(s[i] == a[i]);
        } else {
            assert(s[i] == b[i - a.len()]);
        }
    }
    assert forall|i: int, j: int| 0 <= i < j < s.len() implies rank(#[trigger] s[i]) < rank(
        #[trigger] s[j],
    ) by {
        if j < a.len() {
            assert(s[i] == a[i] && s[j] == a[j]);
        } else if i >= a.len() {
            assert(s[i] == b[i - a.len()] && s[j] == b[j - a.len()]);
        } else {
            assert(s[i] == a[i] && s[j] == b[j - a.len()]);
        }
    }
    if a.contains(item) {
        let i = choose|i: int| 0 <= i < a.len() && a[i] == item;
        assert(s[i] == item);
    }
    if b.contains(item) {
        let i = choose|i: int| 0 <= i < b.len() && b[i] == item;
        assert(s[a.len() + i] == item);
    }
    if s.contains(item) {
        let i = choose|i: int| 0 <= i < s.len() && s[i] == item;
        if i < a.len() {
            assert(a[i] == item);
        } else {
            assert(b[i - a.len()] == item);
        }
    }
}

/// A row that is there on a condition.
proof fn row_on_condition(s: Seq<Item>, lo: int, cond: bool, item: Item)
    requires
        lo >= 0,
        in_a_row(s, lo),
    ensures
        ranked(only_if(cond, s), lo, lo + s.len()),
        only_if(cond, s).contains(item) <==> cond && lo <= rank(item) < lo + s.len(),
{
    row_holds(s, lo, item);
}

proof fn navigation_in_order(place: Place, item: Item)
    ensures
        ranked(navigation_items(place), 0, 5),
        navigation_items(place).contains(item) <==> 0 <= rank(item) < 4 || (place is Surface
            && rank(item) == 4),
{
    let a = seq![
        Item::Section(Section::Navigation),
        Item::Place,
        Item::Altitude,
        Item::Button(Button::CycleMode),
    ];
    let b = seq![Item::Button(Button::ExitToOrbit)];
    assert(in_a_row(a, 0));
    assert(in_a_row(b, 4));
    row_holds(a, 0, item);
    row_on_condition(b, 4, place is Surface, item);
    joined(a, only_if(place is Surface, b), 0, 4, 5, item);
}

#[verifier::spinoff_prover]
proof fn scene_in_a_row()
    ensures
        scene_items().len() == 40,
        in_a_row(scene_items(), 5),
{
}

/// Clouds, reference marks and trees, all of them.
spec fn details() -> Seq<Item> {
    seq![
        Item::Section(Section::Clouds),
        Item::Toggle(Toggle::Clouds),
        Item::Knob(Knob::CloudCoverage),
        Item::Knob(Knob::CloudDensity),
        Item::Knob(Knob::CloudBase),
        Item::Knob(Knob::CloudThickness),
        Item::Knob(Knob::CloudWind),
        Item::Knob(Knob::CloudScale),
        Item::Knob(Knob::CloudType),
        Item::Knob(Knob::CloudMoisture),
        Item::Knob(Knob::CloudScatter),
        Item::Knob(Knob::CloudPowder),
        Item::Knob(Knob::CloudCurl),
        Item::Knob(Knob::CloudSteps),
        Item::Section(Section::Reference),
        Item::Toggle(Toggle::Equator),
        Item::Toggle(Toggle::Poles),
        Item::Toggle(Toggle::Rivers),
        Item::Section(Section::Trees),
        Item::Toggle(Toggle::Trees),
        Item::Knob(Knob::TreeDensity),
    ]
}

#[verifier::spinoff_prover]
proof fn details_in_a_row()
    ensures
        details().len() == 21,
        in_a_row(details(), 45),
{
}

proof fn detail_in_order(available: Available, item: Item)
    ensures
        ranked(detail_items(available), 45, 67),
        detail_items(available).contains(item) <==> 45 <= rank(item) < 66 || (!available.flora
            && rank(item) == 66),
{
    let b = seq![Item::Missing(Feature::Flora)];
    details_in_a_row();
    row_holds(details(), 45, item);
    assert(in_a_row(b, 66));
    row_on_condition(b, 66, !available.flora, item);
    joined(details(), only_if(!available.flora, b), 45, 66, 67, item);
    assert(detail_items(available) == details() + only_if(!available.flora, b));
}

proof fn nanite_in_order(available: Available, item: Item)
    ensures
        ranked(nanite_items(available), 67, 71),
        nanite_items(available).contains(item) <==> 67 <= rank(item) < 70 || (!available.nanite
            && rank(item) == 70),
{
    let a = seq![
        Item::Section(Section::Nanite),
        Item::Toggle(Toggle::Nanite),
        Item::Knob(Knob::Threshold),
    ];
    let b = seq![Item::Missing(Feature::Nanite)];
    assert(in_a_row(a, 67));
    assert(in_a_row(b, 70));
    row_holds(a, 67, item);
    row_on_condition(b, 70, !available.nanite, item);
    joined(a, only_if(!available.nanite, b), 67, 70, 71, item);
}

proof fn report_in_order(planet: bool, stress: bool, item: Item)
    ensures
        ranked(report_items(planet, stress), 71, 83),
        report_items(planet, stress).contains(item) <==> (planet && 71 <= rank(item) < 75) || (stress
            && 75 <= rank(item) < 77) || 77 <= rank(item) < 83,
{
    let a = seq![
        Item::Section(Section::PlanetLod),
        Item::ResidentChunks,
        Item::BuildQueue,
        Item::Levels,
    ];
    let b = seq![Item::Section(Section::Stress), Item::StressReport];
    let c = seq![
        Item::Section(Section::KeyHints),
        Item::Hint(0),
        Item::Hint(1),
        Item::Hint(2),
        Item::Hint(3),
        Item::Hint(4),
    ];
    assert(in_a_row(a, 71));
    assert(in_a_row(b, 75));
    assert(in_a_row(c, 77));
    row_on_condition(a, 71, planet, item);
    row_on_condition(b, 75, stress, item);
    row_holds(c, 77, item);
    joined(only_if(planet, a), only_if(stress, b), 71, 75, 77, item);
    joined(only_if(planet, a) + only_if(stress, b), c, 71, 77, 83, item);
}

proof fn panel_in_order(
    place: Place,
    available: Available,
    planet: bool,
    stress: bool,
    item: Item,
)
    ensures
        ranked(panel_items(place, available, planet, stress), 0, 83),
        panel_items(place, available, planet, stress).contains(item) <==> is_offered(
            item,
            place,
            available,
            planet,
            stress,
        ),
{
    navigation_in_order(place, item);
    scene_in_a_row();
    row_holds(scene_items(), 5, item);
    detail_in_order(available, item);
    nanite_in_order(available, item);
    report_in_order(planet, stress, item);
    let a = navigation_items(place) + scene_items();
    joined(navigation_items(place), scene_items(), 0, 5, 45, item);
    let b = a + detail_items(available);
    joined(a, detail_items(available), 0, 45, 67, item);
    let c = b + nanite_items(available);
    joined(b, nanite_items(available), 0, 67, 71, item);
    joined(c, report_items(planet, stress), 0, 71, 83, item);
}

/// On the panel stands what is offered, and nothing else: every switch and every slider, and every
/// view, once each.
pub proof fn panel_offers_what_there_is(
    place: Place,
    available: Available,
    planet: bool,
    stress: bool,
    item: Item,
)
    ensures
        panel_items(place, available, planet, stress).contains(item) <==> is_offered(
            item,
            place,
            available,
            planet,
            stress,
        ),
        item is Toggle || item is Knob ==> panel_items(place, available, planet, stress).contains(
            item,
        ),
{
    panel_in_order(place, available, planet, stress, item);
}

/// Everything stands in its order, from the top down.
pub proof fn panel_goes_top_down(
    place: Place,
    available: Available,
    planet: bool,
    stress: bool,
    i: int,
    j: int,
)
    requires
        0 <= i < j < panel_items(place, available, planet, stress).len(),
    ensures
        rank(panel_items(place, available, planet, stress)[i]) < rank(
            panel_items(place, available, planet, stress)[j],
        ),
{
    panel_in_order(place, available, planet, stress, Item::Rule);
}

/// A slider hangs on a switch that stands above it in the same section, so one sees why it cannot be
/// moved; the pace of time and the threshold of the clusters hang on none.
pub proof fn sliders_hang_on_switches_above(k: Knob, s: Section)
    ensures
        switch_of(k) is None <==> k is TimeScale || k is Threshold,
        switch_of(k) matches Some(t) ==> toggle_rank(t) < knob_rank(k) && !(toggle_rank(t)
            < section_rank(s) < knob_rank(k)),
        switch_of(k) matches Some(t) ==> forall|u: Toggle|
            !(toggle_rank(t) < #[trigger] toggle_rank(u) < knob_rank(k)),
{
}

} // verus!
