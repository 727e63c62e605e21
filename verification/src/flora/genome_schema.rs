//! Gene ranges and tiers of the plant genome.
//!
//! Gene values are whole millionths.
use vstd::prelude::*;

use crate::text::same_text;

verus! {

/// How deep a change of a gene goes.
#[derive(Clone, Copy, Debug, PartialEq, Eq, Structural)]
pub enum Tier {
    Structure,
    Proportions,
    Cosmetic,
}

/// What a gene ranges over: an interval of millionths, or seeds.
#[derive(Clone, Copy, Debug, PartialEq, Eq, Structural)]
pub enum GeneKind {
    Continuous { lo: i64, hi: i64 },
    Seed,
}

/// What strings say.
pub open spec fn texts(names: Seq<&'static str>) -> Seq<Seq<char>> {
    names.map_values(|s: &'static str| s@)
}

/// The structural genes, in order.
pub open spec fn structural_names() -> Seq<Seq<char>> {
    seq![
        "branchiness"@,
        "branchFactorN"@,
        "tillering"@,
        "radialOrder"@,
        "appendageBreadth"@,
        "appendageDensity"@,
        "segmentation"@,
        "trunkHeight"@,
        "stemSpread"@,
        "rosette"@,
        "whorl"@,
        "crownStart"@,
        "rootCount"@,
        "rootDepth"@,
        "rootSpread"@,
        "rootFlare"@,
        "rootButtress"@,
        "rootBranchiness"@,
        "rootTaper"@,
    ]
}

/// The genes of proportion, in order.
pub open spec fn proportions_names() -> Seq<Seq<char>> {
    seq![
        "succulence"@,
        "stemGirth"@,
        "taper"@,
        "rigidity"@,
        "verticality"@,
        "ribbing"@,
        "spininess"@,
        "branchAngle"@,
        "lengthRatio"@,
        "apicalBias"@,
        "droopBias"@,
        "weep"@,
        "flatness"@,
        "woodiness"@,
        "tipTuft"@,
        "phototropism"@,
        "trunkTaper"@,
    ]
}

/// The cosmetic genes, in order; the seed is among them.
pub open spec fn cosmetic_names() -> Seq<Seq<char>> {
    seq![
        "pigment"@,
        "leafSize"@,
        "jitter"@,
        "leafWidth"@,
        "leafLength"@,
        "leafTip"@,
        "leafSerration"@,
        "leafLobing"@,
        "leafSkew"@,
        "barkHue"@,
        "barkLightness"@,
        "barkRelief"@,
        "barkLenticels"@,
        "barkScale"@,
        "barkOrient"@,
        "barkPlates"@,
        "barkShed"@,
        "barkUnderHue"@,
        "leafDivision"@,
        "frondFan"@,
        "structuralSeed"@,
    ]
}

/// The tier of a gene, if there is one of that name.
pub open spec fn tier_of(name: Seq<char>) -> Option<Tier> {
    if structural_names().contains(name) {
        Some(Tier::Structure)
    } else if proportions_names().contains(name) {
        Some(Tier::Proportions)
    } else if cosmetic_names().contains(name) {
        Some(Tier::Cosmetic)
    } else {
        None
    }
}

/// What a gene ranges over: zero to one for most.
pub open spec fn kind_of(name: Seq<char>) -> GeneKind {
    if name == "structuralSeed"@ {
        GeneKind::Seed
    } else if name == "appendageDensity"@ || name == "jitter"@ {
        GeneKind::Continuous { lo: 0, hi: 1_500_000 }
    } else if name == "branchAngle"@ {
        GeneKind::Continuous { lo: 350_000, hi: 800_000 }
    } else if name == "lengthRatio"@ {
        GeneKind::Continuous { lo: 550_000, hi: 850_000 }
    } else if name == "droopBias"@ {
        GeneKind::Continuous { lo: (-200_000) as i64, hi: 400_000 }
    } else if name == "leafSize"@ {
        GeneKind::Continuous { lo: 600_000, hi: 4_000_000 }
    } else {
        GeneKind::Continuous { lo: 0, hi: 1_000_000 }
    }
}

/// The names of the structural genes, in order.
pub fn structural_fields() -> (names: Vec<&'static str>)
    ensures
        texts(names@) == structural_names(),
{
    let names: Vec<&'static str> = vec![
        "branchiness",
        "branchFactorN",
        "tillering",
        "radialOrder",
        "appendageBreadth",
        "appendageDensity",
        "segmentation",
        "trunkHeight",
        "stemSpread",
        "rosette",
        "whorl",
        "crownStart",
        "rootCount",
        "rootDepth",
        "rootSpread",
        "rootFlare",
        "rootButtress",
        "rootBranchiness",
        "rootTaper",
    ];
    proof {
        assert(texts(names@) =~= structural_names());
    }
    names
}

/// The names of the genes of proportion, in order.
pub fn proportions_fields() -> (names: Vec<&'static str>)
    ensures
        texts(names@) == proportions_names(),
{
    let names: Vec<&'static str> = vec![
        "succulence",
        "stemGirth",
        "taper",
        "rigidity",
        "verticality",
        "ribbing",
        "spininess",
        "branchAngle",
        "lengthRatio",
        "apicalBias",
        "droopBias",
        "weep",
        "flatness",
        "woodiness",
        "tipTuft",
        "phototropism",
        "trunkTaper",
    ];
    proof {
        assert(texts(names@) =~= proportions_names());
    }
    names
}

/// The names of the cosmetic genes, in order.
pub fn cosmetic_fields() -> (names: Vec<&'static str>)
    ensures
        texts(names@) == cosmetic_names(),
{
    let names: Vec<&'static str> = vec![
        "pigment",
        "leafSize",
        "jitter",
        "leafWidth",
        "leafLength",
        "leafTip",
        "leafSerration",
        "leafLobing",
        "leafSkew",
        "barkHue",
        "barkLightness",
        "barkRelief",
        "barkLenticels",
        "barkScale",
        "barkOrient",
        "barkPlates",
        "barkShed",
        "barkUnderHue",
        "leafDivision",
        "frondFan",
        "structuralSeed",
    ];
    proof {
        assert(texts(names@) =~= cosmetic_names());
    }
    names
}

fn listed(name: &str, names: &Vec<&'static str>) -> (r: bool)
    ensures
        r == texts(names@).contains(name@),
{
    let mut i: usize = 0;
    while i < names.len()
        invariant
            i <= names.len(),
            forall|j: int| 0 <= j < i ==> #[trigger] texts(names@)[j] != name@,
        decreases names.len() - i,
    {
        if same_text(name, names[i]) {
            proof {
                assert(texts(names@)[i as int] == name@);
            }
            return true;
        }
        i = i + 1;
    }
    false
}

/// The tier and range of the gene of that name; none if there is no such gene.
pub fn gene(name: &str) -> (g: Option<(Tier, GeneKind)>)
    ensures
        g is Some <==> tier_of(name@) is Some,
        g is Some ==> (g->0).0 == tier_of(name@)->0 && (g->0).1 == kind_of(name@),
{
    let tier = if listed(name, &structural_fields()) {
        Tier::Structure
    } else if listed(name, &proportions_fields()) {
        Tier::Proportions
    } else if listed(name, &cosmetic_fields()) {
        Tier::Cosmetic
    } else {
        return None;
    };
    let kind = if same_text(name, "structuralSeed") {
        GeneKind::Seed
    } else if same_text(name, "appendageDensity") || same_text(name, "jitter") {
        GeneKind::Continuous { lo: 0, hi: 1_500_000 }
    } else if same_text(name, "branchAngle") {
        GeneKind::Continuous { lo: 350_000, hi: 800_000 }
    } else if same_text(name, "lengthRatio") {
        GeneKind::Continuous { lo: 550_000, hi: 850_000 }
    } else if same_text(name, "droopBias") {
        GeneKind::Continuous { lo: -200_000, hi: 400_000 }
    } else if same_text(name, "leafSize") {
        GeneKind::Continuous { lo: 600_000, hi: 4_000_000 }
    } else {
        GeneKind::Continuous { lo: 0, hi: 1_000_000 }
    };
    Some((tier, kind))
}

/// The least and greatest value of a continuous gene.
pub fn gene_range(name: &str) -> (r: (i64, i64))
    requires
        tier_of(name@) is Some,
        kind_of(name@) is Continuous,
    ensures
        kind_of(name@) == (GeneKind::Continuous { lo: r.0, hi: r.1 }),
{
    match gene(name) {
        Some((_, GeneKind::Continuous { lo, hi })) => (lo, hi),
        _ => (0, 0),
    }
}

/// A value brought into the range of its gene: the nearest value of the range.
pub open spec fn clamped(name: Seq<char>, value: i64) -> i64 {
    match (tier_of(name), kind_of(name)) {
        (Some(_), GeneKind::Continuous { lo, hi }) => if value < lo {
            lo
        } else if value > hi {
            hi
        } else {
            value
        },
        _ => value,
    }
}

/// Brings a value into the range of its gene. What is no continuous gene keeps its value.
pub fn clamp_field(name: &str, value: i64) -> (v: i64)
    ensures
        v == clamped(name@, value),
{
    match gene(name) {
        Some((_, GeneKind::Continuous { lo, hi })) => {
            if value < lo {
                lo
            } else if value > hi {
                hi
            } else {
                value
            }
        },
        _ => value,
    }
}

/// Every seed is in range.
pub fn clamp_field_seed(value: u32) -> (v: u32)
    ensures
        v == value,
{
    value
}

/// Clamping a second time changes nothing, and a clamped value lies in its gene's range.
pub proof fn clamping_settles(name: Seq<char>, value: i64)
    ensures
        clamped(name, clamped(name, value)) == clamped(name, value),
        tier_of(name) is Some ==> (kind_of(name) matches GeneKind::Continuous { lo, hi } ==> lo
            <= clamped(name, value) <= hi),
{
}

/// A clamped value is the nearest that its gene can have: no other value of the range is nearer, and
/// a value that is in range stays. What is no continuous gene has every value.
pub proof fn clamping_goes_no_farther_than_it_must(name: Seq<char>, value: i64, other: i64)
    ensures
        tier_of(name) is None || kind_of(name) is Seed ==> clamped(name, value) == value,
        tier_of(name) is Some ==> (kind_of(name) matches GeneKind::Continuous { lo, hi } ==> {
            &&& lo <= value <= hi ==> clamped(name, value) == value
            &&& lo <= other <= hi && value < lo ==> value < clamped(name, value) <= other
            &&& lo <= other <= hi && value > hi ==> other <= clamped(name, value) < value
        }),
{
}

proof fn special_names_differ()
    ensures
        "structuralSeed"@.len() == 14,
        "appendageDensity"@.len() == 16,
        "jitter"@.len() == 6,
        "branchAngle"@.len() == 11 && "branchAngle"@[0] == 'b',
        "lengthRatio"@.len() == 11 && "lengthRatio"@[0] == 'l',
        "droopBias"@.len() == 9,
        "leafSize"@.len() == 8,
{
    reveal_strlit("structuralSeed");
    reveal_strlit("appendageDensity");
    reveal_strlit("jitter");
    reveal_strlit("branchAngle");
    reveal_strlit("lengthRatio");
    reveal_strlit("droopBias");
    reveal_strlit("leafSize");
}

/// A gene goes from nought to one, but for these.
pub proof fn few_genes_have_other_ranges(name: Seq<char>)
    ensures
        kind_of("structuralSeed"@) is Seed,
        kind_of("appendageDensity"@) == (GeneKind::Continuous { lo: 0, hi: 1_500_000 }),
        kind_of("jitter"@) == (GeneKind::Continuous { lo: 0, hi: 1_500_000 }),
        kind_of("branchAngle"@) == (GeneKind::Continuous { lo: 350_000, hi: 800_000 }),
        kind_of("lengthRatio"@) == (GeneKind::Continuous { lo: 550_000, hi: 850_000 }),
        kind_of("droopBias"@) == (GeneKind::Continuous { lo: (-200_000) as i64, hi: 400_000 }),
        kind_of("leafSize"@) == (GeneKind::Continuous { lo: 600_000, hi: 4_000_000 }),
        name.len() != 14 && name.len() != 16 && name.len() != 6 && name.len() != 11 && name.len()
            != 9 && name.len() != 8 ==> kind_of(name) == (GeneKind::Continuous {
            lo: 0,
            hi: 1_000_000,
        }),
        kind_of(name) matches GeneKind::Continuous { lo, hi } ==> lo < hi,
{
    special_names_differ();
}

/// There are 19 structural genes, 17 of proportion and 21 cosmetic ones, the seed being the last.
pub proof fn genes_are_counted()
    ensures
        structural_names().len() == 19,
        proportions_names().len() == 17,
        cosmetic_names().len() == 21,
        cosmetic_names().last() == "structuralSeed"@,
        structural_names().first() == "branchiness"@ && structural_names().last() == "rootTaper"@,
        proportions_names().first() == "succulence"@ && proportions_names().last() == "trunkTaper"@,
        cosmetic_names().first() == "pigment"@,
{
}

} // verus!
