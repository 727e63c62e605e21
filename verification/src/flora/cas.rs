//! The tabs of the plant editor: which genes each offers, and over which range.
//!
//! Ranges are whole millionths, as gene values are.
use vstd::prelude::*;

use crate::flora::genome_schema::{
    cosmetic_names, kind_of, proportions_names, structural_names, tier_of, GeneKind,
};

verus! {

/// A tab of the editor.
#[derive(Clone, Copy, Debug, PartialEq, Eq, Structural)]
pub enum Tab {
    /// The surroundings, not genes.
    Climate,
    Trunk,
    Branches,
    Leaves,
    Root,
}

impl Tab {
    /// What is written on it.
    pub open spec fn name(self) -> Seq<char> {
        match self {
            Tab::Climate => "Climate"@,
            Tab::Trunk => "Trunk"@,
            Tab::Branches => "Branches"@,
            Tab::Leaves => "Leaves"@,
            Tab::Root => "Root"@,
        }
    }

    /// What is written on it.
    pub fn label(self) -> (t: &'static str)
        ensures
            t@ == self.name(),
    {
        match self {
            Tab::Climate => "Climate",
            Tab::Trunk => "Trunk",
            Tab::Branches => "Branches",
            Tab::Leaves => "Leaves",
            Tab::Root => "Root",
        }
    }
}

/// The tabs, in order.
pub fn tabs() -> (list: Vec<Tab>)
    ensures
        list@ == seq![Tab::Climate, Tab::Trunk, Tab::Branches, Tab::Leaves, Tab::Root],
{
    let list: Vec<Tab> = vec![Tab::Climate, Tab::Trunk, Tab::Branches, Tab::Leaves, Tab::Root];
    assert(list@ =~= seq![Tab::Climate, Tab::Trunk, Tab::Branches, Tab::Leaves, Tab::Root]);
    list
}

/// A slider for a gene.
#[derive(Clone, Copy, Debug)]
pub struct GeneSlider {
    /// The gene.
    pub name: &'static str,
    pub label: &'static str,
    pub min: i64,
    pub max: i64,
}

/// What a slider says, as mathematics.
pub ghost struct Slider {
    pub name: Seq<char>,
    pub label: Seq<char>,
    pub min: int,
    pub max: int,
}

impl View for GeneSlider {
    type V = Slider;

    open spec fn view(&self) -> Slider {
        Slider {
            name: self.name@,
            label: self.label@,
            min: self.min as int,
            max: self.max as int,
        }
    }
}

/// What sliders say.
pub open spec fn said(list: Seq<GeneSlider>) -> Seq<Slider> {
    list.map_values(|s: GeneSlider| s@)
}

/// A slider from zero to one.
pub open spec fn whole(name: Seq<char>, label: Seq<char>) -> Slider {
    Slider { name, label, min: 0, max: 1_000_000 }
}

/// A slider over part of a range.
pub open spec fn part(name: Seq<char>, label: Seq<char>, min: int, max: int) -> Slider {
    Slider { name, label, min, max }
}

fn unit(name: &'static str, label: &'static str) -> (s: GeneSlider)
    ensures
        s@ == whole(name@, label@),
{
    GeneSlider { name, label, min: 0, max: 1_000_000 }
}

fn span(name: &'static str, label: &'static str, min: i64, max: i64) -> (s: GeneSlider)
    ensures
        s@ == part(name@, label@, min as int, max as int),
{
    GeneSlider { name, label, min, max }
}

/// The sliders of the trunk tab, in order.
pub open spec fn trunk_list() -> Seq<Slider> {
    seq![
        whole("stemGirth"@, "Stem girth"@),
        whole("taper"@, "Taper"@),
        whole("trunkHeight"@, "Trunk height"@),
        whole("trunkTaper"@, "Trunk taper"@),
        whole("succulence"@, "Succulence"@),
        whole("ribbing"@, "Ribbing"@),
        whole("segmentation"@, "Segmentation"@),
        whole("spininess"@, "Spininess"@),
        whole("woodiness"@, "Woodiness"@),
        whole("barkHue"@, "Bark hue"@),
        whole("barkLightness"@, "Bark lightness"@),
        whole("barkRelief"@, "Bark relief"@),
        whole("barkLenticels"@, "Bark lenticels"@),
        whole("barkScale"@, "Bark scale"@),
        whole("barkOrient"@, "Bark orient"@),
        whole("barkPlates"@, "Bark plates"@),
        whole("barkShed"@, "Bark shed"@),
        whole("barkUnderHue"@, "Bark under-hue"@),
    ]
}

fn trunk() -> (list: Vec<GeneSlider>)
    ensures
        said(list@) == trunk_list(),
{
    let list: Vec<GeneSlider> = vec![
        unit("stemGirth", "Stem girth"),
        unit("taper", "Taper"),
        unit("trunkHeight", "Trunk height"),
        unit("trunkTaper", "Trunk taper"),
        unit("succulence", "Succulence"),
        unit("ribbing", "Ribbing"),
        unit("segmentation", "Segmentation"),
        unit("spininess", "Spininess"),
        unit("woodiness", "Woodiness"),
        unit("barkHue", "Bark hue"),
        unit("barkLightness", "Bark lightness"),
        unit("barkRelief", "Bark relief"),
        unit("barkLenticels", "Bark lenticels"),
        unit("barkScale", "Bark scale"),
        unit("barkOrient", "Bark orient"),
        unit("barkPlates", "Bark plates"),
        unit("barkShed", "Bark shed"),
        unit("barkUnderHue", "Bark under-hue"),
    ];
    assert(said(list@) =~= trunk_list());
    list
}

/// The sliders of the branches tab, in order.
pub open spec fn branches_list() -> Seq<Slider> {
    seq![
        whole("branchiness"@, "Branchiness"@),
        whole("branchFactorN"@, "Branch factor N"@),
        whole("tillering"@, "Tillering"@),
        whole("radialOrder"@, "Radial order"@),
        whole("whorl"@, "Whorl"@),
        whole("crownStart"@, "Crown start"@),
        part("branchAngle"@, "Branch angle"@, 350_000, 800_000),
        part("lengthRatio"@, "Length ratio"@, 550_000, 850_000),
        whole("apicalBias"@, "Apical bias"@),
        part("droopBias"@, "Droop bias"@, -200_000, 400_000),
        whole("rigidity"@, "Rigidity"@),
        whole("verticality"@, "Verticality"@),
        whole("weep"@, "Weep"@),
    ]
}

fn branches() -> (list: Vec<GeneSlider>)
    ensures
        said(list@) == branches_list(),
{
    let list: Vec<GeneSlider> = vec![
        unit("branchiness", "Branchiness"),
        unit("branchFactorN", "Branch factor N"),
        unit("tillering", "Tillering"),
        unit("radialOrder", "Radial order"),
        unit("whorl", "Whorl"),
        unit("crownStart", "Crown start"),
        span("branchAngle", "Branch angle", 350_000, 800_000),
        span("lengthRatio", "Length ratio", 550_000, 850_000),
        unit("apicalBias", "Apical bias"),
        span("droopBias", "Droop bias", -200_000, 400_000),
        unit("rigidity", "Rigidity"),
        unit("verticality", "Verticality"),
        unit("weep", "Weep"),
    ];
    assert(said(list@) =~= branches_list());
    list
}

/// The sliders of the leaves tab, in order.
pub open spec fn leaves_list() -> Seq<Slider> {
    seq![
        part("leafSize"@, "Leaf size"@, 600_000, 1_600_000),
        whole("leafWidth"@, "Leaf breadth"@),
        whole("leafLength"@, "Leaf length"@),
        whole("leafTip"@, "Leaf tip"@),
        whole("leafSerration"@, "Leaf serration"@),
        whole("leafLobing"@, "Leaf lobing"@),
        whole("leafSkew"@, "Leaf skew"@),
        whole("leafDivision"@, "Leaf division"@),
        whole("frondFan"@, "Frond fan"@),
        whole("tipTuft"@, "Tip tuft"@),
        whole("appendageBreadth"@, "Appendage breadth"@),
        part("appendageDensity"@, "Leaf density"@, 0, 1_500_000),
        whole("pigment"@, "Pigment"@),
        part("jitter"@, "Jitter"@, 0, 1_500_000),
    ]
}

fn leaves() -> (list: Vec<GeneSlider>)
    ensures
        said(list@) == leaves_list(),
{
    let list: Vec<GeneSlider> = vec![
        span("leafSize", "Leaf size", 600_000, 1_600_000),
        unit("leafWidth", "Leaf breadth"),
        unit("leafLength", "Leaf length"),
        unit("leafTip", "Leaf tip"),
        unit("leafSerration", "Leaf serration"),
        unit("leafLobing", "Leaf lobing"),
        unit("leafSkew", "Leaf skew"),
        unit("leafDivision", "Leaf division"),
        unit("frondFan", "Frond fan"),
        unit("tipTuft", "Tip tuft"),
        unit("appendageBreadth", "Appendage breadth"),
        span("appendageDensity", "Leaf density", 0, 1_500_000),
        unit("pigment", "Pigment"),
        span("jitter", "Jitter", 0, 1_500_000),
    ];
    assert(said(list@) =~= leaves_list());
    list
}

/// The sliders of the root tab, in order.
pub open spec fn root_list() -> Seq<Slider> {
    seq![
        whole("rootCount"@, "Root count"@),
        whole("rootDepth"@, "Root depth"@),
        whole("rootSpread"@, "Root spread"@),
        whole("rootFlare"@, "Root flare"@),
        whole("rootButtress"@, "Buttress"@),
        whole("rootBranchiness"@, "Root branchiness"@),
        whole("rootTaper"@, "Root taper"@),
    ]
}

fn root() -> (list: Vec<GeneSlider>)
    ensures
        said(list@) == root_list(),
{
    let list: Vec<GeneSlider> = vec![
        unit("rootCount", "Root count"),
        unit("rootDepth", "Root depth"),
        unit("rootSpread", "Root spread"),
        unit("rootFlare", "Root flare"),
        unit("rootButtress", "Buttress"),
        unit("rootBranchiness", "Root branchiness"),
        unit("rootTaper", "Root taper"),
    ];
    assert(said(list@) =~= root_list());
    list
}

/// The sliders of a tab, in order.
pub open spec fn sliders_of(tab: Tab) -> Seq<Slider> {
    match tab {
        Tab::Climate => Seq::empty(),
        Tab::Trunk => trunk_list(),
        Tab::Branches => branches_list(),
        Tab::Leaves => leaves_list(),
        Tab::Root => root_list(),
    }
}

/// The sliders of a tab, in order; none for the surroundings.
pub fn gene_tab_sliders(tab: Tab) -> (list: Vec<GeneSlider>)
    ensures
        said(list@) == sliders_of(tab),
{
    match tab {
        Tab::Climate => {
            let list: Vec<GeneSlider> = Vec::new();
            assert(said(list@) =~= Seq::<Slider>::empty());
            list
        },
        Tab::Trunk => trunk(),
        Tab::Branches => branches(),
        Tab::Leaves => leaves(),
        Tab::Root => root(),
    }
}

/// The slider names a gene, and stays within the range of that gene.
pub open spec fn fits(s: Slider) -> bool {
    &&& tier_of(s.name) is Some
    &&& kind_of(s.name) matches GeneKind::Continuous { lo, hi } && lo <= s.min && s.min < s.max
        && s.max <= hi
}

proof fn special_names()
    ensures
        "structuralSeed"@.len() == 14,
        "appendageDensity"@.len() == 16,
        "jitter"@.len() == 6,
        "branchAngle"@.len() == 11,
        "lengthRatio"@.len() == 11,
        "droopBias"@.len() == 9,
        "leafSize"@.len() == 8,
{
    reveal_strlit("structuralSeed");
    reveal_strlit("appendageDensity");
    reveal_strlit("jitter");
    reveal_strlit("branchAngle");
    reveal_strlit("lengthRatio");
    reveal_strlit("droopBias");
    reveal_strlit("leafSize");
}

proof fn trunk_fits(i: int)
    requires
        0 <= i < trunk_list().len(),
    ensures
        fits(trunk_list()[i]),
{
    special_names();
    if i == 0 {
        reveal_strlit("stemGirth");
        assert(proportions_names()[1] == "stemGirth"@);
        reveal_strlit("droopBias");
        assert("stemGirth"@[0] != "droopBias"@[0]);
    } else if i == 1 {
        reveal_strlit("taper");
        assert(proportions_names()[2] == "taper"@);
    } else if i == 2 {
        reveal_strlit("trunkHeight");
        assert(structural_names()[7] == "trunkHeight"@);
        reveal_strlit("branchAngle");
        assert("trunkHeight"@[0] != "branchAngle"@[0]);
        reveal_strlit("lengthRatio");
        assert("trunkHeight"@[0] != "lengthRatio"@[0]);
    } else if i == 3 {
        reveal_strlit("trunkTaper");
        assert(proportions_names()[16] == "trunkTaper"@);
    } else if i == 4 {
        reveal_strlit("succulence");
        assert(proportions_names()[0] == "succulence"@);
    } else if i == 5 {
        reveal_strlit("ribbing");
        assert(proportions_names()[5] == "ribbing"@);
    } else if i == 6 {
        reveal_strlit("segmentation");
        assert(structural_names()[6] == "segmentation"@);
    } else if i == 7 {
        reveal_strlit("spininess");
        assert(proportions_names()[6] == "spininess"@);
        reveal_strlit("droopBias");
        assert("spininess"@[0] != "droopBias"@[0]);
    } else if i == 8 {
        reveal_strlit("woodiness");
        assert(proportions_names()[13] == "woodiness"@);
        reveal_strlit("droopBias");
        assert("woodiness"@[0] != "droopBias"@[0]);
    } else if i == 9 {
        reveal_strlit("barkHue");
        assert(cosmetic_names()[9] == "barkHue"@);
    } else if i == 10 {
        reveal_strlit("barkLightness");
        assert(cosmetic_names()[10] == "barkLightness"@);
    } else if i == 11 {
        reveal_strlit("barkRelief");
        assert(cosmetic_names()[11] == "barkRelief"@);
    } else if i == 12 {
        reveal_strlit("barkLenticels");
        assert(cosmetic_names()[12] == "barkLenticels"@);
    } else if i == 13 {
        reveal_strlit("barkScale");
        assert(cosmetic_names()[13] == "barkScale"@);
        reveal_strlit("droopBias");
        assert("barkScale"@[0] != "droopBias"@[0]);
    } else if i == 14 {
        reveal_strlit("barkOrient");
        assert(cosmetic_names()[14] == "barkOrient"@);
    } else if i == 15 {
        reveal_strlit("barkPlates");
        assert(cosmetic_names()[15] == "barkPlates"@);
    } else if i == 16 {
        reveal_strlit("barkShed");
        assert(cosmetic_names()[16] == "barkShed"@);
        reveal_strlit("leafSize");
        assert("barkShed"@[0] != "leafSize"@[0]);
    } else {
        reveal_strlit("barkUnderHue");
        assert(cosmetic_names()[17] == "barkUnderHue"@);
    }
}

proof fn branches_fits(i: int)
    requires
        0 <= i < branches_list().len(),
    ensures
        fits(branches_list()[i]),
{
    special_names();
    if i == 0 {
        reveal_strlit("branchiness");
        assert(structural_names()[0] == "branchiness"@);
        reveal_strlit("branchAngle");
        assert("branchiness"@[6] != "branchAngle"@[6]);
        reveal_strlit("lengthRatio");
        assert("branchiness"@[0] != "lengthRatio"@[0]);
    } else if i == 1 {
        reveal_strlit("branchFactorN");
        assert(structural_names()[1] == "branchFactorN"@);
    } else if i == 2 {
        reveal_strlit("tillering");
        assert(structural_names()[2] == "tillering"@);
        reveal_strlit("droopBias");
        assert("tillering"@[0] != "droopBias"@[0]);
    } else if i == 3 {
        reveal_strlit("radialOrder");
        assert(structural_names()[3] == "radialOrder"@);
        reveal_strlit("branchAngle");
        assert("radialOrder"@[0] != "branchAngle"@[0]);
        reveal_strlit("lengthRatio");
        assert("radialOrder"@[0] != "lengthRatio"@[0]);
    } else if i == 4 {
        reveal_strlit("whorl");
        assert(structural_names()[10] == "whorl"@);
    } else if i == 5 {
        reveal_strlit("crownStart");
        assert(structural_names()[11] == "crownStart"@);
    } else if i == 6 {
        reveal_strlit("branchAngle");
        assert(proportions_names()[7] == "branchAngle"@);
        reveal_strlit("lengthRatio");
        assert("branchAngle"@[0] != "lengthRatio"@[0]);
    } else if i == 7 {
        reveal_strlit("lengthRatio");
        assert(proportions_names()[8] == "lengthRatio"@);
        reveal_strlit("branchAngle");
        assert("lengthRatio"@[0] != "branchAngle"@[0]);
    } else if i == 8 {
        reveal_strlit("apicalBias");
        assert(proportions_names()[9] == "apicalBias"@);
    } else if i == 9 {
        reveal_strlit("droopBias");
        assert(proportions_names()[10] == "droopBias"@);
    } else if i == 10 {
        reveal_strlit("rigidity");
        assert(proportions_names()[3] == "rigidity"@);
        reveal_strlit("leafSize");
        assert("rigidity"@[0] != "leafSize"@[0]);
    } else if i == 11 {
        reveal_strlit("verticality");
        assert(proportions_names()[4] == "verticality"@);
        reveal_strlit("branchAngle");
        assert("verticality"@[0] != "branchAngle"@[0]);
        reveal_strlit("lengthRatio");
        assert("verticality"@[0] != "lengthRatio"@[0]);
    } else {
        reveal_strlit("weep");
        assert(proportions_names()[11] == "weep"@);
    }
}

proof fn leaves_fits(i: int)
    requires
        0 <= i < leaves_list().len(),
    ensures
        fits(leaves_list()[i]),
{
    special_names();
    if i == 0 {
        reveal_strlit("leafSize");
        assert(cosmetic_names()[1] == "leafSize"@);
    } else if i == 1 {
        reveal_strlit("leafWidth");
        assert(cosmetic_names()[3] == "leafWidth"@);
        reveal_strlit("droopBias");
        assert("leafWidth"@[0] != "droopBias"@[0]);
    } else if i == 2 {
        reveal_strlit("leafLength");
        assert(cosmetic_names()[4] == "leafLength"@);
    } else if i == 3 {
        reveal_strlit("leafTip");
        assert(cosmetic_names()[5] == "leafTip"@);
    } else if i == 4 {
        reveal_strlit("leafSerration");
        assert(cosmetic_names()[6] == "leafSerration"@);
    } else if i == 5 {
        reveal_strlit("leafLobing");
        assert(cosmetic_names()[7] == "leafLobing"@);
    } else if i == 6 {
        reveal_strlit("leafSkew");
        assert(cosmetic_names()[8] == "leafSkew"@);
        reveal_strlit("leafSize");
        assert("leafSkew"@[5] != "leafSize"@[5]);
    } else if i == 7 {
        reveal_strlit("leafDivision");
        assert(cosmetic_names()[18] == "leafDivision"@);
    } else if i == 8 {
        reveal_strlit("frondFan");
        assert(cosmetic_names()[19] == "frondFan"@);
        reveal_strlit("leafSize");
        assert("frondFan"@[0] != "leafSize"@[0]);
    } else if i == 9 {
        reveal_strlit("tipTuft");
        assert(proportions_names()[14] == "tipTuft"@);
    } else if i == 10 {
        reveal_strlit("appendageBreadth");
        assert(structural_names()[4] == "appendageBreadth"@);
        reveal_strlit("appendageDensity");
        assert("appendageBreadth"@[9] != "appendageDensity"@[9]);
    } else if i == 11 {
        reveal_strlit("appendageDensity");
        assert(structural_names()[5] == "appendageDensity"@);
    } else if i == 12 {
        reveal_strlit("pigment");
        assert(cosmetic_names()[0] == "pigment"@);
    } else {
        reveal_strlit("jitter");
        assert(cosmetic_names()[2] == "jitter"@);
    }
}

proof fn root_fits(i: int)
    requires
        0 <= i < root_list().len(),
    ensures
        fits(root_list()[i]),
{
    special_names();
    if i == 0 {
        reveal_strlit("rootCount");
        assert(structural_names()[12] == "rootCount"@);
        reveal_strlit("droopBias");
        assert("rootCount"@[0] != "droopBias"@[0]);
    } else if i == 1 {
        reveal_strlit("rootDepth");
        assert(structural_names()[13] == "rootDepth"@);
        reveal_strlit("droopBias");
        assert("rootDepth"@[0] != "droopBias"@[0]);
    } else if i == 2 {
        reveal_strlit("rootSpread");
        assert(structural_names()[14] == "rootSpread"@);
    } else if i == 3 {
        reveal_strlit("rootFlare");
        assert(structural_names()[15] == "rootFlare"@);
        reveal_strlit("droopBias");
        assert("rootFlare"@[0] != "droopBias"@[0]);
    } else if i == 4 {
        reveal_strlit("rootButtress");
        assert(structural_names()[16] == "rootButtress"@);
    } else if i == 5 {
        reveal_strlit("rootBranchiness");
        assert(structural_names()[17] == "rootBranchiness"@);
    } else {
        reveal_strlit("rootTaper");
        assert(structural_names()[18] == "rootTaper"@);
        reveal_strlit("droopBias");
        assert("rootTaper"@[0] != "droopBias"@[0]);
    }
}

/// Every slider of the editor names a gene, and none can push a gene out of its range.
pub proof fn sliders_fit(tab: Tab, i: int)
    requires
        0 <= i < sliders_of(tab).len(),
    ensures
        fits(sliders_of(tab)[i]),
{
    match tab {
        Tab::Climate => {},
        Tab::Trunk => trunk_fits(i),
        Tab::Branches => branches_fits(i),
        Tab::Leaves => leaves_fits(i),
        Tab::Root => root_fits(i),
    }
}

} // verus!
