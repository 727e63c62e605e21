//! No two genes share a name, and no two sliders move one gene.
use vstd::prelude::*;

use crate::flora::cas::{branches_list, leaves_list, root_list, sliders_of, trunk_list, Tab};
use crate::flora::genome_schema::{cosmetic_names, proportions_names, structural_names};

verus! {

/// The letter at a place as a number, nothing past the end.
spec fn letter(name: Seq<char>, k: int) -> int {
    if k < name.len() {
        name[k] as int
    } else {
        0
    }
}

/// A number for a name: its length and three of its letters, which tell the genes apart.
spec fn mark(name: Seq<char>) -> int {
    name.len() + 100 * (letter(name, 0) + 1000 * (letter(name, 5) + 1000 * letter(name, 9)))
}

/// Where a gene stands among all, by the number for its name.
spec fn gene_place(m: int) -> int {
    if m == 11510409811 {
        0
    } else if m == 11610409813 {
        1
    } else if m == 11411609 {
        2
    } else if m == 10110811411 {
        3
    } else if m == 6610009716 {
        4
    } else if m == 6810009716 {
        5
    } else if m == 10511011512 {
        6
    } else if m == 10407211611 {
        7
    } else if m == 10011211510 {
        8
    } else if m == 11611407 {
        9
    } else if m == 11905 {
        10
    } else if m == 11608309910 {
        11
    } else if m == 11111409 {
        12
    } else if m == 10111409 {
        13
    } else if m == 10011211410 {
        14
    } else if m == 10811409 {
        15
    } else if m == 10111711412 {
        16
    } else if m == 10411411415 {
        17
    } else if m == 9711409 {
        18
    } else if m == 10110811510 {
        19
    } else if m == 10511509 {
        20
    } else if m == 11605 {
        21
    } else if m == 10511408 {
        22
    } else if m == 11609911811 {
        23
    } else if m == 11011407 {
        24
    } else if m == 11011509 {
        25
    } else if m == 10810409811 {
        26
    } else if m == 10510410811 {
        27
    } else if m == 11510809710 {
        28
    } else if m == 6610009 {
        29
    } else if m == 11904 {
        30
    } else if m == 10110208 {
        31
    } else if m == 11011909 {
        32
    } else if m == 10211607 {
        33
    } else if m == 10511611212 {
        34
    } else if m == 11408411610 {
        35
    } else if m == 11011207 {
        36
    } else if m == 10510808 {
        37
    } else if m == 11410606 {
        38
    } else if m == 10510809 {
        39
    } else if m == 10410110810 {
        40
    } else if m == 10510807 {
        41
    } else if m == 11610110813 {
        42
    } else if m == 10311110810 {
        43
    } else if m == 10710808 {
        44
    } else if m == 11709807 {
        45
    } else if m == 11010509813 {
        46
    } else if m == 10210109810 {
        47
    } else if m == 9910109813 {
        48
    } else if m == 9909809 {
        49
    } else if m == 11611409810 {
        50
    } else if m == 11510809810 {
        51
    } else if m == 10409808 {
        52
    } else if m == 7211009812 {
        53
    } else if m == 10510510812 {
        54
    } else if m == 7010208 {
        55
    } else if m == 10811611514 {
        56
    } else {
        -1
    }
}

/// Where a slider stands among all, by the number for its gene.
spec fn slider_place(m: int) -> int {
    if m == 10511509 {
        0
    } else if m == 11605 {
        1
    } else if m == 10407211611 {
        2
    } else if m == 11408411610 {
        3
    } else if m == 10110811510 {
        4
    } else if m == 11011407 {
        5
    } else if m == 10511011512 {
        6
    } else if m == 11011509 {
        7
    } else if m == 11011909 {
        8
    } else if m == 11709807 {
        9
    } else if m == 11010509813 {
        10
    } else if m == 10210109810 {
        11
    } else if m == 9910109813 {
        12
    } else if m == 9909809 {
        13
    } else if m == 11611409810 {
        14
    } else if m == 11510809810 {
        15
    } else if m == 10409808 {
        16
    } else if m == 7211009812 {
        17
    } else if m == 11510409811 {
        18
    } else if m == 11610409813 {
        19
    } else if m == 11411609 {
        20
    } else if m == 10110811411 {
        21
    } else if m == 11905 {
        22
    } else if m == 11608309910 {
        23
    } else if m == 10810409811 {
        24
    } else if m == 10510410811 {
        25
    } else if m == 11510809710 {
        26
    } else if m == 6610009 {
        27
    } else if m == 10511408 {
        28
    } else if m == 11609911811 {
        29
    } else if m == 11904 {
        30
    } else if m == 10510808 {
        31
    } else if m == 10510809 {
        32
    } else if m == 10410110810 {
        33
    } else if m == 10510807 {
        34
    } else if m == 11610110813 {
        35
    } else if m == 10311110810 {
        36
    } else if m == 10710808 {
        37
    } else if m == 10510510812 {
        38
    } else if m == 7010208 {
        39
    } else if m == 10211607 {
        40
    } else if m == 6610009716 {
        41
    } else if m == 6810009716 {
        42
    } else if m == 11011207 {
        43
    } else if m == 11410606 {
        44
    } else if m == 11111409 {
        45
    } else if m == 10111409 {
        46
    } else if m == 10011211410 {
        47
    } else if m == 10811409 {
        48
    } else if m == 10111711412 {
        49
    } else if m == 10411411415 {
        50
    } else if m == 9711409 {
        51
    } else {
        -1
    }
}

proof fn structural_places(i: int)
    requires
        0 <= i < 19,
    ensures
        gene_place(mark(structural_names()[i])) == 0 + i,
{
    if i == 0 {
        reveal_strlit("branchiness");
        assert(mark("branchiness"@) == 11510409811);
    } else if i == 1 {
        reveal_strlit("branchFactorN");
        assert(mark("branchFactorN"@) == 11610409813);
    } else if i == 2 {
        reveal_strlit("tillering");
        assert(mark("tillering"@) == 11411609);
    } else if i == 3 {
        reveal_strlit("radialOrder");
        assert(mark("radialOrder"@) == 10110811411);
    } else if i == 4 {
        reveal_strlit("appendageBreadth");
        assert(mark("appendageBreadth"@) == 6610009716);
    } else if i == 5 {
        reveal_strlit("appendageDensity");
        assert(mark("appendageDensity"@) == 6810009716);
    } else if i == 6 {
        reveal_strlit("segmentation");
        assert(mark("segmentation"@) == 10511011512);
    } else if i == 7 {
        reveal_strlit("trunkHeight");
        assert(mark("trunkHeight"@) == 10407211611);
    } else if i == 8 {
        reveal_strlit("stemSpread");
        assert(mark("stemSpread"@) == 10011211510);
    } else if i == 9 {
        reveal_strlit("rosette");
        assert(mark("rosette"@) == 11611407);
    } else if i == 10 {
        reveal_strlit("whorl");
        assert(mark("whorl"@) == 11905);
    } else if i == 11 {
        reveal_strlit("crownStart");
        assert(mark("crownStart"@) == 11608309910);
    } else if i == 12 {
        reveal_strlit("rootCount");
        assert(mark("rootCount"@) == 11111409);
    } else if i == 13 {
        reveal_strlit("rootDepth");
        assert(mark("rootDepth"@) == 10111409);
    } else if i == 14 {
        reveal_strlit("rootSpread");
        assert(mark("rootSpread"@) == 10011211410);
    } else if i == 15 {
        reveal_strlit("rootFlare");
        assert(mark("rootFlare"@) == 10811409);
    } else if i == 16 {
        reveal_strlit("rootButtress");
        assert(mark("rootButtress"@) == 10111711412);
    } else if i == 17 {
        reveal_strlit("rootBranchiness");
        assert(mark("rootBranchiness"@) == 10411411415);
    } else if i == 18 {
        reveal_strlit("rootTaper");
        assert(mark("rootTaper"@) == 9711409);
    }
}

proof fn proportions_places(i: int)
    requires
        0 <= i < 17,
    ensures
        gene_place(mark(proportions_names()[i])) == 19 + i,
{
    if i == 0 {
        reveal_strlit("succulence");
        assert(mark("succulence"@) == 10110811510);
    } else if i == 1 {
        reveal_strlit("stemGirth");
        assert(mark("stemGirth"@) == 10511509);
    } else if i == 2 {
        reveal_strlit("taper");
        assert(mark("taper"@) == 11605);
    } else if i == 3 {
        reveal_strlit("rigidity");
        assert(mark("rigidity"@) == 10511408);
    } else if i == 4 {
        reveal_strlit("verticality");
        assert(mark("verticality"@) == 11609911811);
    } else if i == 5 {
        reveal_strlit("ribbing");
        assert(mark("ribbing"@) == 11011407);
    } else if i == 6 {
        reveal_strlit("spininess");
        assert(mark("spininess"@) == 11011509);
    } else if i == 7 {
        reveal_strlit("branchAngle");
        assert(mark("branchAngle"@) == 10810409811);
    } else if i == 8 {
        reveal_strlit("lengthRatio");
        assert(mark("lengthRatio"@) == 10510410811);
    } else if i == 9 {
        reveal_strlit("apicalBias");
        assert(mark("apicalBias"@) == 11510809710);
    } else if i == 10 {
        reveal_strlit("droopBias");
        assert(mark("droopBias"@) == 6610009);
    } else if i == 11 {
        reveal_strlit("weep");
        assert(mark("weep"@) == 11904);
    } else if i == 12 {
        reveal_strlit("flatness");
        assert(mark("flatness"@) == 10110208);
    } else if i == 13 {
        reveal_strlit("woodiness");
        assert(mark("woodiness"@) == 11011909);
    } else if i == 14 {
        reveal_strlit("tipTuft");
        assert(mark("tipTuft"@) == 10211607);
    } else if i == 15 {
        reveal_strlit("phototropism");
        assert(mark("phototropism"@) == 10511611212);
    } else if i == 16 {
        reveal_strlit("trunkTaper");
        assert(mark("trunkTaper"@) == 11408411610);
    }
}

proof fn cosmetic_places(i: int)
    requires
        0 <= i < 21,
    ensures
        gene_place(mark(cosmetic_names()[i])) == 36 + i,
{
    if i == 0 {
        reveal_strlit("pigment");
        assert(mark("pigment"@) == 11011207);
    } else if i == 1 {
        reveal_strlit("leafSize");
        assert(mark("leafSize"@) == 10510808);
    } else if i == 2 {
        reveal_strlit("jitter");
        assert(mark("jitter"@) == 11410606);
    } else if i == 3 {
        reveal_strlit("leafWidth");
        assert(mark("leafWidth"@) == 10510809);
    } else if i == 4 {
        reveal_strlit("leafLength");
        assert(mark("leafLength"@) == 10410110810);
    } else if i == 5 {
        reveal_strlit("leafTip");
        assert(mark("leafTip"@) == 10510807);
    } else if i == 6 {
        reveal_strlit("leafSerration");
        assert(mark("leafSerration"@) == 11610110813);
    } else if i == 7 {
        reveal_strlit("leafLobing");
        assert(mark("leafLobing"@) == 10311110810);
    } else if i == 8 {
        reveal_strlit("leafSkew");
        assert(mark("leafSkew"@) == 10710808);
    } else if i == 9 {
        reveal_strlit("barkHue");
        assert(mark("barkHue"@) == 11709807);
    } else if i == 10 {
        reveal_strlit("barkLightness");
        assert(mark("barkLightness"@) == 11010509813);
    } else if i == 11 {
        reveal_strlit("barkRelief");
        assert(mark("barkRelief"@) == 10210109810);
    } else if i == 12 {
        reveal_strlit("barkLenticels");
        assert(mark("barkLenticels"@) == 9910109813);
    } else if i == 13 {
        reveal_strlit("barkScale");
        assert(mark("barkScale"@) == 9909809);
    } else if i == 14 {
        reveal_strlit("barkOrient");
        assert(mark("barkOrient"@) == 11611409810);
    } else if i == 15 {
        reveal_strlit("barkPlates");
        assert(mark("barkPlates"@) == 11510809810);
    } else if i == 16 {
        reveal_strlit("barkShed");
        assert(mark("barkShed"@) == 10409808);
    } else if i == 17 {
        reveal_strlit("barkUnderHue");
        assert(mark("barkUnderHue"@) == 7211009812);
    } else if i == 18 {
        reveal_strlit("leafDivision");
        assert(mark("leafDivision"@) == 10510510812);
    } else if i == 19 {
        reveal_strlit("frondFan");
        assert(mark("frondFan"@) == 7010208);
    } else if i == 20 {
        reveal_strlit("structuralSeed");
        assert(mark("structuralSeed"@) == 10811611514);
    }
}

proof fn trunk_places(i: int)
    requires
        0 <= i < 18,
    ensures
        slider_place(mark(trunk_list()[i].name)) == 0 + i,
{
    if i == 0 {
        reveal_strlit("stemGirth");
        assert(mark("stemGirth"@) == 10511509);
    } else if i == 1 {
        reveal_strlit("taper");
        assert(mark("taper"@) == 11605);
    } else if i == 2 {
        reveal_strlit("trunkHeight");
        assert(mark("trunkHeight"@) == 10407211611);
    } else if i == 3 {
        reveal_strlit("trunkTaper");
        assert(mark("trunkTaper"@) == 11408411610);
    } else if i == 4 {
        reveal_strlit("succulence");
        assert(mark("succulence"@) == 10110811510);
    } else if i == 5 {
        reveal_strlit("ribbing");
        assert(mark("ribbing"@) == 11011407);
    } else if i == 6 {
        reveal_strlit("segmentation");
        assert(mark("segmentation"@) == 10511011512);
    } else if i == 7 {
        reveal_strlit("spininess");
        assert(mark("spininess"@) == 11011509);
    } else if i == 8 {
        reveal_strlit("woodiness");
        assert(mark("woodiness"@) == 11011909);
    } else if i == 9 {
        reveal_strlit("barkHue");
        assert(mark("barkHue"@) == 11709807);
    } else if i == 10 {
        reveal_strlit("barkLightness");
        assert(mark("barkLightness"@) == 11010509813);
    } else if i == 11 {
        reveal_strlit("barkRelief");
        assert(mark("barkRelief"@) == 10210109810);
    } else if i == 12 {
        reveal_strlit("barkLenticels");
        assert(mark("barkLenticels"@) == 9910109813);
    } else if i == 13 {
        reveal_strlit("barkScale");
        assert(mark("barkScale"@) == 9909809);
    } else if i == 14 {
        reveal_strlit("barkOrient");
        assert(mark("barkOrient"@) == 11611409810);
    } else if i == 15 {
        reveal_strlit("barkPlates");
        assert(mark("barkPlates"@) == 11510809810);
    } else if i == 16 {
        reveal_strlit("barkShed");
        assert(mark("barkShed"@) == 10409808);
    } else if i == 17 {
        reveal_strlit("barkUnderHue");
        assert(mark("barkUnderHue"@) == 7211009812);
    }
}

proof fn branches_places(i: int)
    requires
        0 <= i < 13,
    ensures
        slider_place(mark(branches_list()[i].name)) == 18 + i,
{
    if i == 0 {
        reveal_strlit("branchiness");
        assert(mark("branchiness"@) == 11510409811);
    } else if i == 1 {
        reveal_strlit("branchFactorN");
        assert(mark("branchFactorN"@) == 11610409813);
    } else if i == 2 {
        reveal_strlit("tillering");
        assert(mark("tillering"@) == 11411609);
    } else if i == 3 {
        reveal_strlit("radialOrder");
        assert(mark("radialOrder"@) == 10110811411);
    } else if i == 4 {
        reveal_strlit("whorl");
        assert(mark("whorl"@) == 11905);
    } else if i == 5 {
        reveal_strlit("crownStart");
        assert(mark("crownStart"@) == 11608309910);
    } else if i == 6 {
        reveal_strlit("branchAngle");
        assert(mark("branchAngle"@) == 10810409811);
    } else if i == 7 {
        reveal_strlit("lengthRatio");
        assert(mark("lengthRatio"@) == 10510410811);
    } else if i == 8 {
        reveal_strlit("apicalBias");
        assert(mark("apicalBias"@) == 11510809710);
    } else if i == 9 {
        reveal_strlit("droopBias");
        assert(mark("droopBias"@) == 6610009);
    } else if i == 10 {
        reveal_strlit("rigidity");
        assert(mark("rigidity"@) == 10511408);
    } else if i == 11 {
        reveal_strlit("verticality");
        assert(mark("verticality"@) == 11609911811);
    } else if i == 12 {
        reveal_strlit("weep");
        assert(mark("weep"@) == 11904);
    }
}

proof fn leaves_places(i: int)
    requires
        0 <= i < 14,
    ensures
        slider_place(mark(leaves_list()[i].name)) == 31 + i,
{
    if i == 0 {
        reveal_strlit("leafSize");
        assert(mark("leafSize"@) == 10510808);
    } else if i == 1 {
        reveal_strlit("leafWidth");
        assert(mark("leafWidth"@) == 10510809);
    } else if i == 2 {
        reveal_strlit("leafLength");
        assert(mark("leafLength"@) == 10410110810);
    } else if i == 3 {
        reveal_strlit("leafTip");
        assert(mark("leafTip"@) == 10510807);
    } else if i == 4 {
        reveal_strlit("leafSerration");
        assert(mark("leafSerration"@) == 11610110813);
    } else if i == 5 {
        reveal_strlit("leafLobing");
        assert(mark("leafLobing"@) == 10311110810);
    } else if i == 6 {
        reveal_strlit("leafSkew");
        assert(mark("leafSkew"@) == 10710808);
    } else if i == 7 {
        reveal_strlit("leafDivision");
        assert(mark("leafDivision"@) == 10510510812);
    } else if i == 8 {
        reveal_strlit("frondFan");
        assert(mark("frondFan"@) == 7010208);
    } else if i == 9 {
        reveal_strlit("tipTuft");
        assert(mark("tipTuft"@) == 10211607);
    } else if i == 10 {
        reveal_strlit("appendageBreadth");
        assert(mark("appendageBreadth"@) == 6610009716);
    } else if i == 11 {
        reveal_strlit("appendageDensity");
        assert(mark("appendageDensity"@) == 6810009716);
    } else if i == 12 {
        reveal_strlit("pigment");
        assert(mark("pigment"@) == 11011207);
    } else if i == 13 {
        reveal_strlit("jitter");
        assert(mark("jitter"@) == 11410606);
    }
}

proof fn root_places(i: int)
    requires
        0 <= i < 7,
    ensures
        slider_place(mark(root_list()[i].name)) == 45 + i,
{
    if i == 0 {
        reveal_strlit("rootCount");
        assert(mark("rootCount"@) == 11111409);
    } else if i == 1 {
        reveal_strlit("rootDepth");
        assert(mark("rootDepth"@) == 10111409);
    } else if i == 2 {
        reveal_strlit("rootSpread");
        assert(mark("rootSpread"@) == 10011211410);
    } else if i == 3 {
        reveal_strlit("rootFlare");
        assert(mark("rootFlare"@) == 10811409);
    } else if i == 4 {
        reveal_strlit("rootButtress");
        assert(mark("rootButtress"@) == 10111711412);
    } else if i == 5 {
        reveal_strlit("rootBranchiness");
        assert(mark("rootBranchiness"@) == 10411411415);
    } else if i == 6 {
        reveal_strlit("rootTaper");
        assert(mark("rootTaper"@) == 9711409);
    }
}

/// No gene shares its name with another, of its own tier or of another.
pub proof fn genes_have_names_of_their_own(i: int, j: int)
    requires
        0 <= i < j < (structural_names() + proportions_names() + cosmetic_names()).len(),
    ensures
        (structural_names() + proportions_names() + cosmetic_names())[i] != (structural_names()
            + proportions_names() + cosmetic_names())[j],
{
    let all = structural_names() + proportions_names() + cosmetic_names();
    assert forall|k: int| 0 <= k < 57 implies gene_place(mark(#[trigger] all[k])) == k by {
        if k < 19 {
            structural_places(k);
        } else if k < 36 {
            proportions_places(k - 19);
        } else {
            cosmetic_places(k - 36);
        }
    }
    assert(gene_place(mark(all[i])) == i);
    assert(gene_place(mark(all[j])) == j);
}

proof fn slider_places(tab: Tab, i: int)
    requires
        0 <= i < sliders_of(tab).len(),
    ensures
        slider_place(mark(sliders_of(tab)[i].name)) == i + (match tab {
            Tab::Climate => 0int,
            Tab::Trunk => 0,
            Tab::Branches => 18,
            Tab::Leaves => 31,
            Tab::Root => 45,
        }),
{
    match tab {
        Tab::Climate => {},
        Tab::Trunk => trunk_places(i),
        Tab::Branches => branches_places(i),
        Tab::Leaves => leaves_places(i),
        Tab::Root => root_places(i),
    }
}

/// No gene has two sliders, on one tab or on two.
pub proof fn sliders_move_genes_of_their_own(tab: Tab, i: int, other: Tab, j: int)
    requires
        0 <= i < sliders_of(tab).len(),
        0 <= j < sliders_of(other).len(),
        sliders_of(tab)[i].name == sliders_of(other)[j].name,
    ensures
        tab == other,
        i == j,
{
    slider_places(tab, i);
    slider_places(other, j);
}

/// A slider goes from zero to one, but for six that go over a range of their own.
pub proof fn few_sliders_have_other_ranges(tab: Tab, i: int)
    requires
        0 <= i < sliders_of(tab).len(),
    ensures
        ({
            let s = sliders_of(tab)[i];
            &&& s.name == "branchAngle"@ ==> s.min == 350_000 && s.max == 800_000
            &&& s.name == "lengthRatio"@ ==> s.min == 550_000 && s.max == 850_000
            &&& s.name == "droopBias"@ ==> s.min == -200_000 && s.max == 400_000
            &&& s.name == "leafSize"@ ==> s.min == 600_000 && s.max == 1_600_000
            &&& s.name == "appendageDensity"@ ==> s.min == 0 && s.max == 1_500_000
            &&& s.name == "jitter"@ ==> s.min == 0 && s.max == 1_500_000
            &&& s.min == 0 && s.max == 1_000_000 || s.name == "branchAngle"@ || s.name
                == "lengthRatio"@ || s.name == "droopBias"@ || s.name == "leafSize"@ || s.name
                == "appendageDensity"@ || s.name == "jitter"@
        }),
{
    let s = sliders_of(tab)[i];
    if s.name == "branchAngle"@ {
        sliders_move_genes_of_their_own(tab, i, Tab::Branches, 6);
    }
    if s.name == "lengthRatio"@ {
        sliders_move_genes_of_their_own(tab, i, Tab::Branches, 7);
    }
    if s.name == "droopBias"@ {
        sliders_move_genes_of_their_own(tab, i, Tab::Branches, 9);
    }
    if s.name == "leafSize"@ {
        sliders_move_genes_of_their_own(tab, i, Tab::Leaves, 0);
    }
    if s.name == "appendageDensity"@ {
        sliders_move_genes_of_their_own(tab, i, Tab::Leaves, 11);
    }
    if s.name == "jitter"@ {
        sliders_move_genes_of_their_own(tab, i, Tab::Leaves, 13);
    }
}

} // verus!
