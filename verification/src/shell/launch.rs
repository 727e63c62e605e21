//! How the program is started.
use vstd::prelude::*;

use crate::text::same_text;

verus! {

/// What the program runs.
#[derive(Clone, Copy, Debug, PartialEq, Eq, Structural)]
pub enum RunMode {
    /// The planet.
    Planet,
    /// The scene of markers that shows whether depth is precise.
    Markers,
    /// The load test of streamed uploads.
    Stress,
    /// The scripted flight over the planet.
    SoakTerrain,
}

/// The flag is among the arguments.
pub open spec fn says(args: Seq<String>, flag: Seq<char>) -> bool {
    exists|i: int| 0 <= i < args.len() && #[trigger] args[i]@ == flag
}

/// The setting is there, and is a one.
pub open spec fn is_one(setting: Option<&str>) -> bool {
    setting matches Some(text) && text@ == "1"@
}

/// What to run: the flight before the load test before the markers, else the planet.
pub open spec fn chosen(soak: bool, stress: bool, markers: bool) -> RunMode {
    if soak {
        RunMode::SoakTerrain
    } else if stress {
        RunMode::Stress
    } else if markers {
        RunMode::Markers
    } else {
        RunMode::Planet
    }
}

fn asks(args: &Vec<String>, flag: &str) -> (b: bool)
    ensures
        b == says(args@, flag@),
{
    let mut i: usize = 0;
    while i < args.len()
        invariant
            i <= args.len(),
            forall|j: int| 0 <= j < i ==> #[trigger] args@[j]@ != flag@,
        decreases args.len() - i,
    {
        if same_text(args[i].as_str(), flag) {
            assert(args@[i as int]@ == flag@);
            return true;
        }
        i = i + 1;
    }
    false
}

fn switched_on(setting: Option<&str>) -> (b: bool)
    ensures
        b == is_one(setting),
{
    match setting {
        Some(text) => same_text(text, "1"),
        None => false,
    }
}

/// What to run, by the arguments and by the two settings that stand in for a flag.
pub fn run_mode(
    args: &Vec<String>,
    stress_setting: Option<&str>,
    soak_setting: Option<&str>,
) -> (m: RunMode)
    ensures
        m == chosen(
            says(args@, "--soak-terrain"@) || is_one(soak_setting),
            says(args@, "--stress-streaming"@) || is_one(stress_setting),
            says(args@, "--markers"@),
        ),
{
    let stress: bool = asks(args, "--stress-streaming") || switched_on(stress_setting);
    let markers: bool = asks(args, "--markers");
    let soak: bool = asks(args, "--soak-terrain") || switched_on(soak_setting);
    if soak {
        RunMode::SoakTerrain
    } else if stress {
        RunMode::Stress
    } else if markers {
        RunMode::Markers
    } else {
        RunMode::Planet
    }
}

impl RunMode {
    /// The title of the window.
    pub open spec fn name(self) -> Seq<char> {
        match self {
            RunMode::Planet => "enki"@,
            RunMode::Markers => "enki — markers"@,
            RunMode::Stress => "enki — stress-streaming"@,
            RunMode::SoakTerrain => "enki — soak-terrain"@,
        }
    }

    /// The title of the window.
    pub fn title(self) -> (t: &'static str)
        ensures
            t@ == self.name(),
    {
        match self {
            RunMode::Planet => "enki",
            RunMode::Markers => "enki — markers",
            RunMode::Stress => "enki — stress-streaming",
            RunMode::SoakTerrain => "enki — soak-terrain",
        }
    }
}

/// A thing that is made at the start.
#[derive(Clone, Copy, Debug, PartialEq, Eq, Structural)]
pub enum Part {
    Window,
    Device,
    TerrainShader,
    TerrainPipeline,
    TerrainLines,
    Ocean,
    Waves,
    Wind,
    Atmosphere,
    Markers,
    Bodies,
    Character,
    Trees,
    Loader,
    Scene,
    StressHarness,
    Panel,
    Resolve,
}

impl Part {
    /// The program cannot run without it: if it cannot be made, the program ends.
    pub open spec fn vital(self) -> bool {
        match self {
            Part::Window
            | Part::Device
            | Part::TerrainShader
            | Part::TerrainPipeline
            | Part::TerrainLines
            | Part::Scene
            | Part::StressHarness => true,
            _ => false,
        }
    }

    /// The program cannot run without it: if it cannot be made, the program ends.
    pub fn is_vital(self) -> (b: bool)
        ensures
            b == self.vital(),
    {
        match self {
            Part::Window
            | Part::Device
            | Part::TerrainShader
            | Part::TerrainPipeline
            | Part::TerrainLines
            | Part::Scene
            | Part::StressHarness => true,
            _ => false,
        }
    }
}

/// The parts of the planet, in the order in which they are made.
pub open spec fn planet_parts(flora: bool) -> Seq<Part> {
    seq![
        Part::TerrainShader,
        Part::TerrainPipeline,
        Part::TerrainLines,
        Part::Ocean,
        Part::Waves,
        Part::Wind,
        Part::Atmosphere,
        Part::Markers,
        Part::Bodies,
        Part::Character,
    ] + (if flora {
        seq![Part::Trees]
    } else {
        Seq::empty()
    }) + seq![Part::Loader]
}

/// All parts for a mode, in the order in which they are made: what shows the panel and
/// resolves the picture comes last.
pub open spec fn parts_for(mode: RunMode, flora: bool) -> Seq<Part> {
    seq![Part::Window, Part::Device] + (match mode {
        RunMode::Planet | RunMode::SoakTerrain => planet_parts(flora),
        RunMode::Markers => seq![Part::Scene],
        RunMode::Stress => seq![Part::StressHarness],
    }) + seq![Part::Panel, Part::Resolve]
}

/// The parts to make for a mode, in order; `flora` says whether the program has trees.
pub fn parts(mode: RunMode, flora: bool) -> (list: Vec<Part>)
    ensures
        list@ == parts_for(mode, flora),
{
    let mut list: Vec<Part> = Vec::new();
    list.push(Part::Window);
    list.push(Part::Device);
    match mode {
        RunMode::Planet | RunMode::SoakTerrain => {
            list.push(Part::TerrainShader);
            list.push(Part::TerrainPipeline);
            list.push(Part::TerrainLines);
            list.push(Part::Ocean);
            list.push(Part::Waves);
            list.push(Part::Wind);
            list.push(Part::Atmosphere);
            list.push(Part::Markers);
            list.push(Part::Bodies);
            list.push(Part::Character);
            if flora {
                list.push(Part::Trees);
            }
            list.push(Part::Loader);
        },
        RunMode::Markers => {
            list.push(Part::Scene);
        },
        RunMode::Stress => {
            list.push(Part::StressHarness);
        },
    }
    list.push(Part::Panel);
    list.push(Part::Resolve);
    assert(list@ =~= parts_for(mode, flora));
    list
}

/// The start goes on after a part was tried: unless a vital one could not be made.
pub fn goes_on(part: Part, made: bool) -> (b: bool)
    ensures
        b == (made || !part.vital()),
{
    made || !part.is_vital()
}

/// Everything needs the window and the device, which come first; the panel comes after all
/// that it shows.
pub proof fn parts_come_in_order(mode: RunMode, flora: bool)
    ensures
        parts_for(mode, flora)[0] == Part::Window,
        parts_for(mode, flora)[1] == Part::Device,
        parts_for(mode, flora)[parts_for(mode, flora).len() - 2] == Part::Panel,
        forall|i: int, j: int|
            0 <= i < j < parts_for(mode, flora).len() ==> #[trigger] parts_for(mode, flora)[i]
                != #[trigger] parts_for(mode, flora)[j],
{
}

/// What is asked for first wins: the scripted flight over the load test over the markers. Without
/// any of them the planet runs.
pub proof fn flights_win_over_tests(soak: bool, stress: bool, markers: bool)
    ensures
        chosen(soak, stress, markers) is SoakTerrain <==> soak,
        chosen(soak, stress, markers) is Stress <==> stress && !soak,
        chosen(soak, stress, markers) is Markers <==> markers && !stress && !soak,
        chosen(soak, stress, markers) is Planet <==> !soak && !stress && !markers,
{
}

/// The part is made at the start of a mode.
pub open spec fn is_needed(mode: RunMode, flora: bool, p: Part) -> bool {
    let planet = mode is Planet || mode is SoakTerrain;
    match p {
        Part::Window | Part::Device | Part::Panel | Part::Resolve => true,
        Part::Scene => mode is Markers,
        Part::StressHarness => mode is Stress,
        Part::Trees => planet && flora,
        _ => planet,
    }
}

/// How late a part is made: each after those that it is made from.
pub open spec fn part_rank(p: Part) -> int {
    match p {
        Part::Window => 0,
        Part::Device => 1,
        Part::TerrainShader => 2,
        Part::TerrainPipeline => 3,
        Part::TerrainLines => 4,
        Part::Ocean => 5,
        Part::Waves => 6,
        Part::Wind => 7,
        Part::Atmosphere => 8,
        Part::Markers => 9,
        Part::Bodies => 10,
        Part::Character => 11,
        Part::Trees => 12,
        Part::Loader => 13,
        Part::Scene => 14,
        Part::StressHarness => 15,
        Part::Panel => 16,
        Part::Resolve => 17,
    }
}

/// What is needed is made, each part once and in its order.
pub proof fn needed_parts_are_made(mode: RunMode, flora: bool, p: Part, i: int, j: int)
    ensures
        parts_for(mode, flora).contains(p) <==> is_needed(mode, flora, p),
        0 <= i < j < parts_for(mode, flora).len() ==> part_rank(parts_for(mode, flora)[i])
            < part_rank(parts_for(mode, flora)[j]),
{
    let all = parts_for(mode, flora);
    if is_needed(mode, flora, p) {
        let at: int = match p {
            Part::Window => 0,
            Part::Device => 1,
            Part::Scene | Part::StressHarness => 2,
            Part::Panel => all.len() - 2,
            Part::Resolve => all.len() - 1,
            Part::Loader => all.len() - 3,
            _ => part_rank(p),
        };
        assert(all[at] == p);
    }
    if all.contains(p) {
        let n = choose|n: int| 0 <= n < all.len() && all[n] == p;
        assert(is_needed(mode, flora, all[n]));
    }
}

/// The start goes on without what only adorns, and never without what all is drawn with.
pub proof fn vital_parts_end_the_start(p: Part)
    ensures
        p is Window || p is Device || p is Scene || p is StressHarness ==> p.vital(),
        p is TerrainShader || p is TerrainPipeline || p is TerrainLines ==> p.vital(),
        p is Ocean || p is Waves || p is Wind || p is Atmosphere || p is Markers || p is Bodies
            || p is Character || p is Trees || p is Loader || p is Panel || p is Resolve
            ==> !p.vital(),
{
}

} // verus!
