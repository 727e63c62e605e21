//! What the viewer can be set to.
use vstd::prelude::*;

verus! {

/// A setting that is on or off.
#[derive(Clone, Copy, Debug, PartialEq, Eq, Structural)]
pub enum Toggle {
    Paused,
    Wireframe,
    Taa,
    Ocean,
    Waves,
    Wind,
    Atmosphere,
    Clouds,
    Equator,
    Poles,
    Rivers,
    Trees,
    Nanite,
}

/// A setting that is a number.
#[derive(Clone, Copy, Debug, PartialEq, Eq, Structural)]
pub enum Knob {
    TimeScale,
    SeaLevel,
    Choppiness,
    Foam,
    WindSpeed,
    WindWidth,
    WindAltitude,
    WindGust,
    WindIntensity,
    AtmoHeight,
    AtmoDensity,
    CloudCoverage,
    CloudDensity,
    CloudBase,
    CloudThickness,
    CloudWind,
    CloudScale,
    CloudType,
    CloudMoisture,
    CloudScatter,
    CloudPowder,
    CloudCurl,
    CloudSteps,
    TreeDensity,
    Threshold,
}

/// How many numbers there are.
pub const KNOBS: usize = 25;

/// The highest view mode.
pub const LAST_VIEW: u32 = 13;

impl Knob {
    /// Where the number is kept.
    pub open spec fn place(self) -> int {
        match self {
            Knob::TimeScale => 0,
            Knob::SeaLevel => 1,
            Knob::Choppiness => 2,
            Knob::Foam => 3,
            Knob::WindSpeed => 4,
            Knob::WindWidth => 5,
            Knob::WindAltitude => 6,
            Knob::WindGust => 7,
            Knob::WindIntensity => 8,
            Knob::AtmoHeight => 9,
            Knob::AtmoDensity => 10,
            Knob::CloudCoverage => 11,
            Knob::CloudDensity => 12,
            Knob::CloudBase => 13,
            Knob::CloudThickness => 14,
            Knob::CloudWind => 15,
            Knob::CloudScale => 16,
            Knob::CloudType => 17,
            Knob::CloudMoisture => 18,
            Knob::CloudScatter => 19,
            Knob::CloudPowder => 20,
            Knob::CloudCurl => 21,
            Knob::CloudSteps => 22,
            Knob::TreeDensity => 23,
            Knob::Threshold => 24,
        }
    }

    fn slot(self) -> (i: usize)
        ensures
            i == self.place(),
            i < KNOBS,
    {
        match self {
            Knob::TimeScale => 0,
            Knob::SeaLevel => 1,
            Knob::Choppiness => 2,
            Knob::Foam => 3,
            Knob::WindSpeed => 4,
            Knob::WindWidth => 5,
            Knob::WindAltitude => 6,
            Knob::WindGust => 7,
            Knob::WindIntensity => 8,
            Knob::AtmoHeight => 9,
            Knob::AtmoDensity => 10,
            Knob::CloudCoverage => 11,
            Knob::CloudDensity => 12,
            Knob::CloudBase => 13,
            Knob::CloudThickness => 14,
            Knob::CloudWind => 15,
            Knob::CloudScale => 16,
            Knob::CloudType => 17,
            Knob::CloudMoisture => 18,
            Knob::CloudScatter => 19,
            Knob::CloudPowder => 20,
            Knob::CloudCurl => 21,
            Knob::CloudSteps => 22,
            Knob::TreeDensity => 23,
            Knob::Threshold => 24,
        }
    }

    /// The least and the greatest value that the panel offers, in millionths.
    pub open spec fn span(self) -> (i64, i64) {
        match self {
            Knob::TimeScale => (60_000_000, 300_000_000_000),
            Knob::SeaLevel => ((-1_200_000_000) as i64, 1_200_000_000),
            Knob::Choppiness => (0, 2_500_000),
            Knob::Foam => (0, 1_000_000),
            Knob::WindSpeed => (0, 400_000),
            Knob::WindWidth => (500, 6_000),
            Knob::WindAltitude => (0, 8_000_000_000),
            Knob::WindGust => (0, 1_500_000),
            Knob::WindIntensity => (0, 2_000_000),
            Knob::AtmoHeight => (200_000_000, 8_000_000_000),
            Knob::AtmoDensity => (0, 2_000_000),
            Knob::CloudCoverage => (0, 1_000_000),
            Knob::CloudDensity => (0, 250_000),
            Knob::CloudBase => (200_000_000, 8_000_000_000),
            Knob::CloudThickness => (500_000_000, 8_000_000_000),
            Knob::CloudWind => (0, 300_000_000),
            Knob::CloudScale => (500_000_000, 8_000_000_000),
            Knob::CloudType => (0, 1_000_000),
            Knob::CloudMoisture => (0, 1_000_000),
            Knob::CloudScatter => (0, 950_000),
            Knob::CloudPowder => (0, 1_000_000),
            Knob::CloudCurl => (0, 1_000_000),
            Knob::CloudSteps => (16_000_000, 96_000_000),
            Knob::TreeDensity => (0, 1_000_000),
            Knob::Threshold => (250_000, 8_000_000),
        }
    }

    /// The least and the greatest value that the panel offers, in millionths.
    pub fn range(self) -> (r: (i64, i64))
        ensures
            r == self.span(),
    {
        match self {
            Knob::TimeScale => (60_000_000, 300_000_000_000),
            Knob::SeaLevel => (-1_200_000_000, 1_200_000_000),
            Knob::Choppiness => (0, 2_500_000),
            Knob::Foam => (0, 1_000_000),
            Knob::WindSpeed => (0, 400_000),
            Knob::WindWidth => (500, 6_000),
            Knob::WindAltitude => (0, 8_000_000_000),
            Knob::WindGust => (0, 1_500_000),
            Knob::WindIntensity => (0, 2_000_000),
            Knob::AtmoHeight => (200_000_000, 8_000_000_000),
            Knob::AtmoDensity => (0, 2_000_000),
            Knob::CloudCoverage => (0, 1_000_000),
            Knob::CloudDensity => (0, 250_000),
            Knob::CloudBase => (200_000_000, 8_000_000_000),
            Knob::CloudThickness => (500_000_000, 8_000_000_000),
            Knob::CloudWind => (0, 300_000_000),
            Knob::CloudScale => (500_000_000, 8_000_000_000),
            Knob::CloudType => (0, 1_000_000),
            Knob::CloudMoisture => (0, 1_000_000),
            Knob::CloudScatter => (0, 950_000),
            Knob::CloudPowder => (0, 1_000_000),
            Knob::CloudCurl => (0, 1_000_000),
            Knob::CloudSteps => (16_000_000, 96_000_000),
            Knob::TreeDensity => (0, 1_000_000),
            Knob::Threshold => (250_000, 8_000_000),
        }
    }

    /// The slider runs on a logarithmic scale.
    pub fn logarithmic(self) -> (b: bool)
        ensures
            b == (self is TimeScale),
    {
        matches!(self, Knob::TimeScale)
    }

    /// The step of the slider in millionths, where it goes in steps.
    pub fn step(self) -> (s: Option<u32>)
        ensures
            s == (if self is SeaLevel {
                Some(5_000_000u32)
            } else {
                None
            }),
    {
        match self {
            Knob::SeaLevel => Some(5_000_000),
            _ => None,
        }
    }

    /// What the panel calls it.
    pub fn label(self) -> (t: &'static str)
        ensures
            t@ == self.name(),
    {
        match self {
            Knob::TimeScale => "Sim speed (×real)",
            Knob::SeaLevel => "Sea level (m)",
            Knob::Choppiness => "Choppiness",
            Knob::Foam => "Foam amount",
            Knob::WindSpeed => "Speed",
            Knob::WindWidth => "Streak width",
            Knob::WindAltitude => "Altitude (m)",
            Knob::WindGust => "Gust",
            Knob::WindIntensity => "Intensity",
            Knob::AtmoHeight => "Height (m)",
            Knob::AtmoDensity => "Density",
            Knob::CloudCoverage => "Coverage",
            Knob::CloudDensity => "Density",
            Knob::CloudBase => "Base alt (m)",
            Knob::CloudThickness => "Thickness (m)",
            Knob::CloudWind => "Wind speed (m/s)",
            Knob::CloudScale => "Feature size (m)",
            Knob::CloudType => "Type (stratus→cumulus)",
            Knob::CloudMoisture => "Climate influence",
            Knob::CloudScatter => "Forward scatter",
            Knob::CloudPowder => "Powder (dark edges)",
            Knob::CloudCurl => "Curl turbulence",
            Knob::CloudSteps => "March steps",
            Knob::TreeDensity => "Density",
            Knob::Threshold => "LOD threshold (px)",
        }
    }

    /// What the panel calls it.
    pub open spec fn name(self) -> Seq<char> {
        match self {
            Knob::TimeScale => "Sim speed (×real)"@,
            Knob::SeaLevel => "Sea level (m)"@,
            Knob::Choppiness => "Choppiness"@,
            Knob::Foam => "Foam amount"@,
            Knob::WindSpeed => "Speed"@,
            Knob::WindWidth => "Streak width"@,
            Knob::WindAltitude => "Altitude (m)"@,
            Knob::WindGust => "Gust"@,
            Knob::WindIntensity => "Intensity"@,
            Knob::AtmoHeight => "Height (m)"@,
            Knob::AtmoDensity => "Density"@,
            Knob::CloudCoverage => "Coverage"@,
            Knob::CloudDensity => "Density"@,
            Knob::CloudBase => "Base alt (m)"@,
            Knob::CloudThickness => "Thickness (m)"@,
            Knob::CloudWind => "Wind speed (m/s)"@,
            Knob::CloudScale => "Feature size (m)"@,
            Knob::CloudType => "Type (stratus→cumulus)"@,
            Knob::CloudMoisture => "Climate influence"@,
            Knob::CloudScatter => "Forward scatter"@,
            Knob::CloudPowder => "Powder (dark edges)"@,
            Knob::CloudCurl => "Curl turbulence"@,
            Knob::CloudSteps => "March steps"@,
            Knob::TreeDensity => "Density"@,
            Knob::Threshold => "LOD threshold (px)"@,
        }
    }
}

impl Toggle {
    /// What the panel calls it.
    pub open spec fn name(self) -> Seq<char> {
        match self {
            Toggle::Paused => "Pause"@,
            Toggle::Wireframe => "Wireframe"@,
            Toggle::Taa => "TAA (temporal AA)"@,
            Toggle::Ocean => "Show ocean"@,
            Toggle::Waves => "FFT waves (near surface)"@,
            Toggle::Wind => "Show wind streaks"@,
            Toggle::Atmosphere => "Show atmosphere"@,
            Toggle::Clouds => "Show clouds"@,
            Toggle::Equator => "Equator"@,
            Toggle::Poles => "Poles + axis"@,
            Toggle::Rivers => "Rivers"@,
            Toggle::Trees => "Show trees (surface)"@,
            Toggle::Nanite => "Enable Nanite"@,
        }
    }

    /// What the panel calls it.
    pub fn label(self) -> (t: &'static str)
        ensures
            t@ == self.name(),
    {
        match self {
            Toggle::Paused => "Pause",
            Toggle::Wireframe => "Wireframe",
            Toggle::Taa => "TAA (temporal AA)",
            Toggle::Ocean => "Show ocean",
            Toggle::Waves => "FFT waves (near surface)",
            Toggle::Wind => "Show wind streaks",
            Toggle::Atmosphere => "Show atmosphere",
            Toggle::Clouds => "Show clouds",
            Toggle::Equator => "Equator",
            Toggle::Poles => "Poles + axis",
            Toggle::Rivers => "Rivers",
            Toggle::Trees => "Show trees (surface)",
            Toggle::Nanite => "Enable Nanite",
        }
    }
}

/// All settings of the viewer. The numbers stand as the bit patterns of their values.
#[derive(Clone, Copy, Debug)]
pub struct Settings {
    /// 0 lit, 1 unlit, 2 normals, 3 triangles, 4 clusters, 5 levels of detail (3 to 5 need the
    /// clusters), 6 plates, 7 height, 8 material, 9 wetness, 10 volcanoes, 11 sea surface,
    /// 12 wave intensity, 13 cloud density.
    pub view_mode: u32,
    /// Simulated time stands still.
    pub paused: bool,
    /// Terrain is drawn as lines.
    pub wireframe: bool,
    /// Temporal anti-aliasing.
    pub taa: bool,
    /// The sea is drawn.
    pub ocean_enabled: bool,
    /// The wave surface near the ground is drawn.
    pub wave_enabled: bool,
    /// The wind streaks are drawn.
    pub wind_enabled: bool,
    /// The atmosphere shell is drawn.
    pub atmo_enabled: bool,
    /// The clouds are drawn.
    pub clouds_enabled: bool,
    /// The equator ring is drawn.
    pub markers_equator: bool,
    /// The pole spikes are drawn.
    pub markers_poles: bool,
    /// The rivers are drawn.
    pub rivers_enabled: bool,
    /// Trees are drawn on the ground.
    pub flora_enabled: bool,
    /// Terrain is drawn from clusters rather than from the quadtree.
    pub nanite_enabled: bool,
    /// The numbers, each at its knob's place.
    pub knobs: [u64; KNOBS],
}

impl Settings {
    /// Whether the setting is on.
    pub open spec fn on(self, t: Toggle) -> bool {
        match t {
            Toggle::Paused => self.paused,
            Toggle::Wireframe => self.wireframe,
            Toggle::Taa => self.taa,
            Toggle::Ocean => self.ocean_enabled,
            Toggle::Waves => self.wave_enabled,
            Toggle::Wind => self.wind_enabled,
            Toggle::Atmosphere => self.atmo_enabled,
            Toggle::Clouds => self.clouds_enabled,
            Toggle::Equator => self.markers_equator,
            Toggle::Poles => self.markers_poles,
            Toggle::Rivers => self.rivers_enabled,
            Toggle::Trees => self.flora_enabled,
            Toggle::Nanite => self.nanite_enabled,
        }
    }

    /// With the setting on or off, and all else as it was.
    pub open spec fn with(self, t: Toggle, v: bool) -> Settings {
        match t {
            Toggle::Paused => (Settings { paused: v, ..self }),
            Toggle::Wireframe => (Settings { wireframe: v, ..self }),
            Toggle::Taa => (Settings { taa: v, ..self }),
            Toggle::Ocean => (Settings { ocean_enabled: v, ..self }),
            Toggle::Waves => (Settings { wave_enabled: v, ..self }),
            Toggle::Wind => (Settings { wind_enabled: v, ..self }),
            Toggle::Atmosphere => (Settings { atmo_enabled: v, ..self }),
            Toggle::Clouds => (Settings { clouds_enabled: v, ..self }),
            Toggle::Equator => (Settings { markers_equator: v, ..self }),
            Toggle::Poles => (Settings { markers_poles: v, ..self }),
            Toggle::Rivers => (Settings { rivers_enabled: v, ..self }),
            Toggle::Trees => (Settings { flora_enabled: v, ..self }),
            Toggle::Nanite => (Settings { nanite_enabled: v, ..self }),
        }
    }

    /// The bits of a number.
    pub open spec fn bits(self, k: Knob) -> u64 {
        self.knobs@[k.place()]
    }

    /// The view mode is one of those that there are.
    pub open spec fn wf(self) -> bool {
        self.view_mode <= LAST_VIEW
    }

    /// The settings that the viewer starts with: lit, filled, without anti-aliasing, with
    /// everything drawn but the reference markers.
    pub open spec fn initial(
        knobs: [u64; KNOBS],
        paused: bool,
        clouds_enabled: bool,
        rivers_enabled: bool,
    ) -> Settings {
        Settings {
            view_mode: 0,
            paused,
            wireframe: false,
            taa: false,
            ocean_enabled: true,
            wave_enabled: true,
            wind_enabled: true,
            atmo_enabled: true,
            clouds_enabled,
            markers_equator: false,
            markers_poles: false,
            rivers_enabled,
            flora_enabled: true,
            nanite_enabled: true,
            knobs,
        }
    }

    /// The settings that the viewer starts with.
    pub fn start(
        knobs: [u64; KNOBS],
        paused: bool,
        clouds_enabled: bool,
        rivers_enabled: bool,
    ) -> (s: Settings)
        ensures
            s == Settings::initial(knobs, paused, clouds_enabled, rivers_enabled),
            s.wf(),
    {
        Settings {
            view_mode: 0,
            paused,
            wireframe: false,
            taa: false,
            ocean_enabled: true,
            wave_enabled: true,
            wind_enabled: true,
            atmo_enabled: true,
            clouds_enabled,
            markers_equator: false,
            markers_poles: false,
            rivers_enabled,
            flora_enabled: true,
            nanite_enabled: true,
            knobs,
        }
    }

    /// Whether the setting is on.
    pub fn is_on(&self, t: Toggle) -> (b: bool)
        ensures
            b == self.on(t),
    {
        match t {
            Toggle::Paused => self.paused,
            Toggle::Wireframe => self.wireframe,
            Toggle::Taa => self.taa,
            Toggle::Ocean => self.ocean_enabled,
            Toggle::Waves => self.wave_enabled,
            Toggle::Wind => self.wind_enabled,
            Toggle::Atmosphere => self.atmo_enabled,
            Toggle::Clouds => self.clouds_enabled,
            Toggle::Equator => self.markers_equator,
            Toggle::Poles => self.markers_poles,
            Toggle::Rivers => self.rivers_enabled,
            Toggle::Trees => self.flora_enabled,
            Toggle::Nanite => self.nanite_enabled,
        }
    }

    /// Switches a setting.
    pub fn set(&mut self, t: Toggle, v: bool)
        ensures
            *final(self) == old(self).with(t, v),
    {
        let now: Settings = *self;
        *self = match t {
            Toggle::Paused => Settings { paused: v, ..now },
            Toggle::Wireframe => Settings { wireframe: v, ..now },
            Toggle::Taa => Settings { taa: v, ..now },
            Toggle::Ocean => Settings { ocean_enabled: v, ..now },
            Toggle::Waves => Settings { wave_enabled: v, ..now },
            Toggle::Wind => Settings { wind_enabled: v, ..now },
            Toggle::Atmosphere => Settings { atmo_enabled: v, ..now },
            Toggle::Clouds => Settings { clouds_enabled: v, ..now },
            Toggle::Equator => Settings { markers_equator: v, ..now },
            Toggle::Poles => Settings { markers_poles: v, ..now },
            Toggle::Rivers => Settings { rivers_enabled: v, ..now },
            Toggle::Trees => Settings { flora_enabled: v, ..now },
            Toggle::Nanite => Settings { nanite_enabled: v, ..now },
        };
    }

    /// The bits of a number.
    pub fn get(&self, k: Knob) -> (v: u64)
        ensures
            v == self.bits(k),
    {
        self.knobs[k.slot()]
    }

    /// Sets a number, and nothing else.
    pub fn turn(&mut self, k: Knob, v: u64)
        ensures
            final(self).bits(k) == v,
            forall|o: Knob| o != k ==> #[trigger] final(self).bits(o) == old(self).bits(o),
            *final(self) == (Settings { knobs: final(self).knobs, ..*old(self) }),
    {
        let i: usize = k.slot();
        self.knobs[i] = v;
    }
}

/// What is set reads back, and no other setting moves with it.
pub proof fn settings_read_back(s: Settings, t: Toggle, v: bool, other: Toggle)
    ensures
        s.with(t, v).on(t) == v,
        other != t ==> s.with(t, v).on(other) == s.on(other),
        s.with(t, v).knobs == s.knobs,
        s.with(t, v).view_mode == s.view_mode,
{
}

/// A knob whose number is a share of a whole.
pub open spec fn is_share(k: Knob) -> bool {
    k is Foam || k is CloudCoverage || k is CloudType || k is CloudMoisture || k is CloudPowder
        || k is CloudCurl || k is TreeDensity
}

/// The ranges of the sliders, in units: shares go from nought to one; the sea as far below its
/// level as above; heights and sizes in the sky from some hundred metres to eight thousand.
pub proof fn ranges_make_sense(k: Knob)
    ensures
        k.span().0 < k.span().1,
        k.span().0 < 0 <==> k is SeaLevel,
        is_share(k) ==> k.span() == (0i64, 1_000_000i64),
        Knob::SeaLevel.span().0 == -Knob::SeaLevel.span().1,
        Knob::SeaLevel.span().1 == 1_200 * 1_000_000,
        Knob::TimeScale.span() == (60_000_000i64, 300_000_000_000i64),
        Knob::Choppiness.span() == (0i64, 2_500_000i64),
        Knob::WindSpeed.span() == (0i64, 400_000i64),
        Knob::WindWidth.span() == (500i64, 6_000i64),
        Knob::WindAltitude.span() == (0i64, 8_000_000_000i64),
        Knob::WindGust.span() == (0i64, 1_500_000i64),
        Knob::WindIntensity.span() == (0i64, 2_000_000i64),
        Knob::AtmoDensity.span() == Knob::WindIntensity.span(),
        Knob::AtmoHeight.span() == (200_000_000i64, 8_000_000_000i64),
        Knob::CloudBase.span() == Knob::AtmoHeight.span(),
        Knob::CloudThickness.span() == (500_000_000i64, 8_000_000_000i64),
        Knob::CloudScale.span() == Knob::CloudThickness.span(),
        Knob::CloudDensity.span() == (0i64, 250_000i64),
        Knob::CloudWind.span() == (0i64, 300_000_000i64),
        Knob::CloudScatter.span() == (0i64, 950_000i64),
        Knob::CloudSteps.span() == (16_000_000i64, 96_000_000i64),
        Knob::Threshold.span() == (250_000i64, 8_000_000i64),
{
}

/// Each number has a place of its own.
pub proof fn numbers_have_places_of_their_own(k: Knob, l: Knob)
    ensures
        0 <= k.place() < KNOBS,
        k.place() == l.place() ==> k == l,
{
}

} // verus!
