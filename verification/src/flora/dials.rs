//! What the viewer's panel can set besides genes: the surroundings that a plant grows in, and how
//! the picture moves and glows.
//!
//! Ranges are whole millionths. Values stand as the bit patterns of floating-point numbers.
use vstd::prelude::*;

verus! {

/// What a plant grows in.
#[derive(Clone, Copy, Debug, PartialEq, Eq, Structural)]
pub enum Medium {
    Air,
    Water,
}

impl Medium {
    /// What it is called.
    pub open spec fn name(self) -> Seq<char> {
        match self {
            Medium::Air => "Air"@,
            Medium::Water => "Water"@,
        }
    }

    /// What it is called.
    pub fn label(self) -> (t: &'static str)
        ensures
            t@ == self.name(),
    {
        match self {
            Medium::Air => "Air",
            Medium::Water => "Water",
        }
    }
}

/// The media on offer, in order.
pub fn media() -> (list: Vec<Medium>)
    ensures
        list@ == seq![Medium::Air, Medium::Water],
{
    let list: Vec<Medium> = vec![Medium::Air, Medium::Water];
    assert(list@ =~= seq![Medium::Air, Medium::Water]);
    list
}

/// A slider of the surroundings.
#[derive(Clone, Copy, Debug, PartialEq, Eq, Structural)]
pub enum Dial {
    Gravity,
    Light,
    SunAngle,
    Wind,
    Aridity,
    Temperature,
}

impl Dial {
    /// What is written beside it.
    pub open spec fn name(self) -> Seq<char> {
        match self {
            Dial::Gravity => "Gravity"@,
            Dial::Light => "Light"@,
            Dial::SunAngle => "Sun angle"@,
            Dial::Wind => "Wind"@,
            Dial::Aridity => "Aridity"@,
            Dial::Temperature => "Temperature"@,
        }
    }

    /// What is written beside it.
    pub fn label(self) -> (t: &'static str)
        ensures
            t@ == self.name(),
    {
        match self {
            Dial::Gravity => "Gravity",
            Dial::Light => "Light",
            Dial::SunAngle => "Sun angle",
            Dial::Wind => "Wind",
            Dial::Aridity => "Aridity",
            Dial::Temperature => "Temperature",
        }
    }

    /// From where to where it goes.
    pub fn range(self) -> (r: (i64, i64))
        ensures
            r == (if self is Gravity {
                (100_000i64, 3_000_000i64)
            } else {
                (0i64, 1_000_000i64)
            }),
    {
        match self {
            Dial::Gravity => (100_000, 3_000_000),
            _ => (0, 1_000_000),
        }
    }
}

/// A row of the tab of the surroundings.
#[derive(Clone, Copy, Debug, PartialEq, Eq, Structural)]
pub enum ClimateRow {
    Slider(Dial),
    /// The choice of the medium.
    Media,
}

/// The rows of the tab of the surroundings, in order.
pub open spec fn climate() -> Seq<ClimateRow> {
    seq![
        ClimateRow::Slider(Dial::Gravity),
        ClimateRow::Media,
        ClimateRow::Slider(Dial::Light),
        ClimateRow::Slider(Dial::SunAngle),
        ClimateRow::Slider(Dial::Wind),
        ClimateRow::Slider(Dial::Aridity),
        ClimateRow::Slider(Dial::Temperature),
    ]
}

/// The rows of the tab of the surroundings, in order.
pub fn climate_rows() -> (list: Vec<ClimateRow>)
    ensures
        list@ == climate(),
{
    let list: Vec<ClimateRow> = vec![
        ClimateRow::Slider(Dial::Gravity),
        ClimateRow::Media,
        ClimateRow::Slider(Dial::Light),
        ClimateRow::Slider(Dial::SunAngle),
        ClimateRow::Slider(Dial::Wind),
        ClimateRow::Slider(Dial::Aridity),
        ClimateRow::Slider(Dial::Temperature),
    ];
    assert(list@ =~= climate());
    list
}

/// The surroundings, as bit patterns of `f64` values.
#[derive(Clone, Copy, Debug, PartialEq, Eq, Structural)]
pub struct Surroundings {
    pub gravity: u64,
    pub light: u64,
    pub sun_angle: u64,
    pub wind: u64,
    pub aridity: u64,
    pub temperature: u64,
    pub medium: Medium,
}

impl Surroundings {
    /// What a slider stands at.
    pub open spec fn at(self, dial: Dial) -> u64 {
        match dial {
            Dial::Gravity => self.gravity,
            Dial::Light => self.light,
            Dial::SunAngle => self.sun_angle,
            Dial::Wind => self.wind,
            Dial::Aridity => self.aridity,
            Dial::Temperature => self.temperature,
        }
    }

    /// What a slider stands at.
    pub fn get(&self, dial: Dial) -> (v: u64)
        ensures
            v == self.at(dial),
    {
        match dial {
            Dial::Gravity => self.gravity,
            Dial::Light => self.light,
            Dial::SunAngle => self.sun_angle,
            Dial::Wind => self.wind,
            Dial::Aridity => self.aridity,
            Dial::Temperature => self.temperature,
        }
    }

    /// A slider was moved: the others stay, and so does the medium.
    pub fn turn(&mut self, dial: Dial, value: u64)
        ensures
            forall|d: Dial| #[trigger]
                final(self).at(d) == (if d == dial {
                    value
                } else {
                    old(self).at(d)
                }),
            final(self).medium == old(self).medium,
    {
        match dial {
            Dial::Gravity => self.gravity = value,
            Dial::Light => self.light = value,
            Dial::SunAngle => self.sun_angle = value,
            Dial::Wind => self.wind = value,
            Dial::Aridity => self.aridity = value,
            Dial::Temperature => self.temperature = value,
        }
    }

    /// A medium was picked; tells whether it is another.
    pub fn pick(&mut self, medium: Medium) -> (other: bool)
        ensures
            *final(self) == (Surroundings { medium, ..*old(self) }),
            other == (old(self).medium != medium),
    {
        let other: bool = self.medium != medium;
        self.medium = medium;
        other
    }
}

/// A slider of the view.
#[derive(Clone, Copy, Debug, PartialEq, Eq, Structural)]
pub enum ViewDial {
    WindStrength,
    /// Where the wind blows, east and north.
    WindX,
    WindZ,
    BloomStrength,
}

impl ViewDial {
    /// What is written beside it.
    pub open spec fn name(self) -> Seq<char> {
        match self {
            ViewDial::WindStrength => "strength"@,
            ViewDial::WindX => "dir x"@,
            ViewDial::WindZ => "dir z"@,
            ViewDial::BloomStrength => "strength"@,
        }
    }

    /// What is written beside it.
    pub fn label(self) -> (t: &'static str)
        ensures
            t@ == self.name(),
    {
        match self {
            ViewDial::WindStrength => "strength",
            ViewDial::WindX => "dir x",
            ViewDial::WindZ => "dir z",
            ViewDial::BloomStrength => "strength",
        }
    }

    /// From where to where it goes.
    pub fn range(self) -> (r: (i64, i64))
        ensures
            r == (match self {
                ViewDial::WindStrength => (0i64, 1_500_000i64),
                ViewDial::WindX => (-1_000_000i64, 1_000_000i64),
                ViewDial::WindZ => (-1_000_000i64, 1_000_000i64),
                ViewDial::BloomStrength => (0i64, 1_000_000i64),
            }),
    {
        match self {
            ViewDial::WindStrength => (0, 1_500_000),
            ViewDial::WindX => (-1_000_000, 1_000_000),
            ViewDial::WindZ => (-1_000_000, 1_000_000),
            ViewDial::BloomStrength => (0, 1_000_000),
        }
    }

    /// It can be moved: the strength of the bloom exactly while there is bloom, the wind always.
    pub open spec fn moves(self, bloom_on: bool) -> bool {
        self is BloomStrength ==> bloom_on
    }

    /// It can be moved.
    pub fn usable(self, bloom_on: bool) -> (b: bool)
        ensures
            b == self.moves(bloom_on),
    {
        match self {
            ViewDial::BloomStrength => bloom_on,
            _ => true,
        }
    }
}

/// A row of the view's window, below the render modes.
#[derive(Clone, Copy, Debug, PartialEq, Eq, Structural)]
pub enum ViewRow {
    Rule,
    WindSwitch,
    BloomSwitch,
    Slider(ViewDial),
}

/// The rows of the view's window below the render modes, in order.
pub open spec fn view_list() -> Seq<ViewRow> {
    seq![
        ViewRow::Rule,
        ViewRow::WindSwitch,
        ViewRow::Slider(ViewDial::WindStrength),
        ViewRow::Slider(ViewDial::WindX),
        ViewRow::Slider(ViewDial::WindZ),
        ViewRow::Rule,
        ViewRow::BloomSwitch,
        ViewRow::Slider(ViewDial::BloomStrength),
    ]
}

/// The rows of the view's window below the render modes, in order.
pub fn view_rows() -> (list: Vec<ViewRow>)
    ensures
        list@ == view_list(),
{
    let list: Vec<ViewRow> = vec![
        ViewRow::Rule,
        ViewRow::WindSwitch,
        ViewRow::Slider(ViewDial::WindStrength),
        ViewRow::Slider(ViewDial::WindX),
        ViewRow::Slider(ViewDial::WindZ),
        ViewRow::Rule,
        ViewRow::BloomSwitch,
        ViewRow::Slider(ViewDial::BloomStrength),
    ];
    assert(list@ =~= view_list());
    list
}

/// How the picture moves and glows, as bit patterns of `f32` values.
#[derive(Clone, Copy, Debug, PartialEq, Eq, Structural)]
pub struct Looks {
    pub wind_strength: u32,
    pub wind_x: u32,
    pub wind_z: u32,
    pub bloom_strength: u32,
}

/// A gentle wind along the first axis, of strength 0.6, and a bloom of strength 0.15.
pub open spec fn first_looks() -> Looks {
    Looks {
        wind_strength: 0x3F19_999A,
        wind_x: 0x3F80_0000,
        wind_z: 0,
        bloom_strength: 0x3E19_999A,
    }
}

impl Default for Looks {
    fn default() -> (looks: Self)
        ensures
            looks == first_looks(),
    {
        Looks {
            wind_strength: 0x3F19_999A,
            wind_x: 0x3F80_0000,
            wind_z: 0,
            bloom_strength: 0x3E19_999A,
        }
    }
}

impl Looks {
    /// What a slider stands at.
    pub open spec fn at(self, dial: ViewDial) -> u32 {
        match dial {
            ViewDial::WindStrength => self.wind_strength,
            ViewDial::WindX => self.wind_x,
            ViewDial::WindZ => self.wind_z,
            ViewDial::BloomStrength => self.bloom_strength,
        }
    }

    /// The looks once a slider was moved, if it can be.
    pub open spec fn turned(self, dial: ViewDial, value: u32, bloom_on: bool) -> Looks {
        match dial {
            ViewDial::WindStrength => Looks { wind_strength: value, ..self },
            ViewDial::WindX => Looks { wind_x: value, ..self },
            ViewDial::WindZ => Looks { wind_z: value, ..self },
            ViewDial::BloomStrength => if bloom_on {
                Looks { bloom_strength: value, ..self }
            } else {
                self
            },
        }
    }

    /// What a slider stands at.
    pub fn get(&self, dial: ViewDial) -> (v: u32)
        ensures
            v == self.at(dial),
    {
        match dial {
            ViewDial::WindStrength => self.wind_strength,
            ViewDial::WindX => self.wind_x,
            ViewDial::WindZ => self.wind_z,
            ViewDial::BloomStrength => self.bloom_strength,
        }
    }

    /// A slider was moved.
    pub fn turn(&mut self, dial: ViewDial, value: u32, bloom_on: bool)
        ensures
            *final(self) == old(self).turned(dial, value, bloom_on),
    {
        match dial {
            ViewDial::WindStrength => self.wind_strength = value,
            ViewDial::WindX => self.wind_x = value,
            ViewDial::WindZ => self.wind_z = value,
            ViewDial::BloomStrength => {
                if bloom_on {
                    self.bloom_strength = value;
                }
            },
        }
    }

    /// How strong the wind blows in a frame: not at all where it is off.
    pub fn wind_shown(&self, wind_on: bool) -> (v: u32)
        ensures
            v == (if wind_on {
                self.wind_strength
            } else {
                0
            }),
    {
        if wind_on {
            self.wind_strength
        } else {
            0
        }
    }

    /// How strong the bloom is in a frame: none where it is off.
    pub fn bloom_shown(&self, bloom_on: bool) -> (v: u32)
        ensures
            v == (if bloom_on {
                self.bloom_strength
            } else {
                0
            }),
    {
        if bloom_on {
            self.bloom_strength
        } else {
            0
        }
    }
}

/// A slider that can be moved takes the value, one that cannot keeps its own, and no other slider
/// moves with it.
pub proof fn sliders_move_alone(
    looks: Looks,
    dial: ViewDial,
    value: u32,
    bloom_on: bool,
    other: ViewDial,
)
    ensures
        looks.turned(dial, value, bloom_on).at(other) == (if other == dial && dial.moves(bloom_on) {
            value
        } else {
            looks.at(other)
        }),
{
}

/// Every slider is offered once, and so is the choice of a medium.
pub proof fn surroundings_are_offered_once(d: Dial, i: int, j: int)
    requires
        0 <= i < j < climate().len(),
    ensures
        climate().contains(ClimateRow::Slider(d)),
        climate().contains(ClimateRow::Media),
        climate()[i] != climate()[j],
{
    let at: int = match d {
        Dial::Gravity => 0,
        Dial::Light => 2,
        Dial::SunAngle => 3,
        Dial::Wind => 4,
        Dial::Aridity => 5,
        Dial::Temperature => 6,
    };
    assert(climate()[at] == ClimateRow::Slider(d));
    assert(climate()[1] == ClimateRow::Media);
}

/// Every slider of the picture is offered once and stands under its switch: those of the wind under
/// the switch of the wind, that of the glow under the other. A rule stands above each switch.
pub proof fn picture_is_offered_once(v: ViewDial, i: int)
    ensures
        view_list().contains(ViewRow::Slider(v)),
        0 <= i < view_list().len() ==> (view_list()[i] is WindSwitch <==> i == 1),
        0 <= i < view_list().len() ==> (view_list()[i] is BloomSwitch <==> i == 6),
        0 <= i < view_list().len() ==> (view_list()[i] is Rule <==> i == 0 || i == 5),
        0 <= i < view_list().len() && view_list()[i] == ViewRow::Slider(v) ==> (if v
            is BloomStrength {
            i > 6
        } else {
            1 < i < 5
        }),
        view_list().len() == 8,
        ViewDial::BloomStrength.moves(false) == false,
        v !is BloomStrength ==> v.moves(false) && v.moves(true),
        v.moves(true),
{
    let at: int = match v {
        ViewDial::WindStrength => 2,
        ViewDial::WindX => 3,
        ViewDial::WindZ => 4,
        ViewDial::BloomStrength => 7,
    };
    assert(view_list()[at] == ViewRow::Slider(v));
}

/// At first the wind blows east at six tenths, and the glow has a quarter of its strength: the
/// exponent of a number stands above 23 bits.
pub proof fn first_wind_blows_east()
    ensures
        first_looks().at(ViewDial::WindX) == 127 * 0x80_0000,
        first_looks().at(ViewDial::WindZ) == 0,
        first_looks().at(ViewDial::WindStrength) == 126 * 0x80_0000 + 0x19_999A,
        first_looks().at(ViewDial::WindStrength) == first_looks().at(ViewDial::BloomStrength) + 2
            * 0x80_0000,
{
}

} // verus!
