//! The scene of markers, which shows whether depth is precise from arm's length to far beyond
//! the planet. All lengths are metres.
use vstd::prelude::*;

verus! {

/// A sphere of the scene.
#[derive(Clone, Copy, Debug, PartialEq, Eq, Structural)]
pub enum Body {
    Planet,
    Near,
    MidNear,
    Mid,
    Far,
    Water,
}

/// How large a sphere is, how finely it is cut, and where it stands.
#[derive(Clone, Copy, Debug, PartialEq, Eq)]
pub struct Sphere {
    pub radius: u32,
    pub segments: u32,
    /// Where it stands from the first camera, ahead and to the right; at the centre of the planet
    /// if none.
    pub from_camera: Option<(u32, u32)>,
}

/// The radius of the planet.
pub const PLANET_RADIUS: u32 = 50_000;

/// How far the first camera stands from the centre of the planet.
pub const CAMERA_RADIUS: u32 = 150_000;

impl Body {
    /// The sphere.
    pub open spec fn shape(self) -> Sphere {
        match self {
            Body::Planet => Sphere { radius: PLANET_RADIUS, segments: 64, from_camera: None },
            Body::Near => Sphere { radius: 1, segments: 16, from_camera: Some((5, 0)) },
            Body::MidNear => Sphere { radius: 250, segments: 24, from_camera: Some((500, 0)) },
            Body::Mid => Sphere { radius: 5_000, segments: 32, from_camera: Some((50_000, 0)) },
            Body::Far => Sphere {
                radius: 15_000,
                segments: 32,
                from_camera: Some((700_000, 260_000)),
            },
            Body::Water => Sphere { radius: 50_500, segments: 64, from_camera: None },
        }
    }

    /// The sphere.
    pub fn sphere(self) -> (s: Sphere)
        ensures
            s == self.shape(),
    {
        match self {
            Body::Planet => Sphere { radius: PLANET_RADIUS, segments: 64, from_camera: None },
            Body::Near => Sphere { radius: 1, segments: 16, from_camera: Some((5, 0)) },
            Body::MidNear => Sphere { radius: 250, segments: 24, from_camera: Some((500, 0)) },
            Body::Mid => Sphere { radius: 5_000, segments: 32, from_camera: Some((50_000, 0)) },
            Body::Far => Sphere {
                radius: 15_000,
                segments: 32,
                from_camera: Some((700_000, 260_000)),
            },
            Body::Water => Sphere { radius: 50_500, segments: 64, from_camera: None },
        }
    }
}

/// The spheres, in the order in which they are made.
pub open spec fn all_bodies() -> Seq<Body> {
    seq![Body::Planet, Body::Near, Body::MidNear, Body::Mid, Body::Far, Body::Water]
}

/// The spheres, in the order in which they are made.
pub fn bodies() -> (list: Vec<Body>)
    ensures
        list@ == all_bodies(),
{
    let list: Vec<Body> = vec![
        Body::Planet,
        Body::Near,
        Body::MidNear,
        Body::Mid,
        Body::Far,
        Body::Water,
    ];
    assert(list@ =~= all_bodies());
    list
}

/// How surfaces are drawn.
#[derive(Clone, Copy, Debug, PartialEq, Eq, Structural)]
pub enum Pipe {
    Terrain,
    /// As lines.
    TerrainLines,
    /// Blended over what is there.
    Water,
}

/// A step of drawing the scene.
#[derive(Clone, Copy, Debug, PartialEq, Eq, Structural)]
pub enum Step {
    Viewport,
    /// Takes up a way to draw; what the frame has in common is handed over after it.
    Bind(Pipe),
    Draw { body: Body, material: u32 },
}

/// How the scene is drawn: what is solid first, filled or as lines, then the water, which is
/// always filled.
pub open spec fn scene_steps(material: u32, wireframe: bool) -> Seq<Step> {
    seq![
        Step::Viewport,
        Step::Bind(
            if wireframe {
                Pipe::TerrainLines
            } else {
                Pipe::Terrain
            },
        ),
        Step::Draw { body: Body::Planet, material },
        Step::Draw { body: Body::Near, material },
        Step::Draw { body: Body::MidNear, material },
        Step::Draw { body: Body::Mid, material },
        Step::Draw { body: Body::Far, material },
        Step::Bind(Pipe::Water),
        Step::Draw { body: Body::Water, material: 0 },
    ]
}

/// How the scene is drawn.
pub fn record_frame(material: u32, wireframe: bool) -> (list: Vec<Step>)
    ensures
        list@ == scene_steps(material, wireframe),
{
    let terrain: Pipe = if wireframe {
        Pipe::TerrainLines
    } else {
        Pipe::Terrain
    };
    let list: Vec<Step> = vec![
        Step::Viewport,
        Step::Bind(terrain),
        Step::Draw { body: Body::Planet, material },
        Step::Draw { body: Body::Near, material },
        Step::Draw { body: Body::MidNear, material },
        Step::Draw { body: Body::Mid, material },
        Step::Draw { body: Body::Far, material },
        Step::Bind(Pipe::Water),
        Step::Draw { body: Body::Water, material: 0 },
    ];
    assert(list@ =~= scene_steps(material, wireframe));
    list
}

/// Every marker stands in front of the camera, and the camera outside of every marker.
pub proof fn markers_are_ahead(b: Body)
    ensures
        b.shape().from_camera matches Some(at) ==> at.0 > b.shape().radius,
{
}

/// The far marker stands clear of the planet's limb: seen from the camera, it is farther to the
/// side than the planet reaches at its distance. The camera is three radii out.
pub proof fn far_marker_is_seen()
    ensures
        Body::Far.shape().from_camera matches Some(at) && (at.1 * at.1) * (CAMERA_RADIUS
            * CAMERA_RADIUS - PLANET_RADIUS * PLANET_RADIUS) > (at.0 * PLANET_RADIUS) * (at.0
            * PLANET_RADIUS),
        Body::Planet.shape().radius == 50_000,
        3 * Body::Planet.shape().radius == CAMERA_RADIUS,
{
    assert(260_000 * 260_000 * (150_000 * 150_000 - 50_000 * 50_000) > (700_000 * 50_000) * (
    700_000 * 50_000)) by (nonlinear_arith);
}

/// The water lies over the planet.
pub proof fn water_lies_outside()
    ensures
        Body::Water.shape().radius > Body::Planet.shape().radius,
        Body::Water.shape().from_camera == Body::Planet.shape().from_camera,
{
}

/// Every sphere is drawn once, in the order in which they are made, so the water comes last: it is
/// blended over all that is solid.
pub proof fn every_body_is_drawn_once(material: u32, wireframe: bool, n: int) -> (at: int)
    requires
        0 <= n < all_bodies().len(),
    ensures
        0 <= at < scene_steps(material, wireframe).len(),
        scene_steps(material, wireframe)[at] == (Step::Draw {
            body: all_bodies()[n],
            material: if all_bodies()[n] is Water {
                0
            } else {
                material
            },
        }),
        forall|i: int|
            0 <= i < scene_steps(material, wireframe).len() && i != at ==> (
            #[trigger] scene_steps(material, wireframe)[i] matches Step::Draw { body, .. } ==> body
                != all_bodies()[n]),
        all_bodies().last() is Water,
{
    if n < 5 {
        n + 2
    } else {
        8
    }
}

/// A sphere is drawn the way that was taken up last: solid ones filled or as lines, as asked, and
/// the water always as water.
pub proof fn bodies_are_drawn_their_way(material: u32, wireframe: bool, at: int) -> (bound: int)
    requires
        0 <= at < scene_steps(material, wireframe).len(),
        scene_steps(material, wireframe)[at] is Draw,
    ensures
        0 <= bound < at,
        scene_steps(material, wireframe)[0] is Viewport,
        scene_steps(material, wireframe)[bound] == Step::Bind(
            if scene_steps(material, wireframe)[at]->body is Water {
                Pipe::Water
            } else if wireframe {
                Pipe::TerrainLines
            } else {
                Pipe::Terrain
            },
        ),
        forall|i: int|
            bound < i <= at ==> #[trigger] scene_steps(material, wireframe)[i] is Draw,
{
    if at < 7 {
        1
    } else {
        7
    }
}

/// The markers stand farther and farther away, from arm's length to far beyond the planet, and
/// each is larger than the one before.
pub proof fn markers_span_the_scene()
    ensures
        Body::Near.shape().from_camera == Some((5u32, 0u32)),
        Body::MidNear.shape().from_camera == Some((500u32, 0u32)),
        Body::Mid.shape().from_camera == Some((50_000u32, 0u32)),
        Body::Far.shape().from_camera == Some((700_000u32, 260_000u32)),
        Body::Planet.shape().from_camera is None && Body::Water.shape().from_camera is None,
        Body::Near.shape().radius == 1,
        Body::MidNear.shape().radius == 250,
        Body::Mid.shape().radius == 5_000,
        Body::Far.shape().radius == 15_000,
        Body::Planet.shape().radius == 50_000,
        Body::Water.shape().radius == 50_500,
        Body::Near.shape().segments == 16,
        Body::MidNear.shape().segments == 24,
        Body::Mid.shape().segments == 32,
        Body::Far.shape().segments == 32,
        Body::Planet.shape().segments == 64,
        Body::Water.shape().segments == 64,
{
}

} // verus!
