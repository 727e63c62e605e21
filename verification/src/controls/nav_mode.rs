//! Which camera controller is active, and how one hands over to the next.
//!
//! The modes form a ring: from the globe to the choice of a landing point, from there to the
//! ground, and from the ground back to the globe. The orbit camera is kept across the ring
//! and handed back at its end.
use vstd::prelude::*;

use crate::controls::camera::Camera;

verus! {

/// The active navigation mode.
#[derive(Clone, Copy, Debug, PartialEq, Eq, Structural)]
pub enum NavMode {
    /// Orbiting the planet.
    Globe,
    /// Choosing a point to land on.
    Placement,
    /// Walking on the surface.
    FirstPerson,
}

/// The state of a [`NavState`] as mathematics.
#[verifier::ext_equal]
pub struct Nav {
    pub mode: NavMode,
    pub saved: Option<Camera>,
}

impl Nav {
    /// Orbiting, with nothing to come back to.
    pub open spec fn start() -> Nav {
        Nav { mode: NavMode::Globe, saved: None }
    }

    /// A camera is saved exactly while away from the globe.
    pub open spec fn wf(self) -> bool {
        self.saved is Some <==> self.mode !is Globe
    }

    /// After the wish to land.
    pub open spec fn placing(self, camera: Camera) -> Nav {
        if self.mode is Globe {
            Nav { mode: NavMode::Placement, saved: Some(camera) }
        } else {
            self
        }
    }

    /// After a point was picked.
    pub open spec fn landed(self) -> Nav {
        if self.mode is Placement {
            Nav { mode: NavMode::FirstPerson, ..self }
        } else {
            self
        }
    }

    /// After leaving the ground.
    pub open spec fn left(self) -> Nav {
        if self.mode is FirstPerson {
            Nav::start()
        } else {
            self
        }
    }
}

/// The navigation mode, and the orbit camera to come back to.
#[derive(Clone, Copy, Debug)]
pub struct NavState {
    mode: NavMode,
    saved_globe_camera: Option<Camera>,
}

impl View for NavState {
    type V = Nav;

    closed spec fn view(&self) -> Nav {
        Nav { mode: self.mode, saved: self.saved_globe_camera }
    }
}

impl NavState {
    /// Starts on the globe.
    pub fn new() -> (s: Self)
        ensures
            s@ == Nav::start(),
            s@.wf(),
    {
        NavState { mode: NavMode::Globe, saved_globe_camera: None }
    }

    /// The current mode.
    pub fn mode(&self) -> (m: NavMode)
        ensures
            m == self@.mode,
    {
        self.mode
    }

    /// From the globe to the choice of a point, saving the orbit camera. Elsewhere nothing
    /// happens.
    pub fn begin_placement(&mut self, globe_camera: &Camera)
        ensures
            final(self)@ == old(self)@.placing(*globe_camera),
            old(self)@.wf() ==> final(self)@.wf(),
    {
        if self.mode == NavMode::Globe {
            self.saved_globe_camera = Some(*globe_camera);
            self.mode = NavMode::Placement;
        }
    }

    /// From the choice of a point to the ground. Elsewhere nothing happens.
    pub fn point_picked(&mut self)
        ensures
            final(self)@ == old(self)@.landed(),
            old(self)@.wf() ==> final(self)@.wf(),
    {
        if self.mode == NavMode::Placement {
            self.mode = NavMode::FirstPerson;
        }
    }

    /// From the ground back to the globe, handing out the saved camera. Elsewhere nothing
    /// happens, and there is none.
    pub fn exit_first_person(&mut self) -> (camera: Option<Camera>)
        ensures
            final(self)@ == old(self)@.left(),
            camera == (if old(self)@.mode is FirstPerson {
                old(self)@.saved
            } else {
                None
            }),
            old(self)@.wf() ==> final(self)@.wf(),
    {
        if self.mode == NavMode::FirstPerson {
            self.mode = NavMode::Globe;
            self.saved_globe_camera.take()
        } else {
            None
        }
    }

    /// There is a camera to come back to.
    pub fn has_saved_globe_camera(&self) -> (b: bool)
        ensures
            b == (self@.saved is Some),
    {
        self.saved_globe_camera.is_some()
    }

    /// The camera to come back to.
    pub fn saved_globe_camera(&self) -> (camera: Option<&Camera>)
        ensures
            camera == (match self@.saved {
                Some(c) => Some(&c),
                None => None,
            }),
    {
        self.saved_globe_camera.as_ref()
    }
}

impl Default for NavState {
    fn default() -> (s: Self)
        ensures
            s@ == Nav::start(),
            s@.wf(),
    {
        NavState::new()
    }
}

/// Landing and leaving gives back the orbit camera that the landing began with, and ends
/// where it began.
pub proof fn landing_gives_the_orbit_back(nav: Nav, camera: Camera)
    requires
        nav.wf(),
        nav.mode is Globe,
    ensures
        nav.placing(camera).landed().saved == Some(camera),
        nav.placing(camera).landed().mode is FirstPerson,
        nav.placing(camera).landed().left() == nav,
{
}

/// A second wish to land, on the way or on the ground, neither moves nor saves anything.
pub proof fn landing_cannot_begin_twice(nav: Nav, first: Camera, second: Camera)
    ensures
        nav.placing(first).placing(second) == nav.placing(first),
        nav.placing(first).landed().placing(second) == nav.placing(first).landed(),
{
}

} // verus!
