//! Where the viewer is.
use vstd::prelude::*;

verus! {

/// Where the viewer is.
#[derive(Clone, Copy, Debug, PartialEq, Eq, Structural)]
pub enum Place {
    /// In orbit.
    Globe,
    /// In orbit, choosing a point to land on.
    Placement,
    /// On the ground.
    Surface,
    /// In free flight.
    Space,
}

impl Place {
    /// What the place is called.
    pub open spec fn name(self) -> Seq<char> {
        match self {
            Place::Globe => "Globe"@,
            Place::Placement => "Placement"@,
            Place::Surface => "Surface"@,
            Place::Space => "Space"@,
        }
    }

    /// What the place is called.
    pub fn label(self) -> (t: &'static str)
        ensures
            t@ == self.name(),
    {
        match self {
            Place::Globe => "Globe",
            Place::Placement => "Placement",
            Place::Surface => "Surface",
            Place::Space => "Space",
        }
    }
}

} // verus!
