//! The stages of the load, and what the loading screen says of them.
use vstd::prelude::*;

verus! {

/// A stage of the load.
#[derive(Clone, Copy, Debug, PartialEq, Eq, Structural)]
pub enum Stage {
    Starting,
    Heightfield,
    /// Only where the program has clusters.
    Bake,
    Upload,
}

/// What the loading screen says, with how much is done in hundredths.
#[derive(Debug)]
pub struct LoadProgress {
    pub percent: u32,
    pub message: String,
}

impl Stage {
    /// How much is done when the stage begins, in hundredths.
    pub open spec fn percent(self) -> u32 {
        match self {
            Stage::Starting => 0,
            Stage::Heightfield => 5,
            Stage::Bake => 40,
            Stage::Upload => 95,
        }
    }

    /// What the loading screen says.
    pub open spec fn message(self) -> Seq<char> {
        match self {
            Stage::Starting => "Initializing…"@,
            Stage::Heightfield => "Building terrain heightfield…"@,
            Stage::Bake => "Baking Nanite planet (6 deep face DAGs)…"@,
            Stage::Upload => "Uploading to GPU…"@,
        }
    }

    /// The stage after this one; none after the last. Without clusters nothing is baked.
    pub open spec fn after(self, nanite: bool) -> Option<Stage> {
        match self {
            Stage::Starting => Some(Stage::Heightfield),
            Stage::Heightfield => if nanite {
                Some(Stage::Bake)
            } else {
                Some(Stage::Upload)
            },
            Stage::Bake => Some(Stage::Upload),
            Stage::Upload => None,
        }
    }

    /// What the loading screen shows in this stage.
    pub fn progress(self) -> (p: LoadProgress)
        ensures
            p.percent == self.percent(),
            p.message@ == self.message(),
    {
        match self {
            Stage::Starting => LoadProgress { percent: 0, message: "Initializing…".to_owned() },
            Stage::Heightfield => LoadProgress {
                percent: 5,
                message: "Building terrain heightfield…".to_owned(),
            },
            Stage::Bake => LoadProgress {
                percent: 40,
                message: "Baking Nanite planet (6 deep face DAGs)…".to_owned(),
            },
            Stage::Upload => LoadProgress {
                percent: 95,
                message: "Uploading to GPU…".to_owned(),
            },
        }
    }

    /// The stage after this one; none after the last.
    pub fn next(self, nanite: bool) -> (s: Option<Stage>)
        ensures
            s == self.after(nanite),
    {
        match self {
            Stage::Starting => Some(Stage::Heightfield),
            Stage::Heightfield => if nanite {
                Some(Stage::Bake)
            } else {
                Some(Stage::Upload)
            },
            Stage::Bake => Some(Stage::Upload),
            Stage::Upload => None,
        }
    }
}

/// The bar only moves forward.
pub proof fn progress_grows(s: Stage, nanite: bool)
    ensures
        s.after(nanite) matches Some(t) ==> s.percent() < t.percent() < 100,
{
}

/// A load goes through its stages once: the terrain first, then the clusters where there are any,
/// then the upload, which is the last.
pub proof fn stages_follow_one_another(nanite: bool)
    ensures
        Stage::Starting.after(nanite) == Some(Stage::Heightfield),
        nanite ==> Stage::Heightfield.after(nanite) == Some(Stage::Bake) && Stage::Bake.after(nanite)
            == Some(Stage::Upload),
        !nanite ==> Stage::Heightfield.after(nanite) == Some(Stage::Upload),
        Stage::Upload.after(nanite) is None,
        Stage::Starting.percent() == 0 && Stage::Heightfield.percent() == 5 && Stage::Bake.percent()
            == 40 && Stage::Upload.percent() == 95,
{
}

} // verus!
