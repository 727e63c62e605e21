//! What becomes of a frame once the device was asked to begin it.
use vstd::prelude::*;

verus! {

/// How the device began a frame.
#[derive(Clone, Copy, Debug, PartialEq, Eq, Structural)]
pub enum Begun {
    /// There is a picture to draw on.
    Picture,
    /// The frame was begun, but there is nothing to draw on.
    NoPicture,
    /// The window's pictures changed under the frame.
    Lost,
    /// Something else went wrong.
    Failed,
}

/// What follows from it.
#[derive(Clone, Copy, Debug, PartialEq, Eq, Structural)]
pub struct Answer {
    /// The frame is drawn, and its last step ends it.
    pub draw: bool,
    /// The frame is ended with nothing drawn.
    pub end: bool,
    /// A new frame is asked for.
    pub redraw: bool,
    /// The frame counts.
    pub count: bool,
}

impl Begun {
    /// What follows.
    pub open spec fn answer(self) -> Answer {
        match self {
            Begun::Picture => Answer { draw: true, end: false, redraw: false, count: true },
            Begun::NoPicture => Answer { draw: false, end: true, redraw: false, count: false },
            Begun::Lost => Answer { draw: false, end: false, redraw: true, count: false },
            Begun::Failed => Answer { draw: false, end: false, redraw: false, count: false },
        }
    }
}

/// What follows from how the device began a frame. Only a frame with a picture is drawn and
/// counted. One without is ended at once; a lost one is tried again; a failed one is left.
pub fn after_begin(begun: Begun) -> (a: Answer)
    ensures
        a == begun.answer(),
{
    match begun {
        Begun::Picture => Answer { draw: true, end: false, redraw: false, count: true },
        Begun::NoPicture => Answer { draw: false, end: true, redraw: false, count: false },
        Begun::Lost => Answer { draw: false, end: false, redraw: true, count: false },
        Begun::Failed => Answer { draw: false, end: false, redraw: false, count: false },
    }
}

/// A frame that was begun is ended once: by its last step if it is drawn, else at once. One that
/// was not begun is not ended. What is not drawn does not
/// count. Only a lost frame is tried again.
pub proof fn begun_frames_are_ended(begun: Begun)
    ensures
        (begun is Picture || begun is NoPicture) <==> (begun.answer().draw != begun.answer().end),
        !(begun.answer().draw && begun.answer().end),
        begun.answer().count <==> begun.answer().draw,
        begun.answer().draw <==> begun is Picture,
        begun.answer().redraw <==> begun is Lost,
{
}

} // verus!
