//! What the movement keys ask of the walker.
use vstd::prelude::*;

verus! {

/// The movement keys that are held.
#[derive(Clone, Copy, Debug, PartialEq, Eq, Structural)]
pub struct MoveInput {
    /// Along the heading.
    pub forward: bool,
    /// Against the heading.
    pub backward: bool,
    pub left: bool,
    pub right: bool,
    pub sprint: bool,
}

impl Default for MoveInput {
    fn default() -> (m: Self)
        ensures
            m == (MoveInput {
                forward: false,
                backward: false,
                left: false,
                right: false,
                sprint: false,
            }),
    {
        MoveInput { forward: false, backward: false, left: false, right: false, sprint: false }
    }
}

/// One for a key that is held, zero for one that is not.
pub open spec fn held(key: bool) -> int {
    if key {
        1
    } else {
        0
    }
}

impl MoveInput {
    /// How far the keys pull along the heading: opposite keys cancel out.
    pub fn ahead(&self) -> (n: i32)
        ensures
            n == held(self.forward) - held(self.backward),
    {
        (if self.forward {
            1i32
        } else {
            0i32
        }) - (if self.backward {
            1i32
        } else {
            0i32
        })
    }

    /// How far the keys pull to the right.
    pub fn aside(&self) -> (n: i32)
        ensures
            n == held(self.right) - held(self.left),
    {
        (if self.right {
            1i32
        } else {
            0i32
        }) - (if self.left {
            1i32
        } else {
            0i32
        })
    }

    /// How many times the base speed free flight goes at.
    pub fn flight_boost(&self) -> (n: u32)
        ensures
            n == (if self.sprint {
                6u32
            } else {
                1u32
            }),
    {
        if self.sprint {
            6
        } else {
            1
        }
    }

    /// How many times the base speed the walker goes at.
    pub fn walk_boost(&self) -> (n: u32)
        ensures
            n == (if self.sprint {
                5u32
            } else {
                1u32
            }),
    {
        if self.sprint {
            SPRINT_MULTIPLIER
        } else {
            1
        }
    }

    /// The keys give the walker a direction: neither axis alone decides, and two opposite keys
    /// are as good as none.
    pub fn moves(&self) -> (b: bool)
        ensures
            b == (held(self.forward) - held(self.backward) != 0 || held(self.right) - held(
                self.left,
            ) != 0),
    {
        self.forward != self.backward || self.left != self.right
    }
}

/// How many times faster a sprint is than a walk.
pub const SPRINT_MULTIPLIER: u32 = 5;

} // verus!
