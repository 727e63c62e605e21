//! A camera as it is stored and handed back.
use vstd::prelude::*;

verus! {

/// A camera. Each number stands as its bit pattern, so that a stored camera comes back bit
/// for bit.
#[derive(Clone, Copy, Debug, PartialEq, Eq)]
pub struct Camera {
    /// World position, double precision.
    pub position: (u64, u64, u64),
    /// Quaternion, single precision.
    pub orientation: (u32, u32, u32, u32),
    pub fov_y_radians: u32,
    pub near: u32,
    pub far: u32,
}

} // verus!
