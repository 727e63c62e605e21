//! The verified core of the planet renderer: what decides, counts and lays out.
#![allow(unused_imports)]

pub mod arith;
pub mod controls;
pub mod flora;
pub mod grid;
pub mod nanite;
pub mod ocean;
pub mod order;
pub mod rivers;
pub mod scene;
pub mod shell;
pub mod stress;
pub mod sums;
pub mod text;
pub mod voxel;
