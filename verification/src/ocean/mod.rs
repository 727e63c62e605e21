//! The sea: wave meshes, the order of the wave transform, and what it adds up to.
pub mod clipmap;
pub mod fade;
pub mod fourier;
pub mod seams;
pub mod tiling;
pub mod transform;
