//! Cluster streaming and rendering: slots, residency, baking of nodes, debug exports.
pub mod page_pool;
pub mod render;
pub mod streamer;
pub mod debug;
pub mod upload;
