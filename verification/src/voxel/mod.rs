//! On-demand voxel terrain: which leaves are drawn, cached and being meshed.
pub mod accounts;
pub mod chunk_key;
pub mod draw;
pub mod effects;
pub mod key_list;
pub mod mesh_cache;
pub mod view;
