//! Plants: genes, render modes, leaves, scattering, welding.
pub mod cas;
pub mod dials;
pub mod genome_schema;
pub mod grove;
pub mod leaf;
pub mod names;
pub mod render_mode;
pub mod scatter;
pub mod staging;
pub mod streams;
pub mod viewer;
pub mod viewer_order;
pub mod weld;
