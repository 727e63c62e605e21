//! Navigation: where the viewer is, and what the keys ask for.
pub mod camera;
pub mod first_person;
pub mod nav_mode;
