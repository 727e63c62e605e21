//! The application around the planet: how it starts, what its panel offers, what keys and
//! clicks do, and what each frame draws.
pub mod begin;
pub mod frame;
pub mod hud;
pub mod keys;
pub mod launch;
pub mod layout;
pub mod loading;
pub mod order;
pub mod panel;
pub mod place;
pub mod settings;
pub mod state;
