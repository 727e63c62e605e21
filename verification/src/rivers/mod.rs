//! River networks from terrain heights and precipitation.
pub mod heap;
pub mod flood;
pub mod network;
pub mod ribbon;
