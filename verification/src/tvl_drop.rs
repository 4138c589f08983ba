//! Detection of drops of the value locked in a protocol, abrupt or sustained.

pub mod detection;
pub mod pattern;
pub mod reading;
pub mod rule;
pub mod state;
pub mod window;
