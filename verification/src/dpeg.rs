//! Depeg detection, first generation: a market's weighted median is compared with its peg, and
//! a breach is reported once it has lasted for a while.

pub mod detection;
pub mod evaluation;
pub mod pattern;
pub mod policy;
