//! Depeg detection, second generation: a market's consensus price is compared with its peg,
//! and a tenant may replace each built-in decision by an expression.

pub mod detection;
pub mod dry_run;
pub mod evaluation;
pub mod mapping;
pub mod pattern;
pub mod policy;
