//! The worker that runs rules over chain events: its options, where its rules and chains come
//! from, reference prices, and the alerts that it sends.

pub mod adapters;
pub mod alerts;
pub mod options;
pub mod reference;
pub mod rules;
