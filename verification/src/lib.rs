//! Detection rules over market, protocol and chain events.

pub mod aggregation;
pub mod assoc;
pub mod cache;
pub mod depeg_v2;
pub mod digits;
pub mod double;
pub mod dpeg;
pub mod event;
pub mod expression;
pub mod flash_loan;
pub mod generic_rule;
pub mod incident;
pub mod json;
pub mod order;
pub mod outside;
pub mod quotes;
pub mod reader;
pub mod settings;
pub mod text;
pub mod time;
pub mod tvl_drop;
pub mod worker;
