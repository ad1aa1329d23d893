//! Daily trading records of listed stocks, the monthly cache that holds them,
//! and a fixed set of technical-analysis rules evaluated over them.
//!
//! Prices are exact: every price is an integer count of hundredths of the
//! currency unit, and the moving averages of the indicator engine are
//! integers on a finer fixed scale. Nothing in this crate rounds through
//! binary fractions, so every rule is decided by integer arithmetic alone.

pub mod amounts;
pub mod analysis;
pub mod calendar;
pub mod common;
pub mod data;
pub mod scripts;
pub mod sorting;
pub mod text;
pub mod twse;
