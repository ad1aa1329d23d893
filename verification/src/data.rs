//! The records of the cache.

pub mod monthly_data;
