//! The analyses run over the whole universe of stocks.

pub mod bullish_engulfing_pattern;
pub mod complex;
pub mod data;
pub mod doji;
pub mod macd;
pub mod volume;
