//! The rules evaluated over daily records.

pub mod bullish_engulfing_pattern;
pub mod doji;
pub mod long_red_candle;
pub mod macd;
pub mod range;
pub mod volume;
