//! The integer arithmetic of the library against the same rules in binary
//! floating point.

use ta::indicators::ExponentialMovingAverage;
use ta::Next;
use twse_signals::amounts::{parse_change, parse_price};
use twse_signals::analysis::bullish_engulfing_pattern::is_bullish_engulfing;
use twse_signals::analysis::doji::doji;
use twse_signals::analysis::long_red_candle::long_red_candle;
use twse_signals::analysis::macd::{Ema, MacdCalculator, MacdCrossType, SCALE};
use twse_signals::calendar::{Date, YearMonth};
use twse_signals::data::monthly_data::DailyData;

const DAY: Date = Date { year: 2024, month: 11, day: 15 };

/// A price in currency units as a count of hundredths.
fn h(price: f64) -> u64 {
    (price * 100.0).round() as u64
}

/// A count of indicator units as a number of currency units.
fn units(value: i128) -> f64 {
    value as f64 / (100.0 * SCALE as f64)
}

fn bar(open: f64, close: f64, high: f64, low: f64) -> DailyData {
    DailyData {
        date: DAY,
        volume: 1,
        amount: 0,
        open: h(open),
        high: h(high),
        low: h(low),
        close: h(close),
        change: 0,
        transactions: 0,
        note: String::new(),
    }
}

/// A sequence of numbers that looks random and is always the same.
struct Walk(u64);

impl Walk {
    fn next(&mut self) -> u64 {
        self.0 = self.0.wrapping_mul(6364136223846793005).wrapping_add(1442695040888963407);
        self.0 >> 33
    }
}

fn closes(days: usize, seed: u64) -> Vec<u64> {
    let mut walk = Walk(seed);
    let mut price: u64 = 50_000;
    let mut out = Vec::new();
    for _ in 0..days {
        let step = walk.next() % 2001;
        price = (price + step).saturating_sub(1000).max(100);
        out.push(price);
    }
    out
}

#[test]
fn the_average_agrees_with_the_floating_point_average() {
    for period in [1u16, 2, 3, 9, 12, 26, 200] {
        let mut mine = Ema::new(period).unwrap();
        let mut theirs = ExponentialMovingAverage::new(period as usize).unwrap();
        for close in closes(500, period as u64) {
            let a = units(mine.next(close as i128 * SCALE));
            let b = theirs.next(close as f64 / 100.0);
            assert!((a - b).abs() < 1e-5, "period {}: {} against {}", period, a, b);
        }
    }
}

#[test]
fn the_indicator_agrees_with_the_floating_point_indicator() {
    for seed in 1..=5u64 {
        let mut mine = MacdCalculator::new(
            "2330",
            YearMonth { year: 2024, month: 1 },
            YearMonth { year: 2024, month: 1 },
        );
        let mut ema12 = ExponentialMovingAverage::new(12).unwrap();
        let mut ema26 = ExponentialMovingAverage::new(26).unwrap();
        let mut ema9 = ExponentialMovingAverage::new(9).unwrap();
        let mut prev_dif = 0.0f64;
        let mut prev_signal = 0.0f64;
        let mut crossings = 0;
        for (i, close) in closes(600, seed).into_iter().enumerate() {
            let (res, cross) = mine.feed(DAY, close);
            let price = close as f64 / 100.0;
            let dif = ema12.next(price) - ema26.next(price);
            let signal = ema9.next(dif);
            let histogram = dif - signal;
            assert!((units(res.dif) - dif).abs() < 1e-5, "day {}", i);
            assert!((units(res.macd_signal) - signal).abs() < 1e-5, "day {}", i);
            assert!((units(res.histogram) - histogram).abs() < 1e-5, "day {}", i);
            let theirs = if prev_dif <= prev_signal && dif > signal {
                Some(MacdCrossType::GoldenCross)
            } else if prev_dif >= prev_signal && dif < signal {
                Some(MacdCrossType::DeathCross)
            } else {
                None
            };
            // Where the lines are further apart than the two ways of
            // rounding, both see the same crossing.
            if (dif - signal).abs() > 1e-4 && (prev_dif - prev_signal).abs() > 1e-4 {
                assert_eq!(cross.map(|c| c.cross_type), theirs, "day {}", i);
                if theirs.is_some() {
                    crossings += 1;
                }
            }
            prev_dif = dif;
            prev_signal = signal;
        }
        assert!(crossings > 5);
    }
}

#[test]
fn prices_are_read_as_a_decimal_parser_reads_them() {
    for text in ["625.00", "628.00", "0.05", "1625.50", "12.3", "7", "1000000.99", "0.00"] {
        let wanted: f64 = text.parse().unwrap();
        assert_eq!(parse_price(text), h(wanted), "{}", text);
    }
    for text in ["-2.50", "+1.50", "0.00", "-0.05", "12.00"] {
        let wanted: f64 = text.parse().unwrap();
        assert_eq!(parse_change(text), (wanted * 100.0).round() as i64, "{}", text);
    }
    for text in [" 0.00", "X0.00", "--", "", "1,2x"] {
        let wanted: f64 = text.replace(",", "").parse().unwrap_or(0.0);
        assert_eq!(wanted, 0.0);
        assert_eq!(parse_price(text), 0, "{}", text);
        assert_eq!(parse_change(text), 0, "{}", text);
    }
}

#[test]
fn engulfing_in_currency_units() {
    let prev = bar(10.0, 8.0, 10.2, 7.8);
    assert!(is_bullish_engulfing(&prev, &bar(7.7, 10.3, 10.3, 7.6)));
    assert!(!is_bullish_engulfing(&prev, &bar(7.9, 10.3, 10.3, 7.6)));
}

#[test]
fn doji_in_currency_units() {
    assert!(!doji(&bar(100.0, 100.05, 100.05, 99.0)));
    assert!(doji(&bar(100.0, 100.01, 101.0, 99.0)));
    assert!(doji(&bar(100.0, 100.0, 100.5, 99.5)));
}

#[test]
fn the_rules_agree_with_floating_point_away_from_the_boundaries() {
    let mut walk = Walk(7);
    let mut dojis = 0;
    let mut candles = 0;
    for _ in 0..20_000 {
        let low = 1_000 + walk.next() % 5_000;
        let high = low + walk.next() % 300;
        let open = low + walk.next() % (high - low + 1);
        let close = if walk.next() % 3 == 0 { open + walk.next() % 3 } else { low + walk.next() % 800 };
        let r = DailyData {
            date: DAY,
            volume: 1,
            amount: 0,
            open,
            high,
            low,
            close,
            change: 0,
            transactions: 0,
            note: String::new(),
        };
        let (o, c, hi, lo) =
            (open as f64 / 100.0, close as f64 / 100.0, high as f64 / 100.0, low as f64 / 100.0);
        let range = high as i64 - low as i64;
        let apart = (open as i64 - close as i64).abs();
        if 100 * apart != range.max(100) {
            let theirs = (o - c).abs() < 0.01 * ((hi - lo).max(1.0)) && lo < o && o < hi && lo < c && c < hi;
            assert_eq!(doji(&r), theirs, "{:?}", r);
            if theirs {
                dojis += 1;
            }
        }
        if close * 100 != open * 105 {
            let theirs = c > o * 1.05;
            assert_eq!(long_red_candle(&r), theirs, "{:?}", r);
            if theirs {
                candles += 1;
            }
        }
    }
    assert!(dojis > 10);
    assert!(candles > 10);
}
