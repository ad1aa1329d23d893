use twse_signals::analysis::doji::{anal_date_company as doji_on_date, doji, DojiAnalysisResult};
use twse_signals::analysis::long_red_candle::{
    anal_date_all_companies as candles_of_all, anal_date_company as candles_on_date,
    long_red_candle, long_red_candle_analysis,
};
use twse_signals::analysis::range::{anal_range_high_low_company, RangeHighLow};
use twse_signals::analysis::volume::{volume_exceeds, volume_larger_than_threshold};
use twse_signals::calendar::{Date, YearMonth};
use twse_signals::data::monthly_data::{DailyData, MonthlyData};
use twse_signals::scripts::complex::{
    anal_doji_in_swing_all_companies, doji_in_swing, SwingCandidate,
};
use twse_signals::scripts::data::fetch_data_yearly;
use twse_signals::scripts::doji::{anal_date_all_companies as doji_of_all, anal_month_all_compies};
use twse_signals::scripts::volume::volume_larger_than_threshold as volume_script;

fn ymd(year: i32, month: u32, day: u32) -> Date {
    Date { year, month, day }
}

/// A record with prices in hundredths.
fn bar(date: Date, open: u64, close: u64, high: u64, low: u64, volume: u64) -> DailyData {
    DailyData {
        date,
        volume,
        amount: 0,
        open,
        high,
        low,
        close,
        change: 0,
        transactions: 0,
        note: String::new(),
    }
}

fn series(stock_no: &str, year: i32, month: u32, daily_data: Vec<DailyData>) -> MonthlyData {
    MonthlyData { stock_no: stock_no.to_string(), year_month: YearMonth { year, month }, daily_data }
}

const DAY: Date = Date { year: 2024, month: 11, day: 15 };

#[test]
fn doji_boundary() {
    // Open 100, close 100.05, high 101, low 99: the bodies differ by 0.05,
    // and one hundredth of the range of 2 is 0.02.
    assert!(!doji(&bar(DAY, 10000, 10005, 10100, 9900, 1)));
    // The close touches the high.
    assert!(!doji(&bar(DAY, 10000, 10005, 10005, 9900, 1)));
    // Open 100, close 100.01, high 101, low 99: 0.01 is below 0.02.
    assert!(doji(&bar(DAY, 10000, 10001, 10100, 9900, 1)));
}

#[test]
fn doji_compares_with_a_hundredth_of_the_range() {
    // Range 10: the limit is 0.10.
    assert!(doji(&bar(DAY, 10000, 10009, 10500, 9500, 1)));
    assert!(!doji(&bar(DAY, 10000, 10010, 10500, 9500, 1)));
    assert!(doji(&bar(DAY, 10009, 10000, 10500, 9500, 1)));
    assert!(!doji(&bar(DAY, 10010, 10000, 10500, 9500, 1)));
}

#[test]
fn doji_counts_a_narrow_range_as_one_unit() {
    // Range 0.50 counts as 1: the limit is 0.01, so open and close must be
    // equal.
    assert!(doji(&bar(DAY, 10020, 10020, 10050, 10000, 1)));
    assert!(!doji(&bar(DAY, 10020, 10021, 10050, 10000, 1)));
    // Range exactly 1: the same limit.
    assert!(doji(&bar(DAY, 10050, 10050, 10100, 10000, 1)));
    assert!(!doji(&bar(DAY, 10050, 10051, 10100, 10000, 1)));
    // Range 1.01: the limit is 0.0101, and 0.01 is below it.
    assert!(doji(&bar(DAY, 10050, 10051, 10101, 10000, 1)));
}

#[test]
fn doji_needs_open_and_close_strictly_inside_the_range() {
    assert!(!doji(&bar(DAY, 10100, 10100, 10100, 9900, 1)));
    assert!(!doji(&bar(DAY, 9900, 9900, 10100, 9900, 1)));
    assert!(!doji(&bar(DAY, 10000, 10000, 10000, 10000, 1)));
    assert!(!doji(&bar(DAY, 10200, 10200, 10100, 9900, 1)));
    assert!(doji(&bar(DAY, 10000, 10000, 10100, 9900, 1)));
}

#[test]
fn doji_on_date_takes_the_records_of_the_date() {
    let m = series(
        "2330",
        2024,
        11,
        vec![
            bar(ymd(2024, 11, 14), 10000, 10000, 10100, 9900, 1),
            bar(DAY, 10000, 10000, 10100, 9900, 7),
            bar(ymd(2024, 11, 18), 10000, 10500, 10600, 9900, 1),
        ],
    );
    let hits = doji_on_date(&m, DAY);
    assert_eq!(hits.len(), 1);
    assert_eq!(hits[0].stock_no, "2330");
    assert_eq!(hits[0].daily_data.date, DAY);
    assert_eq!(hits[0].daily_data.volume, 7);
    assert!(doji_on_date(&m, ymd(2024, 11, 18)).is_empty());
    assert!(doji_on_date(&m, ymd(2024, 11, 19)).is_empty());
}

#[test]
fn doji_of_all_is_ordered_by_volume() {
    let universe = vec![
        series("1101", 2024, 11, vec![bar(DAY, 10000, 10000, 10100, 9900, 5)]),
        series("1102", 2024, 11, vec![bar(DAY, 10000, 10500, 10600, 9900, 50)]),
        series("2330", 2024, 11, vec![bar(DAY, 10000, 10000, 10100, 9900, 9)]),
        series("2603", 2024, 11, vec![bar(DAY, 10000, 10000, 10100, 9900, 5)]),
        series("2609", 2024, 11, vec![bar(DAY, 10000, 10000, 10100, 9900, 9)]),
    ];
    let hits = doji_of_all(&universe, DAY);
    let got: Vec<(&str, u64)> =
        hits.iter().map(|h| (h.stock_no.as_str(), h.daily_data.volume)).collect();
    assert_eq!(got, vec![("2330", 9), ("2609", 9), ("1101", 5), ("2603", 5)]);
}

#[test]
fn doji_of_a_month_over_all_companies() {
    let universe = vec![
        series(
            "1101",
            2024,
            11,
            vec![
                bar(ymd(2024, 11, 14), 10000, 10000, 10100, 9900, 1),
                bar(DAY, 10000, 10500, 10600, 9900, 2),
                bar(ymd(2024, 11, 18), 10000, 10000, 10100, 9900, 3),
            ],
        ),
        series("2330", 2024, 11, vec![bar(DAY, 10000, 10000, 10100, 9900, 4)]),
    ];
    let got: Vec<(String, Date)> = anal_month_all_compies(&universe)
        .iter()
        .map(|h| (h.stock_no.clone(), h.daily_data.date))
        .collect();
    assert_eq!(
        got,
        vec![
            ("1101".to_string(), ymd(2024, 11, 14)),
            ("1101".to_string(), ymd(2024, 11, 18)),
            ("2330".to_string(), DAY)
        ]
    );
}

#[test]
fn long_red_candle_closes_more_than_five_percent_up() {
    assert!(long_red_candle(&bar(DAY, 10000, 10501, 10600, 9900, 1)));
    assert!(!long_red_candle(&bar(DAY, 10000, 10500, 10600, 9900, 1)));
    assert!(!long_red_candle(&bar(DAY, 10000, 10000, 10600, 9900, 1)));
    assert!(!long_red_candle(&bar(DAY, 10000, 9000, 10600, 9900, 1)));
    // 1.05 times 0.01 is 0.0105: a close of 0.02 is above it.
    assert!(long_red_candle(&bar(DAY, 1, 2, 2, 1, 1)));
    assert!(long_red_candle(&bar(DAY, 1, u64::MAX, u64::MAX, 1, 1)));
    assert!(!long_red_candle(&bar(DAY, u64::MAX, u64::MAX, u64::MAX, 1, 1)));
}

#[test]
fn long_red_candles_of_a_month_and_of_a_date() {
    let mut placeholder = bar(ymd(2024, 11, 19), 0, 500, 0, 0, 1);
    placeholder.open = 0;
    let m = series(
        "2330",
        2024,
        11,
        vec![
            bar(ymd(2024, 11, 14), 10000, 10600, 10600, 9900, 1),
            bar(DAY, 10000, 10100, 10600, 9900, 2),
            bar(ymd(2024, 11, 18), 10000, 11000, 11000, 9900, 3),
            placeholder,
        ],
    );
    let all: Vec<Date> = long_red_candle_analysis(&m).iter().map(|r| r.date).collect();
    assert_eq!(all, vec![ymd(2024, 11, 14), ymd(2024, 11, 18)]);
    assert_eq!(candles_on_date(&m, ymd(2024, 11, 18)).len(), 1);
    assert!(candles_on_date(&m, DAY).is_empty());
    assert!(candles_on_date(&m, ymd(2024, 11, 19)).is_empty());
    let universe = vec![
        series("1101", 2024, 11, vec![bar(DAY, 10000, 10600, 10600, 9900, 1)]),
        series("1102", 2024, 11, vec![bar(DAY, 10000, 10100, 10600, 9900, 1)]),
        m,
        series("2603", 2024, 11, vec![bar(DAY, 10000, 12000, 12000, 9900, 9)]),
    ];
    let got: Vec<String> = candles_of_all(&universe, DAY).iter().map(|c| c.stock_no.clone()).collect();
    assert_eq!(got, vec!["1101", "2603"]);
}

#[test]
fn volume_above_the_threshold_is_flagged() {
    let universe = vec![
        series("1101", 2024, 11, vec![bar(DAY, 10000, 10000, 10100, 9900, 6_000_000)]),
        series("1102", 2024, 11, vec![bar(DAY, 10000, 10000, 10100, 9900, 4_999_000)]),
        series("2330", 2024, 11, vec![bar(DAY, 10000, 10000, 10100, 9900, 9_000_000)]),
        series("2603", 2024, 11, vec![bar(DAY, 10000, 10000, 10100, 9900, 5_000_000)]),
        series("2609", 2024, 11, vec![bar(DAY, 10000, 10000, 10100, 9900, 5_000_001)]),
    ];
    let hits = volume_larger_than_threshold(&universe, 5000, DAY);
    let got: Vec<(&str, u64)> =
        hits.iter().map(|h| (h.stock_no.as_str(), h.daily_data.volume)).collect();
    assert_eq!(got, vec![("2330", 9_000_000), ("1101", 6_000_000), ("2609", 5_000_001)]);
    let again = volume_script(&universe, 5000, DAY);
    assert_eq!(again.len(), 3);
    assert_eq!(again[0].stock_no, "2330");
}

#[test]
fn volume_rule_looks_only_at_the_date_and_at_clean_records() {
    let mut gap = bar(DAY, 0, 0, 0, 0, 99_000_000);
    gap.note = "gap".to_string();
    let universe = vec![
        series(
            "1101",
            2024,
            11,
            vec![
                bar(ymd(2024, 11, 14), 10000, 10000, 10100, 9900, 8_000_000),
                bar(DAY, 10000, 10000, 10100, 9900, 6_000_000),
            ],
        ),
        series("2330", 2024, 11, vec![gap]),
    ];
    let hits = volume_larger_than_threshold(&universe, 5000, DAY);
    assert_eq!(hits.len(), 1);
    assert_eq!(hits[0].daily_data.volume, 6_000_000);
    assert!(volume_larger_than_threshold(&Vec::new(), 0, DAY).is_empty());
}

#[test]
fn volume_threshold_counts_thousands_of_shares() {
    let r = bar(DAY, 1, 1, 1, 1, 1000);
    assert!(volume_exceeds(&r, 0));
    assert!(!volume_exceeds(&r, 1));
    assert!(!volume_exceeds(&bar(DAY, 1, 1, 1, 1, 0), 0));
    // A threshold whose thousandfold does not fit 64 bits is never met.
    assert!(!volume_exceeds(&bar(DAY, 1, 1, 1, 1, u64::MAX), u64::MAX));
    assert!(volume_exceeds(&bar(DAY, 1, 1, 1, 1, u64::MAX), 18_446_744_073_709_551));
    assert!(!volume_exceeds(&bar(DAY, 1, 1, 1, 1, u64::MAX), 18_446_744_073_709_552));
}

#[test]
fn range_finds_the_highest_and_the_lowest_close() {
    let months = vec![
        series(
            "2330",
            2024,
            10,
            vec![
                bar(ymd(2024, 10, 1), 10000, 10200, 10300, 9900, 1),
                bar(ymd(2024, 10, 2), 10000, 9800, 10300, 9700, 1),
            ],
        ),
        series("2330", 2024, 11, vec![bar(ymd(2024, 11, 1), 10000, 15000, 15000, 9900, 1)]),
        series(
            "2330",
            2024,
            12,
            vec![bar(ymd(2024, 12, 2), 0, 1, 0, 0, 1), bar(ymd(2024, 12, 3), 7000, 7100, 7200, 6900, 1)],
        ),
    ];
    assert_eq!(
        anal_range_high_low_company(&months),
        RangeHighLow { highest_price: 15000, lowest_price: 7100 }
    );
}

#[test]
fn range_of_nothing_is_zero_and_the_greatest_number() {
    let empty = RangeHighLow { highest_price: 0, lowest_price: u64::MAX };
    assert_eq!(anal_range_high_low_company(&Vec::new()), empty);
    assert_eq!(anal_range_high_low_company(&vec![series("2330", 2024, 10, Vec::new())]), empty);
    let only_gaps = vec![series("2330", 2024, 10, vec![bar(DAY, 0, 0, 0, 0, 1)])];
    assert_eq!(anal_range_high_low_company(&only_gaps), empty);
}

fn doji_hit(stock_no: &str, close: u64, volume: u64) -> DojiAnalysisResult {
    DojiAnalysisResult {
        stock_no: stock_no.to_string(),
        daily_data: bar(DAY, close, close, close + 100, close - 100, volume),
    }
}

#[test]
fn swing_flags_compare_with_thirteen_and_seven_tenths() {
    let hit = doji_hit("2330", 10000, 1);
    let both = doji_in_swing(&hit, RangeHighLow { highest_price: 13000, lowest_price: 7000 }).unwrap();
    assert!(both.meet_high && both.meet_low);
    assert_eq!((both.highest_price, both.lowest_price), (13000, 7000));
    assert_eq!(both.stock_no, "2330");
    assert_eq!(both.daily_data.close, 10000);
    let high = doji_in_swing(&hit, RangeHighLow { highest_price: 13000, lowest_price: 7001 }).unwrap();
    assert!(high.meet_high && !high.meet_low);
    let low = doji_in_swing(&hit, RangeHighLow { highest_price: 12999, lowest_price: 7000 }).unwrap();
    assert!(!low.meet_high && low.meet_low);
    assert!(doji_in_swing(&hit, RangeHighLow { highest_price: 12999, lowest_price: 7001 }).is_none());
    assert!(doji_in_swing(&hit, RangeHighLow { highest_price: 0, lowest_price: u64::MAX }).is_none());
}

#[test]
fn doji_in_swing_keeps_what_meets_a_flag_ordered_by_volume() {
    let wide = vec![series(
        "x",
        2024,
        10,
        vec![
            bar(ymd(2024, 10, 1), 10000, 14000, 14000, 9900, 1),
            bar(ymd(2024, 10, 2), 10000, 9000, 10300, 8900, 1),
        ],
    )];
    let narrow = vec![series(
        "x",
        2024,
        10,
        vec![
            bar(ymd(2024, 10, 1), 10000, 10500, 10600, 9900, 1),
            bar(ymd(2024, 10, 2), 10000, 9500, 10300, 9400, 1),
        ],
    )];
    let deep = vec![series("x", 2024, 10, vec![bar(ymd(2024, 10, 1), 6000, 6000, 6100, 5900, 1)])];
    let candidates = vec![
        SwingCandidate { doji: doji_hit("1101", 10000, 10), months: wide },
        SwingCandidate { doji: doji_hit("1102", 10000, 99), months: narrow },
        SwingCandidate { doji: doji_hit("2330", 10000, 30), months: deep },
        SwingCandidate { doji: doji_hit("2603", 10000, 20), months: Vec::new() },
    ];
    let got: Vec<(String, bool, bool, u64, u64)> = anal_doji_in_swing_all_companies(&candidates)
        .iter()
        .map(|r| (r.stock_no.clone(), r.meet_high, r.meet_low, r.highest_price, r.lowest_price))
        .collect();
    assert_eq!(
        got,
        vec![
            ("2330".to_string(), false, true, 6000, 6000),
            ("1101".to_string(), true, false, 14000, 9000),
        ]
    );
}

#[test]
fn a_year_has_twelve_months_to_fetch() {
    let months = fetch_data_yearly(2024);
    assert_eq!(months.len(), 12);
    assert_eq!(months[0], YearMonth { year: 2024, month: 1 });
    assert_eq!(months[11], YearMonth { year: 2024, month: 12 });
    let texts: Vec<String> = months.iter().map(|m| m.to_text()).collect();
    assert_eq!(texts[1], "202402");
    assert_eq!(texts[9], "202410");
}
