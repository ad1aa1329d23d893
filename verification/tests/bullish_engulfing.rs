use twse_signals::analysis::bullish_engulfing_pattern::{
    anal_date_company, anal_range_company, is_bullish_engulfing, needs_previous_month,
    EngulfingError,
};
use twse_signals::calendar::{Date, YearMonth};
use twse_signals::data::monthly_data::{DailyData, MonthWithPrevious, MonthlyData, StockMonths};
use twse_signals::scripts::bullish_engulfing_pattern::{
    anal_date_all_companies, anal_range_all_companies,
};

fn ymd(year: i32, month: u32, day: u32) -> Date {
    Date { year, month, day }
}

/// A record with prices in hundredths.
fn bar(date: Date, open: u64, close: u64, high: u64, low: u64) -> DailyData {
    DailyData {
        date,
        volume: 1,
        amount: 0,
        open,
        high,
        low,
        close,
        change: 0,
        transactions: 0,
        note: String::new(),
    }
}

fn series(stock_no: &str, year: i32, month: u32, daily_data: Vec<DailyData>) -> MonthlyData {
    MonthlyData { stock_no: stock_no.to_string(), year_month: YearMonth { year, month }, daily_data }
}

fn falling(date: Date) -> DailyData {
    bar(date, 1000, 800, 1020, 780)
}

fn engulfing(date: Date) -> DailyData {
    bar(date, 770, 1030, 1030, 760)
}

fn quiet(date: Date) -> DailyData {
    bar(date, 900, 900, 910, 890)
}

#[test]
fn engulfing_symmetry_boundary() {
    let prev = bar(ymd(2024, 11, 14), 1000, 800, 1020, 780);
    let curr = bar(ymd(2024, 11, 15), 770, 1030, 1030, 760);
    assert!(is_bullish_engulfing(&prev, &curr));
    let not_below = bar(ymd(2024, 11, 15), 790, 1030, 1030, 760);
    assert!(!is_bullish_engulfing(&prev, &not_below));
}

#[test]
fn engulfing_needs_each_of_its_four_conditions() {
    let prev = bar(ymd(2024, 11, 14), 1000, 800, 1020, 780);
    let curr = bar(ymd(2024, 11, 15), 770, 1030, 1030, 760);
    // The day before did not fall.
    assert!(!is_bullish_engulfing(&bar(ymd(2024, 11, 14), 800, 800, 1020, 780), &curr));
    assert!(!is_bullish_engulfing(&bar(ymd(2024, 11, 14), 800, 1000, 1020, 780), &curr));
    // The day did not rise.
    assert!(!is_bullish_engulfing(&prev, &bar(ymd(2024, 11, 15), 770, 770, 1030, 760)));
    // The open is at the low of the day before, not below it.
    assert!(!is_bullish_engulfing(&prev, &bar(ymd(2024, 11, 15), 780, 1030, 1030, 760)));
    assert!(is_bullish_engulfing(&prev, &bar(ymd(2024, 11, 15), 779, 1030, 1030, 760)));
    // The close is at the high of the day before, not above it.
    assert!(!is_bullish_engulfing(&prev, &bar(ymd(2024, 11, 15), 770, 1020, 1030, 760)));
    assert!(is_bullish_engulfing(&prev, &bar(ymd(2024, 11, 15), 770, 1021, 1030, 760)));
}

#[test]
fn range_compares_each_day_with_the_day_before() {
    let months = vec![series(
        "2330",
        2024,
        11,
        vec![
            engulfing(ymd(2024, 11, 5)),
            quiet(ymd(2024, 11, 1)),
            falling(ymd(2024, 11, 4)),
            falling(ymd(2024, 11, 6)),
            quiet(ymd(2024, 11, 7)),
        ],
    )];
    let hits = anal_range_company("2330", &months);
    assert_eq!(hits.len(), 1);
    assert_eq!(hits[0].stock_no, "2330");
    assert_eq!(hits[0].date, ymd(2024, 11, 5));
    assert_eq!(hits[0].curr_day.close, 1030);
}

#[test]
fn range_looks_back_across_the_start_of_a_month() {
    let months = vec![
        series("2330", 2024, 11, vec![quiet(ymd(2024, 11, 28)), falling(ymd(2024, 11, 29))]),
        series("2330", 2024, 12, vec![quiet(ymd(2024, 12, 3)), engulfing(ymd(2024, 12, 2))]),
    ];
    let hits = anal_range_company("2330", &months);
    assert_eq!(hits.len(), 1);
    assert_eq!(hits[0].date, ymd(2024, 12, 2));
}

#[test]
fn range_passes_over_malformed_records() {
    let months = vec![series(
        "2330",
        2024,
        11,
        vec![falling(ymd(2024, 11, 4)), bar(ymd(2024, 11, 5), 0, 0, 0, 0), engulfing(ymd(2024, 11, 6))],
    )];
    let hits = anal_range_company("2330", &months);
    assert_eq!(hits.len(), 1);
    assert_eq!(hits[0].date, ymd(2024, 11, 6));
}

#[test]
fn range_of_too_few_days_finds_nothing() {
    assert!(anal_range_company("2330", &Vec::new()).is_empty());
    let one = vec![series("2330", 2024, 11, vec![engulfing(ymd(2024, 11, 6))])];
    assert!(anal_range_company("2330", &one).is_empty());
}

#[test]
fn range_over_all_companies_goes_stock_after_stock() {
    let universe = vec![
        StockMonths {
            stock_no: "1101".to_string(),
            months: vec![series(
                "1101",
                2024,
                11,
                vec![falling(ymd(2024, 11, 4)), engulfing(ymd(2024, 11, 5))],
            )],
        },
        StockMonths {
            stock_no: "1102".to_string(),
            months: vec![series("1102", 2024, 11, vec![quiet(ymd(2024, 11, 4)), quiet(ymd(2024, 11, 5))])],
        },
        StockMonths {
            stock_no: "2330".to_string(),
            months: vec![series(
                "2330",
                2024,
                11,
                vec![
                    falling(ymd(2024, 11, 1)),
                    engulfing(ymd(2024, 11, 4)),
                    falling(ymd(2024, 11, 5)),
                    engulfing(ymd(2024, 11, 6)),
                ],
            )],
        },
    ];
    let got: Vec<(String, Date)> =
        anal_range_all_companies(&universe).iter().map(|p| (p.stock_no.clone(), p.date)).collect();
    assert_eq!(
        got,
        vec![
            ("1101".to_string(), ymd(2024, 11, 5)),
            ("2330".to_string(), ymd(2024, 11, 4)),
            ("2330".to_string(), ymd(2024, 11, 6)),
        ]
    );
}

#[test]
fn date_compares_with_the_day_before_in_the_month() {
    let m = series(
        "2330",
        2024,
        11,
        vec![engulfing(ymd(2024, 11, 5)), quiet(ymd(2024, 11, 1)), falling(ymd(2024, 11, 4))],
    );
    let hits = anal_date_company(&m, None, ymd(2024, 11, 5)).unwrap();
    assert_eq!(hits.len(), 1);
    assert_eq!(hits[0].stock_no, "2330");
    assert_eq!(hits[0].date, ymd(2024, 11, 5));
    assert!(anal_date_company(&m, None, ymd(2024, 11, 4)).unwrap().is_empty());
    assert!(!needs_previous_month(&m, ymd(2024, 11, 5)));
}

#[test]
fn date_without_a_record_finds_nothing() {
    let m = series("2330", 2024, 11, vec![falling(ymd(2024, 11, 4))]);
    assert_eq!(anal_date_company(&m, None, ymd(2024, 11, 9)).map(|v| v.len()), Ok(0));
    let empty = series("2330", 2024, 11, Vec::new());
    assert_eq!(anal_date_company(&empty, None, ymd(2024, 11, 9)).map(|v| v.len()), Ok(0));
    assert!(!needs_previous_month(&empty, ymd(2024, 11, 9)));
    assert!(!needs_previous_month(&m, ymd(2024, 11, 9)));
}

#[test]
fn the_first_trading_day_is_compared_with_the_last_of_the_month_before() {
    let m = series("2330", 2024, 12, vec![quiet(ymd(2024, 12, 3)), engulfing(ymd(2024, 12, 2))]);
    let before =
        series("2330", 2024, 11, vec![falling(ymd(2024, 11, 29)), quiet(ymd(2024, 11, 28))]);
    assert!(needs_previous_month(&m, ymd(2024, 12, 2)));
    assert!(!needs_previous_month(&m, ymd(2024, 12, 3)));
    let hits = anal_date_company(&m, Some(&before), ymd(2024, 12, 2)).unwrap();
    assert_eq!(hits.len(), 1);
    assert_eq!(hits[0].date, ymd(2024, 12, 2));
    let quiet_before =
        series("2330", 2024, 11, vec![falling(ymd(2024, 11, 28)), quiet(ymd(2024, 11, 29))]);
    assert!(anal_date_company(&m, Some(&quiet_before), ymd(2024, 12, 2)).unwrap().is_empty());
}

#[test]
fn without_prior_data_the_first_trading_day_has_no_answer() {
    let m = series("2330", 2024, 12, vec![engulfing(ymd(2024, 12, 2))]);
    assert_eq!(
        anal_date_company(&m, None, ymd(2024, 12, 2)).map(|v| v.len()),
        Err(EngulfingError::NoPriorData)
    );
    let empty = series("2330", 2024, 11, Vec::new());
    assert_eq!(
        anal_date_company(&m, Some(&empty), ymd(2024, 12, 2)).map(|v| v.len()),
        Err(EngulfingError::NoPriorData)
    );
    let only_gaps = series("2330", 2024, 11, vec![bar(ymd(2024, 11, 29), 0, 0, 0, 0)]);
    assert_eq!(
        anal_date_company(&m, Some(&only_gaps), ymd(2024, 12, 2)).map(|v| v.len()),
        Err(EngulfingError::NoPriorData)
    );
}

#[test]
fn date_over_all_companies() {
    let universe = vec![
        MonthWithPrevious {
            current: series("1101", 2024, 12, vec![engulfing(ymd(2024, 12, 2))]),
            previous: Some(series("1101", 2024, 11, vec![falling(ymd(2024, 11, 29))])),
        },
        MonthWithPrevious {
            current: series(
                "2330",
                2024,
                12,
                vec![falling(ymd(2024, 11, 29)), engulfing(ymd(2024, 12, 2))],
            ),
            previous: None,
        },
        MonthWithPrevious {
            current: series("2603", 2024, 12, vec![quiet(ymd(2024, 12, 3))]),
            previous: None,
        },
    ];
    let got: Vec<String> = anal_date_all_companies(&universe, ymd(2024, 12, 2))
        .unwrap()
        .iter()
        .map(|p| p.stock_no.clone())
        .collect();
    assert_eq!(got, vec!["1101", "2330"]);
}

#[test]
fn one_stock_without_prior_data_ends_the_whole_query() {
    let universe = vec![
        MonthWithPrevious {
            current: series(
                "1101",
                2024,
                12,
                vec![falling(ymd(2024, 12, 2)), engulfing(ymd(2024, 12, 3))],
            ),
            previous: None,
        },
        MonthWithPrevious {
            current: series("2330", 2024, 12, vec![engulfing(ymd(2024, 12, 3))]),
            previous: None,
        },
    ];
    assert_eq!(
        anal_date_all_companies(&universe, ymd(2024, 12, 3)).map(|v| v.len()),
        Err(EngulfingError::NoPriorData)
    );
    assert_eq!(anal_date_all_companies(&universe, ymd(2024, 12, 9)).map(|v| v.len()), Ok(0));
}
