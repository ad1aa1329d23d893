use twse_signals::calendar::{Date, DateError};
use twse_signals::common::{divide_by_1000, format_commas, naive_to_roc_date, parse_roc_date, to_roc_date};

#[test]
fn format_commas_groups_in_threes() {
    assert_eq!(format_commas(0), "0");
    assert_eq!(format_commas(999), "999");
    assert_eq!(format_commas(1000), "1,000");
    assert_eq!(format_commas(1234567), "1,234,567");
    assert_eq!(format_commas(1000000), "1,000,000");
    assert_eq!(format_commas(u64::MAX), "18,446,744,073,709,551,615");
}

#[test]
fn divide_by_1000_drops_the_remainder() {
    assert_eq!(divide_by_1000(0), 0);
    assert_eq!(divide_by_1000(999), 0);
    assert_eq!(divide_by_1000(46_924_943), 46_924);
}

#[test]
fn to_roc_date_counts_years_from_1912() {
    assert_eq!(to_roc_date("20240201"), Ok("113/02/01".to_string()));
    assert_eq!(to_roc_date("20260130"), Ok("115/01/30".to_string()));
    assert_eq!(to_roc_date("19110101"), Ok("0/01/01".to_string()));
    assert_eq!(to_roc_date("19000101"), Ok("-11/01/01".to_string()));
}

#[test]
fn to_roc_date_rejects_what_is_no_date() {
    assert_eq!(to_roc_date("2024-02-01"), Err(DateError::Unreadable));
    assert_eq!(to_roc_date("20240230"), Err(DateError::Unreadable));
    assert_eq!(to_roc_date(""), Err(DateError::Unreadable));
    assert_eq!(to_roc_date("+123450101"), Err(DateError::Unreadable));
    assert_eq!(to_roc_date("+12345 01 01"), Err(DateError::YearOutOfRange));
    assert_eq!(to_roc_date("-0001 01 01"), Err(DateError::YearOutOfRange));
}

#[test]
fn naive_to_roc_date_pads_month_and_day() {
    assert_eq!(naive_to_roc_date(Date { year: 2024, month: 2, day: 1 }), "113/02/01");
    assert_eq!(naive_to_roc_date(Date { year: 2010, month: 12, day: 31 }), "99/12/31");
}

#[test]
fn parse_roc_date_reads_back_the_display_form() {
    assert_eq!(parse_roc_date("113/02/01"), Some(Date { year: 2024, month: 2, day: 1 }));
    assert_eq!(parse_roc_date("99/12/31"), Some(Date { year: 2010, month: 12, day: 31 }));
    assert_eq!(parse_roc_date("113/02/30"), None);
    assert_eq!(parse_roc_date("113/2/1"), None);
    assert_eq!(parse_roc_date("0113/02/01"), None);
    assert_eq!(parse_roc_date("113-02-01"), None);
    assert_eq!(parse_roc_date(""), None);
    assert_eq!(parse_roc_date("/02/01"), None);
    assert_eq!(parse_roc_date("113/02/01 "), None);
    assert_eq!(parse_roc_date("8088/12/31"), Some(Date { year: 9999, month: 12, day: 31 }));
    assert_eq!(parse_roc_date("8089/01/01"), None);
}

#[test]
fn parse_roc_date_reads_the_years_before_1911() {
    assert_eq!(parse_roc_date("0/01/01"), Some(Date { year: 1911, month: 1, day: 1 }));
    assert_eq!(parse_roc_date("-11/01/01"), Some(Date { year: 1900, month: 1, day: 1 }));
    assert_eq!(parse_roc_date("-1911/02/29"), Some(Date { year: 0, month: 2, day: 29 }));
    assert_eq!(parse_roc_date("-1912/01/01"), None);
    assert_eq!(parse_roc_date("-0/01/01"), None);
    assert_eq!(parse_roc_date("-011/01/01"), None);
    assert_eq!(parse_roc_date("00/01/01"), None);
    assert_eq!(parse_roc_date("-/01/01"), None);
    assert_eq!(parse_roc_date("+5/01/01"), None);
}

#[test]
fn the_display_form_of_a_date_reads_back_as_the_date() {
    for year in [0, 1, 1910, 1911, 1912, 2010, 2024, 9999] {
        for (month, day) in [(1, 1), (2, 28), (6, 30), (12, 31)] {
            let date = Date { year, month, day };
            assert_eq!(parse_roc_date(&naive_to_roc_date(date)), Some(date));
        }
    }
}
