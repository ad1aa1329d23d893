use twse_signals::amounts::{parse_change, parse_count, parse_price};

#[test]
fn parse_count_strips_the_commas() {
    assert_eq!(parse_count("46,924,943"), 46_924_943);
    assert_eq!(parse_count("29,237,425,981"), 29_237_425_981);
    assert_eq!(parse_count("51,671"), 51_671);
    assert_eq!(parse_count("0"), 0);
    assert_eq!(parse_count("007"), 7);
    assert_eq!(parse_count("+5"), 5);
    assert_eq!(parse_count("18446744073709551615"), u64::MAX);
}

#[test]
fn parse_count_defaults_to_zero() {
    assert_eq!(parse_count(""), 0);
    assert_eq!(parse_count(","), 0);
    assert_eq!(parse_count("+"), 0);
    assert_eq!(parse_count("abc"), 0);
    assert_eq!(parse_count("1.5"), 0);
    assert_eq!(parse_count("-3"), 0);
    assert_eq!(parse_count(" 12"), 0);
    assert_eq!(parse_count("12 "), 0);
    assert_eq!(parse_count("18446744073709551616"), 0);
}

#[test]
fn parse_price_counts_hundredths() {
    assert_eq!(parse_price("625.00"), 62_500);
    assert_eq!(parse_price("628.00"), 62_800);
    assert_eq!(parse_price("1,625.50"), 162_550);
    assert_eq!(parse_price("625"), 62_500);
    assert_eq!(parse_price("625.5"), 62_550);
    assert_eq!(parse_price("0.01"), 1);
    assert_eq!(parse_price(".5"), 50);
    assert_eq!(parse_price("5."), 500);
    assert_eq!(parse_price("+7.25"), 725);
    assert_eq!(parse_price("100.05"), 10_005);
}

#[test]
fn parse_price_drops_what_is_finer_than_a_hundredth() {
    assert_eq!(parse_price("625.567"), 62_556);
    assert_eq!(parse_price("0.009"), 0);
    assert_eq!(parse_price("1.999999999999999999999999999999"), 199);
}

#[test]
fn parse_price_defaults_to_zero() {
    assert_eq!(parse_price(""), 0);
    assert_eq!(parse_price("--"), 0);
    assert_eq!(parse_price("."), 0);
    assert_eq!(parse_price("X0.00"), 0);
    assert_eq!(parse_price(" 0.00"), 0);
    assert_eq!(parse_price("1.2.3"), 0);
    assert_eq!(parse_price("1e5"), 0);
    assert_eq!(parse_price("-1.00"), 0);
    assert_eq!(parse_price("-0.00"), 0);
    assert_eq!(parse_price("99999999999999999999999"), 0);
}

#[test]
fn parse_price_reaches_the_largest_price() {
    assert_eq!(parse_price("184467440737095516.15"), u64::MAX);
    assert_eq!(parse_price("184467440737095516.16"), 0);
}

#[test]
fn parse_change_keeps_the_sign() {
    assert_eq!(parse_change("-2.50"), -250);
    assert_eq!(parse_change("+1.50"), 150);
    assert_eq!(parse_change("3.00"), 300);
    assert_eq!(parse_change("0.00"), 0);
    assert_eq!(parse_change("-0.05"), -5);
    assert_eq!(parse_change("-1,000.00"), -100_000);
}

#[test]
fn parse_change_defaults_to_zero() {
    assert_eq!(parse_change(" 0.00"), 0);
    assert_eq!(parse_change("X0.00"), 0);
    assert_eq!(parse_change(""), 0);
    assert_eq!(parse_change("-"), 0);
    assert_eq!(parse_change("+-1"), 0);
}

#[test]
fn parse_change_reaches_both_ends() {
    assert_eq!(parse_change("92233720368547758.07"), i64::MAX);
    assert_eq!(parse_change("-92233720368547758.08"), i64::MIN);
    assert_eq!(parse_change("92233720368547758.08"), 0);
    assert_eq!(parse_change("-92233720368547758.09"), 0);
}
