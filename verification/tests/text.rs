use twse_signals::sorting::{place, stable_sort};
use twse_signals::text::{
    chars_of, contains_text, kept_stretch, push_decimal, push_fixed, read_digits, same_text,
    text_comes_not_after, trimmed_text,
};
use twse_signals::twse::company_map::CompanyInfo;

#[test]
fn chars_of_gives_the_characters_in_order() {
    assert_eq!(chars_of("a台b"), vec!['a', '台', 'b']);
    assert!(chars_of("").is_empty());
}

#[test]
fn push_decimal_writes_without_leading_zeros() {
    let mut s = String::from("x");
    push_decimal(&mut s, 0);
    push_decimal(&mut s, 7);
    push_decimal(&mut s, 1203);
    assert_eq!(s, "x071203");
    let mut t = String::new();
    push_decimal(&mut t, u64::MAX);
    assert_eq!(t, "18446744073709551615");
}

#[test]
fn push_fixed_writes_the_given_number_of_digits() {
    let mut s = String::new();
    push_fixed(&mut s, 7, 2);
    push_fixed(&mut s, 12, 2);
    push_fixed(&mut s, 5, 4);
    push_fixed(&mut s, 0, 3);
    push_fixed(&mut s, 9, 0);
    assert_eq!(s, "07120005000");
    let mut cut = String::new();
    push_fixed(&mut cut, 12345, 3);
    assert_eq!(cut, "345");
}

#[test]
fn read_digits_reads_a_stretch() {
    let chars = chars_of("ab123cd");
    assert_eq!(read_digits(&chars, 2, 5), Some(123));
    assert_eq!(read_digits(&chars, 2, 2), Some(0));
    assert_eq!(read_digits(&chars, 1, 5), None);
    assert_eq!(read_digits(&chars, 2, 6), None);
    let big = chars_of("18446744073709551615");
    assert_eq!(read_digits(&big, 0, 20), Some(u64::MAX));
    let too_big = chars_of("18446744073709551616");
    assert_eq!(read_digits(&too_big, 0, 20), None);
    // Digits of other scripts are no digits here.
    let other = chars_of("١٢٣");
    assert_eq!(read_digits(&other, 0, 3), None);
}

#[test]
fn contains_text_finds_a_run_of_characters() {
    assert!(contains_text("hello world", "lo w"));
    assert!(contains_text("hello", "hello"));
    assert!(contains_text("hello", ""));
    assert!(contains_text("", ""));
    assert!(contains_text("aab", "ab"));
    assert!(contains_text("查詢日期大於今日", "日期大於"));
    assert!(!contains_text("hello", "hello!"));
    assert!(!contains_text("hello", "lol"));
    assert!(!contains_text("", "a"));
    assert!(!contains_text("查詢日期大於今日", "日期小於"));
}

#[test]
fn same_text_compares_every_character() {
    assert!(same_text("OK", "OK"));
    assert!(same_text("", ""));
    assert!(!same_text("OK", "Ok"));
    assert!(!same_text("OK", "OK "));
    assert!(!same_text("", "a"));
}

#[test]
fn texts_are_ordered_like_a_dictionary() {
    assert!(text_comes_not_after("", ""));
    assert!(text_comes_not_after("", "a"));
    assert!(!text_comes_not_after("a", ""));
    assert!(text_comes_not_after("1101", "2330"));
    assert!(!text_comes_not_after("2330", "1101"));
    assert!(text_comes_not_after("110", "1101"));
    assert!(!text_comes_not_after("1101", "110"));
    assert!(text_comes_not_after("2330", "2330"));
    assert!(text_comes_not_after("Z", "a"));
    assert!(text_comes_not_after("z", "台"));
    for (a, b) in [("0050", "00878"), ("9", "10"), ("abc", "abd"), ("台", "積")] {
        assert_eq!(text_comes_not_after(a, b), a <= b, "{} {}", a, b);
        assert_eq!(text_comes_not_after(b, a), b <= a, "{} {}", b, a);
    }
}

#[test]
fn trimmed_text_drops_the_white_space_at_both_ends() {
    let chars = chars_of("  a b\t\n");
    assert_eq!(trimmed_text(&chars, 0, chars.len()), "a b");
    assert_eq!(trimmed_text(&chars, 0, 2), "");
    assert_eq!(trimmed_text(&chars, 2, 3), "a");
    assert_eq!(trimmed_text(&chars, 3, 3), "");
    assert_eq!(trimmed_text(&chars, 1, 5), "a b");
}

#[test]
fn kept_stretch_drops_the_set_marks_at_both_ends() {
    assert_eq!(kept_stretch(&vec![true, true, false, true, false, true]), (2, 5));
    assert_eq!(kept_stretch(&vec![false, false]), (0, 2));
    assert_eq!(kept_stretch(&vec![true, true]), (2, 2));
    assert_eq!(kept_stretch(&vec![false]), (0, 1));
    assert_eq!(kept_stretch(&vec![true, false]), (1, 2));
    assert_eq!(kept_stretch(&vec![false, true]), (0, 1));
    assert_eq!(kept_stretch(&Vec::new()), (0, 0));
}

fn company(stock_no: &str, name: &str) -> CompanyInfo {
    CompanyInfo { stock_no: stock_no.to_string(), name: name.to_string(), industry: String::new() }
}

#[test]
fn sorting_is_stable() {
    let v = vec![
        company("2", "a"),
        company("1", "b"),
        company("2", "c"),
        company("1", "d"),
        company("3", "e"),
        company("2", "f"),
    ];
    let names: Vec<String> = stable_sort(v).iter().map(|c| c.name.clone()).collect();
    assert_eq!(names, vec!["b", "d", "a", "c", "f", "e"]);
    assert!(stable_sort(Vec::<CompanyInfo>::new()).is_empty());
}

#[test]
fn place_puts_a_value_behind_its_equals() {
    let mut v = vec![company("1", "a"), company("2", "b"), company("2", "c"), company("4", "d")];
    place(&mut v, company("2", "new"));
    place(&mut v, company("0", "first"));
    place(&mut v, company("9", "last"));
    let names: Vec<String> = v.iter().map(|c| c.name.clone()).collect();
    assert_eq!(names, vec!["first", "a", "b", "c", "new", "d", "last"]);
}
