use twse_signals::twse::company_map::{
    build_industry_map, clean_line, industry_code, is_listed, read_lines_to_vec, CompanyInfo,
    CompanyMap,
};

fn company(stock_no: &str, name: &str, industry: &str) -> CompanyInfo {
    CompanyInfo {
        stock_no: stock_no.to_string(),
        name: name.to_string(),
        industry: industry.to_string(),
    }
}

fn stocks(map: &CompanyMap) -> Vec<String> {
    map.stock_map.iter().map(|c| c.stock_no.clone()).collect()
}

#[test]
fn the_industry_table_has_its_labels() {
    let table = build_industry_map();
    assert_eq!(table.len(), 37);
    assert_eq!(table.get(&1), Some(&"水泥工業"));
    assert_eq!(table.get(&17), Some(&"金融保險業"));
    assert_eq!(table.get(&24), Some(&"半導體業"));
    assert_eq!(table.get(&38), Some(&"居家生活"));
    assert_eq!(table.get(&7), None);
    assert_eq!(table.get(&0), None);
    assert_eq!(table.get(&39), None);
}

#[test]
fn an_industry_code_is_two_digits() {
    assert_eq!(industry_code("01"), Some(1));
    assert_eq!(industry_code("24"), Some(24));
    assert_eq!(industry_code("00"), Some(0));
    assert_eq!(industry_code("1"), None);
    assert_eq!(industry_code("001"), None);
    assert_eq!(industry_code(" 1"), None);
    assert_eq!(industry_code("XX"), None);
    assert_eq!(industry_code(""), None);
}

#[test]
fn new_leaves_out_the_ignored_and_the_financial_companies() {
    let companies = vec![
        company("2330", "台積電", "24"),
        company("2881", "富邦金", "17"),
        company("1101", "台泥", "01"),
        company("9999", "某某", "20"),
        company("1216", "統一", "02"),
    ];
    let ignore = vec!["9999".to_string()];
    let map = CompanyMap::new(&companies, &ignore);
    assert_eq!(stocks(&map), vec!["1101", "1216", "2330"]);
}

#[test]
fn new_orders_by_the_stock_number_as_a_text() {
    let companies = vec![
        company("2330", "a", "24"),
        company("00878", "b", "20"),
        company("1101", "c", "01"),
        company("110", "d", "01"),
        company("1101B", "e", "01"),
        company("0050", "f", "20"),
    ];
    let map = CompanyMap::new(&companies, &Vec::new());
    assert_eq!(stocks(&map), vec!["0050", "00878", "110", "1101", "1101B", "2330"]);
}

#[test]
fn new_of_nothing_is_an_empty_directory() {
    let map = CompanyMap::new(&Vec::new(), &Vec::new());
    assert!(map.stock_map.is_empty());
    assert!(!map.knows("2330"));
}

#[test]
fn get_joins_the_name_and_the_label_of_the_sector() {
    let companies = vec![
        company("2330", "台積電", "24"),
        company("1101", "台泥", "01"),
        company("2603", "長榮", "15"),
    ];
    let map = CompanyMap::new(&companies, &Vec::new());
    assert_eq!(map.get("2330"), "台積電/半導體業");
    assert_eq!(map.get("1101"), "台泥/水泥工業");
    assert_eq!(map.get("2603"), "長榮/航運業");
}

#[test]
fn get_shows_an_unknown_sector_as_such() {
    let companies = vec![
        company("1", "a", "07"),
        company("2", "b", "91"),
        company("3", "c", ""),
        company("4", "d", "1"),
        company("5", "e", "XX"),
    ];
    let map = CompanyMap::new(&companies, &Vec::new());
    for stock in ["1", "2", "3", "4", "5"] {
        assert!(map.get(stock).ends_with("/未知產業"), "{}", stock);
    }
    assert_eq!(map.get("1"), "a/未知產業");
}

#[test]
fn knows_tells_the_stocks_of_the_directory() {
    let map = CompanyMap::new(&vec![company("2330", "台積電", "24")], &Vec::new());
    assert!(map.knows("2330"));
    assert!(!map.knows("233"));
    assert!(!map.knows("23300"));
    assert!(!map.knows(""));
}

#[test]
fn get_takes_the_first_company_of_a_stock() {
    let companies = vec![company("2330", "first", "24"), company("2330", "second", "01")];
    let map = CompanyMap::new(&companies, &Vec::new());
    assert_eq!(map.get("2330"), "first/半導體業");
}

#[test]
fn is_listed_compares_whole_texts() {
    let list = vec!["2330".to_string(), "1101".to_string()];
    assert!(is_listed(&list, &"1101".to_string()));
    assert!(!is_listed(&list, &"110".to_string()));
    assert!(!is_listed(&Vec::new(), &"1101".to_string()));
}

#[test]
fn clean_line_strips_comment_and_white_space() {
    assert_eq!(clean_line("2330"), "2330");
    assert_eq!(clean_line("  2330  "), "2330");
    assert_eq!(clean_line("\t2330 // a comment"), "2330");
    assert_eq!(clean_line("2330//x//y"), "2330");
    assert_eq!(clean_line("// only a comment"), "");
    assert_eq!(clean_line("   "), "");
    assert_eq!(clean_line(""), "");
    assert_eq!(clean_line("23 30"), "23 30");
    assert_eq!(clean_line("2330 / 1"), "2330 / 1");
    assert_eq!(clean_line("2330/"), "2330/");
    assert_eq!(clean_line("\u{3000}2330\u{a0}"), "2330");
    assert_eq!(clean_line("台積電 // 半導體"), "台積電");
}

#[test]
fn read_lines_to_vec_passes_over_empty_lines() {
    let lines: Vec<String> = vec!["2330", "", "  // nothing", " 1101 // cement", "\t", "2603"]
        .into_iter()
        .map(String::from)
        .collect();
    assert_eq!(read_lines_to_vec(&lines), vec!["2330", "1101", "2603"]);
    assert!(read_lines_to_vec(&Vec::new()).is_empty());
}
