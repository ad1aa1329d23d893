use twse_signals::analysis::macd::{MacdCross, MacdCrossType};
use twse_signals::analysis::volume::VolumeAnalysisResult;
use twse_signals::calendar::Date;
use twse_signals::data::monthly_data::DailyData;
use twse_signals::scripts::complex::anal_macd_golden_volume_larger_date;

const DAY: Date = Date { year: 2024, month: 11, day: 15 };

fn cross(stock_no: &str, cross_type: MacdCrossType, dif: i128) -> MacdCross {
    MacdCross { stock_no: stock_no.to_string(), date: DAY, dif, macd_signal: 0, cross_type }
}

fn volume(stock_no: &str, volume: u64) -> VolumeAnalysisResult {
    VolumeAnalysisResult {
        stock_no: stock_no.to_string(),
        daily_data: DailyData {
            date: DAY,
            volume,
            amount: 0,
            open: 100,
            high: 110,
            low: 90,
            close: 105,
            change: 0,
            transactions: 0,
            note: String::new(),
        },
    }
}

#[test]
fn golden_crosses_are_joined_with_the_volume_of_their_stock() {
    let crosses = vec![
        cross("1101", MacdCrossType::GoldenCross, 5),
        cross("1102", MacdCrossType::DeathCross, -5),
        cross("2330", MacdCrossType::GoldenCross, 7),
        cross("2603", MacdCrossType::GoldenCross, 9),
    ];
    let volumes = vec![
        volume("2330", 9_000_000),
        volume("1102", 8_000_000),
        volume("1101", 6_000_000),
        volume("9999", 7_000_000),
    ];
    let got: Vec<(String, i128, u64)> = anal_macd_golden_volume_larger_date(&crosses, &volumes)
        .iter()
        .map(|r| {
            assert_eq!(r.macd_cross.stock_no, r.volume_result.stock_no);
            assert_eq!(r.macd_cross.cross_type, MacdCrossType::GoldenCross);
            (r.macd_cross.stock_no.clone(), r.macd_cross.dif, r.volume_result.daily_data.volume)
        })
        .collect();
    assert_eq!(
        got,
        vec![("2330".to_string(), 7, 9_000_000), ("1101".to_string(), 5, 6_000_000)]
    );
}

#[test]
fn the_join_is_ordered_by_volume_and_keeps_ties_in_the_order_of_the_crosses() {
    let crosses = vec![
        cross("1101", MacdCrossType::GoldenCross, 1),
        cross("2330", MacdCrossType::GoldenCross, 2),
        cross("2603", MacdCrossType::GoldenCross, 3),
    ];
    let volumes = vec![volume("2603", 5), volume("2330", 9), volume("1101", 5)];
    let got: Vec<String> = anal_macd_golden_volume_larger_date(&crosses, &volumes)
        .iter()
        .map(|r| r.macd_cross.stock_no.clone())
        .collect();
    assert_eq!(got, vec!["2330", "1101", "2603"]);
}

#[test]
fn the_join_pairs_a_cross_with_every_volume_result_of_its_stock() {
    let crosses = vec![cross("2330", MacdCrossType::GoldenCross, 2)];
    let volumes = vec![volume("2330", 3), volume("2330", 8)];
    let got: Vec<u64> = anal_macd_golden_volume_larger_date(&crosses, &volumes)
        .iter()
        .map(|r| r.volume_result.daily_data.volume)
        .collect();
    assert_eq!(got, vec![8, 3]);
}

#[test]
fn the_join_of_nothing_is_empty() {
    assert!(anal_macd_golden_volume_larger_date(&Vec::new(), &vec![volume("2330", 3)]).is_empty());
    let crosses = vec![cross("2330", MacdCrossType::GoldenCross, 2)];
    assert!(anal_macd_golden_volume_larger_date(&crosses, &Vec::new()).is_empty());
    let deaths = vec![cross("2330", MacdCrossType::DeathCross, 2)];
    assert!(anal_macd_golden_volume_larger_date(&deaths, &vec![volume("2330", 3)]).is_empty());
}
