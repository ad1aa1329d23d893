//! Analyses that join the results of two rules.

use crate::analysis::doji::DojiAnalysisResult;
use crate::analysis::macd::{MacdCross, MacdCrossType};
use crate::analysis::range::{RangeHighLow, anal_range_high_low_company, range_of};
use crate::analysis::volume::VolumeAnalysisResult;
use crate::common::{
    divide_by_1000, format_commas, grouped_text, left_aligned, naive_to_roc_date,
    push_left_aligned, push_right_aligned, right_aligned, roc_text,
};
use crate::data::monthly_data::{DailyData, MonthlyData};
use crate::twse::company_map::{CompanyMap, display_name, first_with_stock};
use crate::sorting::{Sortable, is_sorted, stable_sort, stable_sorted};
use vstd::prelude::*;
use vstd::string::StringExecFns;

verus! {

/// A golden cross of a stock on a day of large volume.
#[derive(Debug)]
pub struct MacdGoldenVolumeLargerResult {
    pub macd_cross: MacdCross,
    pub volume_result: VolumeAnalysisResult,
}

impl Sortable for MacdGoldenVolumeLargerResult {
    /// Results are ordered by volume, the greatest first.
    open spec fn not_after(&self, other: &Self) -> bool {
        self.volume_result.daily_data.volume >= other.volume_result.daily_data.volume
    }

    proof fn lemma_order(a: &Self, b: &Self, c: &Self) {
    }

    fn comes_not_after(&self, other: &Self) -> (b: bool) {
        self.volume_result.daily_data.volume >= other.volume_result.daily_data.volume
    }
}

/// The line that shows a golden cross on a day of large volume: the number
/// of the stock in 10 characters, the day in 10, the volume in thousands in
/// 10, and the name of the company, with a blank between each two.
pub open spec fn golden_volume_line(
    stock_no: Seq<char>,
    date: crate::calendar::Date,
    volume: u64,
    company: Seq<char>,
) -> Seq<char> {
    left_aligned(stock_no, 10) + seq![' '] + left_aligned(roc_text(date), 10) + seq![' ']
        + right_aligned(grouped_text((volume / 1000) as nat), 10) + seq![' '] + company
}

impl MacdGoldenVolumeLargerResult {
    /// The line that shows the result, with the name under which the
    /// directory shows the company.
    pub fn print(&self, company_map: &CompanyMap) -> (line: String)
        requires
            self.macd_cross.date.is_valid(),
            company_map.wf(),
            company_map.knows_stock(self.macd_cross.stock_no@),
        ensures
            line@ == golden_volume_line(
                self.macd_cross.stock_no@,
                self.macd_cross.date,
                self.volume_result.daily_data.volume,
                display_name(
                    company_map.stock_map@[first_with_stock(
                        company_map.stock_map@,
                        self.macd_cross.stock_no@,
                    )],
                ),
            ),
    {
        let mut line = String::new();
        push_left_aligned(&mut line, self.macd_cross.stock_no.as_str(), 10);
        line.push(' ');
        push_left_aligned(&mut line, naive_to_roc_date(self.macd_cross.date).as_str(), 10);
        line.push(' ');
        push_right_aligned(
            &mut line,
            format_commas(divide_by_1000(self.volume_result.daily_data.volume)).as_str(),
            10,
        );
        line.push(' ');
        line.append(company_map.get(self.macd_cross.stock_no.as_str()).as_str());
        proof {
            assert(line@ =~= golden_volume_line(
                self.macd_cross.stock_no@,
                self.macd_cross.date,
                self.volume_result.daily_data.volume,
                display_name(
                    company_map.stock_map@[first_with_stock(
                        company_map.stock_map@,
                        self.macd_cross.stock_no@,
                    )],
                ),
            ));
        }
        line
    }
}

/// The volume results that are of the stock of `cross`, each paired with
/// `cross`, in the order of the volume results.
pub open spec fn pairs_of_cross(cross: MacdCross, volume_results: Seq<VolumeAnalysisResult>) -> Seq<
    MacdGoldenVolumeLargerResult,
>
    decreases volume_results.len(),
{
    if volume_results.len() == 0 {
        Seq::empty()
    } else {
        let before = pairs_of_cross(cross, volume_results.drop_last());
        if volume_results.last().stock_no@ == cross.stock_no@ {
            before.push(
                MacdGoldenVolumeLargerResult {
                    macd_cross: cross,
                    volume_result: volume_results.last(),
                },
            )
        } else {
            before
        }
    }
}

/// The golden crosses among `crosses`, each paired with every volume result
/// of its stock, cross after cross.
pub open spec fn golden_pairs(crosses: Seq<MacdCross>, volume_results: Seq<VolumeAnalysisResult>) -> Seq<
    MacdGoldenVolumeLargerResult,
>
    decreases crosses.len(),
{
    if crosses.len() == 0 {
        Seq::empty()
    } else {
        let before = golden_pairs(crosses.drop_last(), volume_results);
        if crosses.last().cross_type == MacdCrossType::GoldenCross {
            before + pairs_of_cross(crosses.last(), volume_results)
        } else {
            before
        }
    }
}

/// Joins the crossings of a day with the volume results of the same day:
/// each golden cross is paired with the volume results of its stock. The
/// result is ordered by volume, the greatest first; pairs of equal volume
/// stay in the order of the crossings.
pub fn anal_macd_golden_volume_larger_date(
    crosses: &Vec<MacdCross>,
    volume_results: &Vec<VolumeAnalysisResult>,
) -> (r: Vec<MacdGoldenVolumeLargerResult>)
    ensures
        r@ == stable_sorted(golden_pairs(crosses@, volume_results@)),
        is_sorted(r@),
        r@.to_multiset() == golden_pairs(crosses@, volume_results@).to_multiset(),
{
    let mut ret_results: Vec<MacdGoldenVolumeLargerResult> = Vec::new();
    let mut i: usize = 0;
    proof {
        assert(crosses@.take(0) =~= Seq::<MacdCross>::empty());
    }
    while i < crosses.len()
        invariant
            0 <= i <= crosses.len(),
            ret_results@ == golden_pairs(crosses@.take(i as int), volume_results@),
        decreases crosses.len() - i,
    {
        proof {
            assert(crosses@.take(i + 1).drop_last() =~= crosses@.take(i as int));
            assert(crosses@.take(i + 1).last() == crosses@[i as int]);
        }
        let cross = &crosses[i];
        if cross.cross_type == MacdCrossType::GoldenCross {
            let ghost start = ret_results@;
            let mut k: usize = 0;
            proof {
                assert(volume_results@.take(0) =~= Seq::<VolumeAnalysisResult>::empty());
                assert(ret_results@ =~= start + pairs_of_cross(*cross, volume_results@.take(0)));
            }
            while k < volume_results.len()
                invariant
                    0 <= k <= volume_results.len(),
                    ret_results@ == start + pairs_of_cross(*cross, volume_results@.take(k as int)),
                decreases volume_results.len() - k,
            {
                let volume_result = &volume_results[k];
                let ghost before = pairs_of_cross(*cross, volume_results@.take(k as int));
                proof {
                    assert(volume_results@.take(k + 1).drop_last() =~= volume_results@.take(
                        k as int,
                    ));
                    assert(volume_results@.take(k + 1).last() == volume_results@[k as int]);
                }
                if volume_result.stock_no == cross.stock_no {
                    let pair = MacdGoldenVolumeLargerResult {
                        macd_cross: cross.clone(),
                        volume_result: volume_result.clone(),
                    };
                    ret_results.push(pair);
                    proof {
                        assert(ret_results@ =~= start + before.push(pair));
                    }
                }
                k = k + 1;
            }
            proof {
                assert(volume_results@.take(volume_results.len() as int) =~= volume_results@);
            }
        }
        i = i + 1;
    }
    proof {
        assert(crosses@.take(crosses.len() as int) =~= crosses@);
    }
    stable_sort(ret_results)
}

/// A Doji day of a stock whose closing price lies far from the highest or
/// the lowest close of a range of months.
#[derive(Debug)]
pub struct DojiInSwingResult {
    pub stock_no: String,
    pub daily_data: DailyData,
    /// The highest close of the range, in hundredths.
    pub highest_price: u64,
    /// The lowest close of the range, in hundredths.
    pub lowest_price: u64,
    /// The highest close of the range is at least 1.3 times the close.
    pub meet_high: bool,
    /// The lowest close of the range is at most 0.7 times the close.
    pub meet_low: bool,
}

impl Sortable for DojiInSwingResult {
    /// Results are ordered by volume, the greatest first.
    open spec fn not_after(&self, other: &Self) -> bool {
        self.daily_data.volume >= other.daily_data.volume
    }

    proof fn lemma_order(a: &Self, b: &Self, c: &Self) {
    }

    fn comes_not_after(&self, other: &Self) -> (b: bool) {
        self.daily_data.volume >= other.daily_data.volume
    }
}

/// A Doji day together with the series of the range in which its swing is
/// looked for.
#[derive(Debug)]
pub struct SwingCandidate {
    /// The Doji day.
    pub doji: DojiAnalysisResult,
    /// The series of the stock for each month of the range.
    pub months: Vec<MonthlyData>,
}

/// The highest close of the range is at least 1.3 times `close`.
pub open spec fn meets_high(close: u64, highest: u64) -> bool {
    highest * 10 >= close * 13
}

/// The lowest close of the range is at most 0.7 times `close`.
pub open spec fn meets_low(close: u64, lowest: u64) -> bool {
    lowest * 10 <= close * 7
}

/// The result for a Doji day and the range of its stock: the day with both
/// flags, if one of them is set.
pub open spec fn swing_of(doji: DojiAnalysisResult, range: RangeHighLow) -> Option<DojiInSwingResult> {
    let meet_high = meets_high(doji.daily_data.close, range.highest_price);
    let meet_low = meets_low(doji.daily_data.close, range.lowest_price);
    if meet_high || meet_low {
        Some(
            DojiInSwingResult {
                stock_no: doji.stock_no,
                daily_data: doji.daily_data,
                highest_price: range.highest_price,
                lowest_price: range.lowest_price,
                meet_high,
                meet_low,
            },
        )
    } else {
        None
    }
}

/// Judges one Doji day against the range of its stock.
pub fn doji_in_swing(doji: &DojiAnalysisResult, range: RangeHighLow) -> (r: Option<DojiInSwingResult>)
    ensures
        r == swing_of(*doji, range),
{
    let close = doji.daily_data.close as u128;
    let meet_high = (range.highest_price as u128) * 10 >= close * 13;
    let meet_low = (range.lowest_price as u128) * 10 <= close * 7;
    if meet_high || meet_low {
        Some(
            DojiInSwingResult {
                stock_no: doji.stock_no.clone(),
                daily_data: doji.daily_data.clone(),
                highest_price: range.highest_price,
                lowest_price: range.lowest_price,
                meet_high,
                meet_low,
            },
        )
    } else {
        None
    }
}

/// The results of the candidates that have one, in the order of the
/// candidates: each candidate is judged against the range of its own
/// months.
pub open spec fn swings(candidates: Seq<SwingCandidate>) -> Seq<DojiInSwingResult>
    decreases candidates.len(),
{
    if candidates.len() == 0 {
        Seq::empty()
    } else {
        let before = swings(candidates.drop_last());
        match swing_of(candidates.last().doji, range_of(candidates.last().months@)) {
            Some(swing) => before.push(swing),
            None => before,
        }
    }
}

/// Judges every Doji day against the highest and the lowest close of its
/// range and keeps those that meet one of the two conditions. The result is
/// ordered by volume, the greatest first; days of equal volume stay in the
/// order of the candidates.
pub fn anal_doji_in_swing_all_companies(candidates: &Vec<SwingCandidate>) -> (r: Vec<
    DojiInSwingResult,
>)
    ensures
        r@ == stable_sorted(swings(candidates@)),
        is_sorted(r@),
        r@.to_multiset() == swings(candidates@).to_multiset(),
{
    let mut doji_in_swing_results: Vec<DojiInSwingResult> = Vec::new();
    let mut i: usize = 0;
    proof {
        assert(candidates@.take(0) =~= Seq::<SwingCandidate>::empty());
    }
    while i < candidates.len()
        invariant
            0 <= i <= candidates.len(),
            doji_in_swing_results@ == swings(candidates@.take(i as int)),
        decreases candidates.len() - i,
    {
        proof {
            assert(candidates@.take(i + 1).drop_last() =~= candidates@.take(i as int));
            assert(candidates@.take(i + 1).last() == candidates@[i as int]);
        }
        let candidate = &candidates[i];
        let range_result = anal_range_high_low_company(&candidate.months);
        match doji_in_swing(&candidate.doji, range_result) {
            Some(swing) => {
                doji_in_swing_results.push(swing);
            },
            None => {},
        }
        i = i + 1;
    }
    proof {
        assert(candidates@.take(candidates.len() as int) =~= candidates@);
    }
    stable_sort(doji_in_swing_results)
}
} // verus!
