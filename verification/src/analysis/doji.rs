//! Days of indecision: open and close nearly equal, and both strictly
//! inside the range of the day.

use crate::calendar::Date;
use crate::data::monthly_data::{DailyData, MonthlyData, record_line};
use crate::sorting::Sortable;
use crate::twse::company_map::{CompanyMap, display_name, first_with_stock};
use vstd::prelude::*;

verus! {

/// A day of a stock that is a Doji.
#[derive(Debug)]
pub struct DojiAnalysisResult {
    pub stock_no: String,
    pub daily_data: DailyData,
}

impl Clone for DojiAnalysisResult {
    fn clone(&self) -> (r: Self)
        ensures
            r == *self,
    {
        DojiAnalysisResult { stock_no: self.stock_no.clone(), daily_data: self.daily_data.clone() }
    }
}

impl Sortable for DojiAnalysisResult {
    /// Results are ordered by volume, the greatest first.
    open spec fn not_after(&self, other: &Self) -> bool {
        self.daily_data.volume >= other.daily_data.volume
    }

    proof fn lemma_order(a: &Self, b: &Self, c: &Self) {
    }

    fn comes_not_after(&self, other: &Self) -> (b: bool) {
        self.daily_data.volume >= other.daily_data.volume
    }
}

impl DojiAnalysisResult {
    /// The line that shows the day, with the name under which the directory
    /// shows the company.
    pub fn print(&self, company_map: &CompanyMap) -> (line: String)
        requires
            self.daily_data.date.is_valid(),
            company_map.wf(),
            company_map.knows_stock(self.stock_no@),
        ensures
            line@ == record_line(
                self.daily_data,
                self.stock_no@,
                display_name(
                    company_map.stock_map@[first_with_stock(company_map.stock_map@, self.stock_no@)],
                ),
            ),
    {
        self.daily_data.print(company_map, self.stock_no.as_str())
    }
}

/// The distance between two prices.
pub open spec fn distance(a: int, b: int) -> int {
    if a >= b {
        a - b
    } else {
        b - a
    }
}

/// The Doji rule. Open and close differ by less than one hundredth of the
/// range of the day, where a range below one currency unit counts as one
/// unit; and open and close each lie strictly between low and high. Prices
/// are in hundredths, so one unit is 100.
pub open spec fn is_doji(record: DailyData) -> bool {
    let range = record.high - record.low;
    let wide = if range >= 100 {
        range
    } else {
        100
    };
    &&& 100 * distance(record.open as int, record.close as int) < wide
    &&& record.low < record.open < record.high
    &&& record.low < record.close < record.high
}

/// Whether the record is a Doji.
pub fn doji(record: &DailyData) -> (b: bool)
    ensures
        b == is_doji(*record),
{
    let open = record.open as i128;
    let close = record.close as i128;
    let high = record.high as i128;
    let low = record.low as i128;
    let apart = if open >= close {
        open - close
    } else {
        close - open
    };
    let range = high - low;
    let wide = if range >= 100 {
        range
    } else {
        100
    };
    100 * apart < wide && low < open && open < high && low < close && close < high
}

/// A record of `date` that is not malformed and is a Doji.
pub open spec fn is_doji_hit(record: DailyData, date: Date) -> bool {
    record.date == date && !record.is_malformed() && is_doji(record)
}

/// The Doji days of `date` among the records of one stock, in the order of
/// the records.
pub open spec fn doji_hits_of_stock(stock_no: String, records: Seq<DailyData>, date: Date) -> Seq<
    DojiAnalysisResult,
>
    decreases records.len(),
{
    if records.len() == 0 {
        Seq::empty()
    } else {
        let before = doji_hits_of_stock(stock_no, records.drop_last(), date);
        if is_doji_hit(records.last(), date) {
            before.push(DojiAnalysisResult { stock_no, daily_data: records.last() })
        } else {
            before
        }
    }
}

/// Flags each record of `date` in the series that is a Doji.
pub fn anal_date_company(monthly_data: &MonthlyData, date: Date) -> (r: Vec<DojiAnalysisResult>)
    ensures
        r@ == doji_hits_of_stock(monthly_data.stock_no, monthly_data.daily_data@, date),
{
    let mut out: Vec<DojiAnalysisResult> = Vec::new();
    let mut i: usize = 0;
    proof {
        assert(monthly_data.daily_data@.take(0) =~= Seq::<DailyData>::empty());
    }
    while i < monthly_data.daily_data.len()
        invariant
            0 <= i <= monthly_data.daily_data.len(),
            out@ == doji_hits_of_stock(
                monthly_data.stock_no,
                monthly_data.daily_data@.take(i as int),
                date,
            ),
        decreases monthly_data.daily_data.len() - i,
    {
        let record = &monthly_data.daily_data[i];
        proof {
            assert(monthly_data.daily_data@.take(i + 1).drop_last()
                =~= monthly_data.daily_data@.take(i as int));
            assert(monthly_data.daily_data@.take(i + 1).last() == monthly_data.daily_data@[i as int]);
        }
        if record.date == date && !record.malformed() && doji(record) {
            out.push(
                DojiAnalysisResult {
                    stock_no: monthly_data.stock_no.clone(),
                    daily_data: record.clone(),
                },
            );
        }
        i = i + 1;
    }
    proof {
        assert(monthly_data.daily_data@.take(monthly_data.daily_data.len() as int)
            =~= monthly_data.daily_data@);
    }
    out
}
} // verus!
