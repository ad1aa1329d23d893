//! The Doji rule over every stock.

use crate::analysis::doji::{DojiAnalysisResult, anal_date_company, doji, doji_hits_of_stock, is_doji};
use crate::calendar::Date;
use crate::data::monthly_data::{DailyData, MonthlyData};
use crate::sorting::{is_sorted, stable_sort, stable_sorted};
use vstd::prelude::*;

verus! {

/// The Doji days of `date` of every stock, stock after stock.
pub open spec fn doji_hits(universe: Seq<MonthlyData>, date: Date) -> Seq<DojiAnalysisResult>
    decreases universe.len(),
{
    if universe.len() == 0 {
        Seq::empty()
    } else {
        doji_hits(universe.drop_last(), date) + doji_hits_of_stock(
            universe.last().stock_no,
            universe.last().daily_data@,
            date,
        )
    }
}

/// Flags, over the series of every stock for the month of `date`, each
/// record of `date` that is a Doji. The result is ordered by volume, the
/// greatest first; days of equal volume stay in the order of the stocks.
pub fn anal_date_all_companies(universe: &Vec<MonthlyData>, date: Date) -> (r: Vec<
    DojiAnalysisResult,
>)
    ensures
        r@ == stable_sorted(doji_hits(universe@, date)),
        is_sorted(r@),
        r@.to_multiset() == doji_hits(universe@, date).to_multiset(),
{
    let mut hits: Vec<DojiAnalysisResult> = Vec::new();
    let mut i: usize = 0;
    proof {
        assert(universe@.take(0) =~= Seq::<MonthlyData>::empty());
    }
    while i < universe.len()
        invariant
            0 <= i <= universe.len(),
            hits@ == doji_hits(universe@.take(i as int), date),
        decreases universe.len() - i,
    {
        proof {
            assert(universe@.take(i + 1).drop_last() =~= universe@.take(i as int));
            assert(universe@.take(i + 1).last() == universe@[i as int]);
        }
        let mut of_stock = anal_date_company(&universe[i], date);
        hits.append(&mut of_stock);
        i = i + 1;
    }
    proof {
        assert(universe@.take(universe.len() as int) =~= universe@);
    }
    stable_sort(hits)
}

/// The Doji days among the records of one stock that are not malformed, in
/// the order of the records.
pub open spec fn doji_days_of_stock(stock_no: String, records: Seq<DailyData>) -> Seq<
    DojiAnalysisResult,
>
    decreases records.len(),
{
    if records.len() == 0 {
        Seq::empty()
    } else {
        let before = doji_days_of_stock(stock_no, records.drop_last());
        if !records.last().is_malformed() && is_doji(records.last()) {
            before.push(DojiAnalysisResult { stock_no, daily_data: records.last() })
        } else {
            before
        }
    }
}

/// The Doji days of every stock, stock after stock.
pub open spec fn doji_days(universe: Seq<MonthlyData>) -> Seq<DojiAnalysisResult>
    decreases universe.len(),
{
    if universe.len() == 0 {
        Seq::empty()
    } else {
        doji_days(universe.drop_last()) + doji_days_of_stock(
            universe.last().stock_no,
            universe.last().daily_data@,
        )
    }
}

/// Flags every Doji day of a month over the series of every stock, in the
/// order of the stocks and, for each stock, of its records.
pub fn anal_month_all_compies(universe: &Vec<MonthlyData>) -> (r: Vec<DojiAnalysisResult>)
    ensures
        r@ == doji_days(universe@),
{
    let mut hits: Vec<DojiAnalysisResult> = Vec::new();
    let mut i: usize = 0;
    proof {
        assert(universe@.take(0) =~= Seq::<MonthlyData>::empty());
    }
    while i < universe.len()
        invariant
            0 <= i <= universe.len(),
            hits@ == doji_days(universe@.take(i as int)),
        decreases universe.len() - i,
    {
        proof {
            assert(universe@.take(i + 1).drop_last() =~= universe@.take(i as int));
            assert(universe@.take(i + 1).last() == universe@[i as int]);
        }
        let series = &universe[i];
        let ghost start = hits@;
        let mut k: usize = 0;
        proof {
            assert(series.daily_data@.take(0) =~= Seq::<DailyData>::empty());
            assert(hits@ =~= start + doji_days_of_stock(series.stock_no, series.daily_data@.take(0)));
        }
        while k < series.daily_data.len()
            invariant
                0 <= k <= series.daily_data.len(),
                hits@ == start + doji_days_of_stock(series.stock_no, series.daily_data@.take(k as int)),
            decreases series.daily_data.len() - k,
        {
            let record = &series.daily_data[k];
            let ghost before = doji_days_of_stock(series.stock_no, series.daily_data@.take(k as int));
            proof {
                assert(series.daily_data@.take(k + 1).drop_last() =~= series.daily_data@.take(
                    k as int,
                ));
                assert(series.daily_data@.take(k + 1).last() == series.daily_data@[k as int]);
            }
            if !record.malformed() && doji(record) {
                let hit = DojiAnalysisResult {
                    stock_no: series.stock_no.clone(),
                    daily_data: record.clone(),
                };
                hits.push(hit);
                proof {
                    assert(hits@ =~= start + before.push(hit));
                }
            }
            k = k + 1;
        }
        proof {
            assert(series.daily_data@.take(series.daily_data.len() as int) =~= series.daily_data@);
        }
        i = i + 1;
    }
    proof {
        assert(universe@.take(universe.len() as int) =~= universe@);
    }
    hits
}

} // verus!
