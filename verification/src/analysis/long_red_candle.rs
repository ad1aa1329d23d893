//! Days that close more than five percent above their open.

use crate::calendar::Date;
use crate::data::monthly_data::{DailyData, MonthlyData};
use vstd::prelude::*;

verus! {

/// The long-red-candle rule: the close is more than 1.05 times the open.
pub open spec fn is_long_red_candle(record: DailyData) -> bool {
    record.close * 100 > record.open * 105
}

/// Whether the record is a long red candle.
pub fn long_red_candle(record: &DailyData) -> (b: bool)
    ensures
        b == is_long_red_candle(*record),
{
    (record.close as u128) * 100 > (record.open as u128) * 105
}

/// The long red candles among `records` that are not malformed, in the
/// order of the records.
pub open spec fn long_red_candles(records: Seq<DailyData>) -> Seq<DailyData>
    decreases records.len(),
{
    if records.len() == 0 {
        Seq::empty()
    } else {
        let before = long_red_candles(records.drop_last());
        if !records.last().is_malformed() && is_long_red_candle(records.last()) {
            before.push(records.last())
        } else {
            before
        }
    }
}

/// The records of `records` that are dated `date`, in the same order.
pub open spec fn dated(records: Seq<DailyData>, date: Date) -> Seq<DailyData>
    decreases records.len(),
{
    if records.len() == 0 {
        Seq::empty()
    } else if records.last().date == date {
        dated(records.drop_last(), date).push(records.last())
    } else {
        dated(records.drop_last(), date)
    }
}

/// The records dated `date`, in the same order.
pub fn records_of_date(records: &Vec<DailyData>, date: Date) -> (r: Vec<DailyData>)
    ensures
        r@ == dated(records@, date),
{
    let mut out: Vec<DailyData> = Vec::new();
    let mut i: usize = 0;
    proof {
        assert(records@.take(0) =~= Seq::<DailyData>::empty());
    }
    while i < records.len()
        invariant
            0 <= i <= records.len(),
            out@ == dated(records@.take(i as int), date),
        decreases records.len() - i,
    {
        proof {
            assert(records@.take(i + 1).drop_last() =~= records@.take(i as int));
            assert(records@.take(i + 1).last() == records@[i as int]);
        }
        if records[i].date == date {
            out.push(records[i].clone());
        }
        i = i + 1;
    }
    proof {
        assert(records@.take(records.len() as int) =~= records@);
    }
    out
}

/// The long red candles among `records`, in the same order.
pub fn candles_among(records: &Vec<DailyData>) -> (r: Vec<DailyData>)
    ensures
        r@ == long_red_candles(records@),
{
    let mut out: Vec<DailyData> = Vec::new();
    let mut i: usize = 0;
    proof {
        assert(records@.take(0) =~= Seq::<DailyData>::empty());
    }
    while i < records.len()
        invariant
            0 <= i <= records.len(),
            out@ == long_red_candles(records@.take(i as int)),
        decreases records.len() - i,
    {
        proof {
            assert(records@.take(i + 1).drop_last() =~= records@.take(i as int));
            assert(records@.take(i + 1).last() == records@[i as int]);
        }
        if !records[i].malformed() && long_red_candle(&records[i]) {
            out.push(records[i].clone());
        }
        i = i + 1;
    }
    proof {
        assert(records@.take(records.len() as int) =~= records@);
    }
    out
}

/// The long red candles of a whole month.
pub fn long_red_candle_analysis(monthly_data: &MonthlyData) -> (r: Vec<DailyData>)
    ensures
        r@ == long_red_candles(monthly_data.daily_data@),
{
    candles_among(&monthly_data.daily_data)
}

/// The long red candles of one stock on `date`.
pub fn anal_date_company(monthly_data: &MonthlyData, date: Date) -> (r: Vec<DailyData>)
    ensures
        r@ == long_red_candles(dated(monthly_data.daily_data@, date)),
{
    let of_date = records_of_date(&monthly_data.daily_data, date);
    candles_among(&of_date)
}

/// A long red candle of a stock.
#[derive(Debug)]
pub struct LongRedCandle {
    pub stock_no: String,
    pub daily_data: DailyData,
}

/// The candles of one stock, each with the stock's number.
pub open spec fn tagged(stock_no: String, candles: Seq<DailyData>) -> Seq<LongRedCandle> {
    Seq::new(candles.len(), |i: int| LongRedCandle { stock_no, daily_data: candles[i] })
}

/// The long red candles of `date` of every stock, stock after stock.
pub open spec fn candles_of_all(universe: Seq<MonthlyData>, date: Date) -> Seq<LongRedCandle>
    decreases universe.len(),
{
    if universe.len() == 0 {
        Seq::empty()
    } else {
        candles_of_all(universe.drop_last(), date) + tagged(
            universe.last().stock_no,
            long_red_candles(dated(universe.last().daily_data@, date)),
        )
    }
}

/// Flags, over the series of every stock for the month of `date`, the long
/// red candles of `date`, in the order of the stocks.
pub fn anal_date_all_companies(universe: &Vec<MonthlyData>, date: Date) -> (r: Vec<LongRedCandle>)
    ensures
        r@ == candles_of_all(universe@, date),
{
    let mut out: Vec<LongRedCandle> = Vec::new();
    let mut i: usize = 0;
    proof {
        assert(universe@.take(0) =~= Seq::<MonthlyData>::empty());
    }
    while i < universe.len()
        invariant
            0 <= i <= universe.len(),
            out@ == candles_of_all(universe@.take(i as int), date),
        decreases universe.len() - i,
    {
        proof {
            assert(universe@.take(i + 1).drop_last() =~= universe@.take(i as int));
            assert(universe@.take(i + 1).last() == universe@[i as int]);
        }
        let candles = anal_date_company(&universe[i], date);
        let ghost start = out@;
        let mut k: usize = 0;
        while k < candles.len()
            invariant
                0 <= k <= candles.len(),
                0 <= i < universe.len(),
                out@ == start + tagged(universe@[i as int].stock_no, candles@.take(k as int)),
            decreases candles.len() - k,
        {
            out.push(
                LongRedCandle {
                    stock_no: universe[i].stock_no.clone(),
                    daily_data: candles[k].clone(),
                },
            );
            proof {
                assert(out@ =~= start + tagged(universe@[i as int].stock_no, candles@.take(k + 1)));
            }
            k = k + 1;
        }
        proof {
            assert(candles@.take(candles.len() as int) =~= candles@);
        }
        i = i + 1;
    }
    proof {
        assert(universe@.take(universe.len() as int) =~= universe@);
    }
    out
}

} // verus!
