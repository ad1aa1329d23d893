//! Days whose traded volume exceeds a threshold.

use crate::calendar::Date;
use crate::data::monthly_data::{DailyData, MonthlyData};
use crate::sorting::{Sortable, is_sorted, stable_sort, stable_sorted};
use vstd::prelude::*;

verus! {

/// A day of a stock whose volume exceeds the threshold.
#[derive(Debug)]
pub struct VolumeAnalysisResult {
    pub stock_no: String,
    pub daily_data: DailyData,
}

impl Clone for VolumeAnalysisResult {
    fn clone(&self) -> (r: Self)
        ensures
            r == *self,
    {
        VolumeAnalysisResult { stock_no: self.stock_no.clone(), daily_data: self.daily_data.clone() }
    }
}

impl Sortable for VolumeAnalysisResult {
    /// Results are ordered by volume, the greatest first.
    open spec fn not_after(&self, other: &Self) -> bool {
        self.daily_data.volume >= other.daily_data.volume
    }

    proof fn lemma_order(a: &Self, b: &Self, c: &Self) {
    }

    fn comes_not_after(&self, other: &Self) -> (b: bool) {
        self.daily_data.volume >= other.daily_data.volume
    }
}

/// The volume of the record exceeds `threshold` thousands of shares.
pub open spec fn exceeds_threshold(record: DailyData, threshold: u64) -> bool {
    record.volume > threshold * 1000
}

/// A record of `date` that is not malformed and whose volume exceeds
/// `threshold` thousands of shares.
pub open spec fn is_volume_hit(record: DailyData, threshold: u64, date: Date) -> bool {
    record.date == date && !record.is_malformed() && exceeds_threshold(record, threshold)
}

/// Whether the volume of the record exceeds `threshold` thousands of shares.
pub fn volume_exceeds(record: &DailyData, threshold: u64) -> (b: bool)
    ensures
        b == exceeds_threshold(*record, threshold),
{
    (record.volume as u128) > (threshold as u128) * 1000
}

/// The hits among the records of one stock, in the order of the records.
pub open spec fn volume_hits_of_stock(
    stock_no: String,
    records: Seq<DailyData>,
    threshold: u64,
    date: Date,
) -> Seq<VolumeAnalysisResult>
    decreases records.len(),
{
    if records.len() == 0 {
        Seq::empty()
    } else {
        let before = volume_hits_of_stock(stock_no, records.drop_last(), threshold, date);
        if is_volume_hit(records.last(), threshold, date) {
            before.push(VolumeAnalysisResult { stock_no, daily_data: records.last() })
        } else {
            before
        }
    }
}

/// The hits of every stock, stock after stock.
pub open spec fn volume_hits(universe: Seq<MonthlyData>, threshold: u64, date: Date) -> Seq<
    VolumeAnalysisResult,
>
    decreases universe.len(),
{
    if universe.len() == 0 {
        Seq::empty()
    } else {
        volume_hits(universe.drop_last(), threshold, date) + volume_hits_of_stock(
            universe.last().stock_no,
            universe.last().daily_data@,
            threshold,
            date,
        )
    }
}

/// Adds the hits of one stock to `out`.
fn collect_volume_hits(
    out: &mut Vec<VolumeAnalysisResult>,
    series: &MonthlyData,
    threshold: u64,
    date: Date,
)
    ensures
        final(out)@ == old(out)@ + volume_hits_of_stock(
            series.stock_no,
            series.daily_data@,
            threshold,
            date,
        ),
{
    let ghost start = out@;
    let mut i: usize = 0;
    proof {
        assert(series.daily_data@.take(0) =~= Seq::<DailyData>::empty());
        assert(out@ =~= start + Seq::<VolumeAnalysisResult>::empty());
    }
    while i < series.daily_data.len()
        invariant
            0 <= i <= series.daily_data.len(),
            out@ == start + volume_hits_of_stock(
                series.stock_no,
                series.daily_data@.take(i as int),
                threshold,
                date,
            ),
        decreases series.daily_data.len() - i,
    {
        let record = &series.daily_data[i];
        proof {
            assert(series.daily_data@.take(i + 1).drop_last() =~= series.daily_data@.take(i as int));
            assert(series.daily_data@.take(i + 1).last() == series.daily_data@[i as int]);
        }
        let ghost before = volume_hits_of_stock(
            series.stock_no,
            series.daily_data@.take(i as int),
            threshold,
            date,
        );
        if record.date == date && !record.malformed() && volume_exceeds(record, threshold) {
            let hit = VolumeAnalysisResult {
                stock_no: series.stock_no.clone(),
                daily_data: record.clone(),
            };
            out.push(hit);
            proof {
                assert(out@ =~= start + before.push(hit));
            }
        }
        i = i + 1;
    }
    proof {
        assert(series.daily_data@.take(series.daily_data.len() as int) =~= series.daily_data@);
    }
}

/// Flags, over the series of every stock for the month of `date`, each
/// record of `date` whose volume exceeds `threshold` thousands of shares.
/// The result is ordered by volume, the greatest first; hits of equal
/// volume stay in the order of the stocks.
pub fn volume_larger_than_threshold(universe: &Vec<MonthlyData>, threshold: u64, date: Date) -> (r:
    Vec<VolumeAnalysisResult>)
    ensures
        r@ == stable_sorted(volume_hits(universe@, threshold, date)),
        is_sorted(r@),
        r@.to_multiset() == volume_hits(universe@, threshold, date).to_multiset(),
{
    let mut hits: Vec<VolumeAnalysisResult> = Vec::new();
    let mut i: usize = 0;
    proof {
        assert(universe@.take(0) =~= Seq::<MonthlyData>::empty());
    }
    while i < universe.len()
        invariant
            0 <= i <= universe.len(),
            hits@ == volume_hits(universe@.take(i as int), threshold, date),
        decreases universe.len() - i,
    {
        proof {
            assert(universe@.take(i + 1).drop_last() =~= universe@.take(i as int));
            assert(universe@.take(i + 1).last() == universe@[i as int]);
        }
        collect_volume_hits(&mut hits, &universe[i], threshold, date);
        i = i + 1;
    }
    proof {
        assert(universe@.take(universe.len() as int) =~= universe@);
    }
    stable_sort(hits)
}
} // verus!
