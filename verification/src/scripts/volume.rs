//! The volume rule over every stock.

use crate::analysis::volume;
use crate::analysis::volume::{VolumeAnalysisResult, volume_hits};
use crate::calendar::Date;
use crate::data::monthly_data::MonthlyData;
use crate::sorting::{is_sorted, stable_sorted};
use vstd::prelude::*;

verus! {

/// Flags, over the series of every stock for the month of `date`, each
/// record of `date` whose volume exceeds `threshold` thousands of shares,
/// ordered by volume, the greatest first.
pub fn volume_larger_than_threshold(universe: &Vec<MonthlyData>, threshold: u64, date: Date) -> (r:
    Vec<VolumeAnalysisResult>)
    ensures
        r@ == stable_sorted(volume_hits(universe@, threshold, date)),
        is_sorted(r@),
        r@.to_multiset() == volume_hits(universe@, threshold, date).to_multiset(),
{
    volume::volume_larger_than_threshold(universe, threshold, date)
}

} // verus!
