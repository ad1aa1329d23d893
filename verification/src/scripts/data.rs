//! The months to fetch for a whole year.

use crate::calendar::{MAX_YEAR, MIN_YEAR, YearMonth};
use vstd::prelude::*;

verus! {

/// The twelve months of `year`, January first.
pub open spec fn months_of_year(year: i32) -> Seq<YearMonth> {
    Seq::new(12, |i: int| YearMonth { year, month: (i + 1) as u32 })
}

/// The months that a fetch of the whole of `year` asks for, in order.
pub fn fetch_data_yearly(year: i32) -> (months: Vec<YearMonth>)
    ensures
        months@ == months_of_year(year),
        MIN_YEAR <= year <= MAX_YEAR ==> forall|i: int|
            0 <= i < 12 ==> (#[trigger] months@[i]).is_valid(),
{
    let mut months: Vec<YearMonth> = Vec::new();
    let mut month: u32 = 1;
    while month <= 12
        invariant
            1 <= month <= 13,
            months@.len() == month - 1,
            forall|i: int| 0 <= i < month - 1 ==> months@[i] == (YearMonth { year, month: (i + 1) as u32 }),
        decreases 13 - month,
    {
        months.push(YearMonth { year, month });
        month = month + 1;
    }
    proof {
        assert(months@ =~= months_of_year(year));
    }
    months
}

} // verus!
