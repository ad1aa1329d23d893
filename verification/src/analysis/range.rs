//! The highest and the lowest closing price over a range of months.

use crate::data::monthly_data::{DailyData, MonthlyData, purged};
use vstd::prelude::*;

verus! {

/// The highest and the lowest closing price of a range, in hundredths.
/// Over no records at all the highest is 0 and the lowest is `u64::MAX`.
#[derive(Debug, Clone, Copy, PartialEq, Eq, Structural)]
pub struct RangeHighLow {
    pub highest_price: u64,
    pub lowest_price: u64,
}

/// The records of several months that are not malformed, month after month.
pub open spec fn range_records(months: Seq<MonthlyData>) -> Seq<DailyData>
    decreases months.len(),
{
    if months.len() == 0 {
        Seq::empty()
    } else {
        range_records(months.drop_last()) + purged(months.last().daily_data@)
    }
}

/// The greatest close of `records`; 0 where there are none.
pub open spec fn highest_close(records: Seq<DailyData>) -> u64
    decreases records.len(),
{
    if records.len() == 0 {
        0
    } else {
        let before = highest_close(records.drop_last());
        if records.last().close > before {
            records.last().close
        } else {
            before
        }
    }
}

/// The smallest close of `records`; `u64::MAX` where there are none.
pub open spec fn lowest_close(records: Seq<DailyData>) -> u64
    decreases records.len(),
{
    if records.len() == 0 {
        u64::MAX
    } else {
        let before = lowest_close(records.drop_last());
        if records.last().close < before {
            records.last().close
        } else {
            before
        }
    }
}

/// The range of the closing prices of several months.
pub open spec fn range_of(months: Seq<MonthlyData>) -> RangeHighLow {
    RangeHighLow {
        highest_price: highest_close(range_records(months)),
        lowest_price: lowest_close(range_records(months)),
    }
}

/// No close is above the highest, and where there are records the highest
/// is the close of one of them.
pub proof fn lemma_highest_close(records: Seq<DailyData>)
    ensures
        forall|i: int| 0 <= i < records.len() ==> (#[trigger] records[i]).close <= highest_close(records),
        records.len() > 0 ==> exists|i: int|
            0 <= i < records.len() && (#[trigger] records[i]).close == highest_close(records),
    decreases records.len(),
{
    if records.len() > 0 {
        let head = records.drop_last();
        lemma_highest_close(head);
        assert forall|i: int| 0 <= i < records.len() implies (#[trigger] records[i]).close
            <= highest_close(records) by {
            if i < head.len() {
                assert(head[i] == records[i]);
            }
        }
        if records.last().close > highest_close(head) || head.len() == 0 {
            assert(records[records.len() - 1].close == highest_close(records));
        } else {
            let w = choose|w: int| 0 <= w < head.len() && (#[trigger] head[w]).close == highest_close(head);
            assert(records[w].close == highest_close(records));
        }
    }
}

/// No close is below the lowest, and where there are records the lowest is
/// the close of one of them.
pub proof fn lemma_lowest_close(records: Seq<DailyData>)
    ensures
        forall|i: int| 0 <= i < records.len() ==> (#[trigger] records[i]).close >= lowest_close(records),
        records.len() > 0 ==> exists|i: int|
            0 <= i < records.len() && (#[trigger] records[i]).close == lowest_close(records),
    decreases records.len(),
{
    if records.len() > 0 {
        let head = records.drop_last();
        lemma_lowest_close(head);
        assert forall|i: int| 0 <= i < records.len() implies (#[trigger] records[i]).close
            >= lowest_close(records) by {
            if i < head.len() {
                assert(head[i] == records[i]);
            }
        }
        if records.last().close < lowest_close(head) || head.len() == 0 {
            assert(records[records.len() - 1].close == lowest_close(records));
        } else {
            let w = choose|w: int| 0 <= w < head.len() && (#[trigger] head[w]).close == lowest_close(head);
            assert(records[w].close == lowest_close(records));
        }
    }
}

/// Finds the highest and the lowest closing price among the records of
/// `months` that are not malformed.
pub fn anal_range_high_low_company(months: &Vec<MonthlyData>) -> (r: RangeHighLow)
    ensures
        r == range_of(months@),
        forall|i: int|
            0 <= i < range_records(months@).len() ==> r.lowest_price <= (#[trigger] range_records(
                months@,
            )[i]).close <= r.highest_price,
{
    let mut highest_price: u64 = 0;
    let mut lowest_price: u64 = u64::MAX;
    let mut i: usize = 0;
    proof {
        assert(months@.take(0) =~= Seq::<MonthlyData>::empty());
    }
    while i < months.len()
        invariant
            0 <= i <= months.len(),
            highest_price == highest_close(range_records(months@.take(i as int))),
            lowest_price == lowest_close(range_records(months@.take(i as int))),
        decreases months.len() - i,
    {
        let ghost before = range_records(months@.take(i as int));
        let records = &months[i].daily_data;
        let mut k: usize = 0;
        proof {
            assert(months@.take(i + 1).drop_last() =~= months@.take(i as int));
            assert(months@.take(i + 1).last() == months@[i as int]);
            assert(records@.take(0) =~= Seq::<DailyData>::empty());
            assert(before + purged(records@.take(0)) =~= before);
        }
        while k < records.len()
            invariant
                0 <= k <= records.len(),
                highest_price == highest_close(before + purged(records@.take(k as int))),
                lowest_price == lowest_close(before + purged(records@.take(k as int))),
            decreases records.len() - k,
        {
            let ghost sofar = before + purged(records@.take(k as int));
            proof {
                assert(records@.take(k + 1).drop_last() =~= records@.take(k as int));
                assert(records@.take(k + 1).last() == records@[k as int]);
            }
            if !records[k].malformed() {
                proof {
                    let next = before + purged(records@.take(k + 1));
                    assert(next =~= sofar.push(records@[k as int]));
                    assert(next.drop_last() =~= sofar);
                    assert(next.last() == records@[k as int]);
                }
                if records[k].close > highest_price {
                    highest_price = records[k].close;
                }
                if records[k].close < lowest_price {
                    lowest_price = records[k].close;
                }
            }
            k = k + 1;
        }
        proof {
            assert(records@.take(records.len() as int) =~= records@);
        }
        i = i + 1;
    }
    proof {
        assert(months@.take(months.len() as int) =~= months@);
        lemma_highest_close(range_records(months@));
        lemma_lowest_close(range_records(months@));
    }
    RangeHighLow { highest_price, lowest_price }
}

} // verus!
