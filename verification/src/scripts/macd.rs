//! The crossings of one day over every stock.

use crate::analysis::macd::{
    MacdCalculator, MacdCross, MacdCrossView, cross_views, crosses_among,
};
use crate::calendar::{Date, YearMonth};
use crate::data::monthly_data::{StockMonths, feed_order};
use vstd::prelude::*;

verus! {

/// The crossings of `crosses` that are dated `date`, in the same order.
pub open spec fn crosses_dated(crosses: Seq<MacdCrossView>, date: Date) -> Seq<MacdCrossView>
    decreases crosses.len(),
{
    if crosses.len() == 0 {
        Seq::empty()
    } else if crosses.last().date == date {
        crosses_dated(crosses.drop_last(), date).push(crosses.last())
    } else {
        crosses_dated(crosses.drop_last(), date)
    }
}

/// The crossings of one stock over its months, each evaluation starting
/// fresh at the first day.
pub open spec fn crosses_of_stock(stock: StockMonths) -> Seq<MacdCrossView> {
    crosses_among(stock.stock_no@, feed_order(stock.months@), feed_order(stock.months@).len() as int)
}

/// The crossings of `date` of every stock, stock after stock.
pub open spec fn crosses_of_all(universe: Seq<StockMonths>, date: Date) -> Seq<MacdCrossView>
    decreases universe.len(),
{
    if universe.len() == 0 {
        Seq::empty()
    } else {
        crosses_of_all(universe.drop_last(), date) + crosses_dated(
            crosses_of_stock(universe.last()),
            date,
        )
    }
}

/// Runs the indicator engine over the months of every stock, which lie
/// between `year_month_from` and `year_month_to`, and keeps the crossings
/// of `date`, in the order of the stocks.
pub fn anal_date_all_companies(
    universe: &Vec<StockMonths>,
    year_month_from: YearMonth,
    year_month_to: YearMonth,
    date: Date,
) -> (r: Vec<MacdCross>)
    requires
        year_month_from.is_valid(),
        year_month_to.is_valid(),
    ensures
        cross_views(r@) == crosses_of_all(universe@, date),
{
    let mut ret_crosses: Vec<MacdCross> = Vec::new();
    let mut i: usize = 0;
    proof {
        assert(universe@.take(0) =~= Seq::<StockMonths>::empty());
        assert(cross_views(ret_crosses@) =~= crosses_of_all(universe@.take(0), date));
    }
    while i < universe.len()
        invariant
            0 <= i <= universe.len(),
            year_month_from.is_valid(),
            year_month_to.is_valid(),
            cross_views(ret_crosses@) == crosses_of_all(universe@.take(i as int), date),
        decreases universe.len() - i,
    {
        proof {
            assert(universe@.take(i + 1).drop_last() =~= universe@.take(i as int));
            assert(universe@.take(i + 1).last() == universe@[i as int]);
        }
        let stock = &universe[i];
        let mut macd_calculator = MacdCalculator::new(
            stock.stock_no.as_str(),
            year_month_from,
            year_month_to,
        );
        let (_res, crosses) = macd_calculator.calc(&stock.months);
        let ghost start = cross_views(ret_crosses@);
        let ghost found = cross_views(crosses@);
        let mut k: usize = 0;
        proof {
            assert(found.take(0) =~= Seq::<MacdCrossView>::empty());
            assert(cross_views(ret_crosses@) =~= start + crosses_dated(found.take(0), date));
        }
        while k < crosses.len()
            invariant
                0 <= k <= crosses.len(),
                found == cross_views(crosses@),
                cross_views(ret_crosses@) == start + crosses_dated(found.take(k as int), date),
            decreases crosses.len() - k,
        {
            let ghost before = crosses_dated(found.take(k as int), date);
            proof {
                assert(found.take(k + 1).drop_last() =~= found.take(k as int));
                assert(found.take(k + 1).last() == crosses@[k as int]@);
            }
            if crosses[k].date == date {
                let kept = crosses[k].clone();
                let ghost held = cross_views(ret_crosses@);
                ret_crosses.push(kept);
                proof {
                    assert(cross_views(ret_crosses@) =~= held.push(kept@));
                    assert(held.push(kept@) =~= start + before.push(kept@));
                }
            }
            k = k + 1;
        }
        proof {
            assert(found.take(crosses.len() as int) =~= found);
        }
        i = i + 1;
    }
    proof {
        assert(universe@.take(universe.len() as int) =~= universe@);
    }
    ret_crosses
}

} // verus!
