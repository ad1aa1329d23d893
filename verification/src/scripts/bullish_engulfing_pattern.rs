//! The bullish engulfing pattern over every stock.

use crate::analysis::bullish_engulfing_pattern::{
    BullishEngulfingPattern, BullishEngulfingView, EngulfingError, anal_date_company,
    anal_range_company, pattern_on_date, pattern_views, patterns_among, prior_days, trading_days,
};
use crate::calendar::Date;
use crate::data::monthly_data::{MonthWithPrevious, StockMonths, feed_order};
use vstd::prelude::*;

verus! {

/// The pattern days of one stock over its months.
pub open spec fn patterns_of_stock(stock: StockMonths) -> Seq<BullishEngulfingView> {
    patterns_among(stock.stock_no@, feed_order(stock.months@), feed_order(stock.months@).len() as int)
}

/// The pattern days of every stock, stock after stock.
pub open spec fn patterns_of_all(universe: Seq<StockMonths>) -> Seq<BullishEngulfingView>
    decreases universe.len(),
{
    if universe.len() == 0 {
        Seq::empty()
    } else {
        patterns_of_all(universe.drop_last()) + patterns_of_stock(universe.last())
    }
}

/// Finds the pattern over the months of every stock, in the order of the
/// stocks and, for each stock, of its days.
pub fn anal_range_all_companies(universe: &Vec<StockMonths>) -> (r: Vec<BullishEngulfingPattern>)
    ensures
        pattern_views(r@) == patterns_of_all(universe@),
{
    let mut all_results: Vec<BullishEngulfingPattern> = Vec::new();
    let mut i: usize = 0;
    proof {
        assert(universe@.take(0) =~= Seq::<StockMonths>::empty());
        assert(pattern_views(all_results@) =~= patterns_of_all(universe@.take(0)));
    }
    while i < universe.len()
        invariant
            0 <= i <= universe.len(),
            pattern_views(all_results@) == patterns_of_all(universe@.take(i as int)),
        decreases universe.len() - i,
    {
        proof {
            assert(universe@.take(i + 1).drop_last() =~= universe@.take(i as int));
            assert(universe@.take(i + 1).last() == universe@[i as int]);
        }
        let ghost start = pattern_views(all_results@);
        let mut results = anal_range_company(universe[i].stock_no.as_str(), &universe[i].months);
        let ghost added = pattern_views(results@);
        all_results.append(&mut results);
        proof {
            assert(pattern_views(all_results@) =~= start + added);
        }
        i = i + 1;
    }
    proof {
        assert(universe@.take(universe.len() as int) =~= universe@);
    }
    all_results
}

/// The answer for one stock to a query for the pattern on `date`.
pub open spec fn pattern_of_stock_on(stock: MonthWithPrevious, date: Date) -> Result<
    Seq<BullishEngulfingView>,
    EngulfingError,
> {
    pattern_on_date(
        stock.current.stock_no@,
        trading_days(stock.current),
        prior_days(stock.previous),
        date,
    )
}

/// The answers of every stock put together, stock after stock; the whole
/// query has no answer as soon as one stock has none.
pub open spec fn patterns_of_all_on(universe: Seq<MonthWithPrevious>, date: Date) -> Result<
    Seq<BullishEngulfingView>,
    EngulfingError,
>
    decreases universe.len(),
{
    if universe.len() == 0 {
        Ok(Seq::empty())
    } else {
        match patterns_of_all_on(universe.drop_last(), date) {
            Ok(before) => match pattern_of_stock_on(universe.last(), date) {
                Ok(found) => Ok(before + found),
                Err(e) => Err(e),
            },
            Err(e) => Err(e),
        }
    }
}

/// Looks for the pattern on `date` over every stock, in the order of the
/// stocks. A stock without the prior data that its query needs ends the
/// whole query with the error; no partial result is handed out.
pub fn anal_date_all_companies(universe: &Vec<MonthWithPrevious>, date: Date) -> (r: Result<
    Vec<BullishEngulfingPattern>,
    EngulfingError,
>)
    ensures
        match patterns_of_all_on(universe@, date) {
            Ok(views) => r matches Ok(patterns) && pattern_views(patterns@) == views,
            Err(e) => r matches Err(f) && f == e,
        },
{
    let mut all_results: Vec<BullishEngulfingPattern> = Vec::new();
    let mut i: usize = 0;
    proof {
        assert(universe@.take(0) =~= Seq::<MonthWithPrevious>::empty());
        assert(pattern_views(all_results@) =~= Seq::<BullishEngulfingView>::empty());
    }
    while i < universe.len()
        invariant
            0 <= i <= universe.len(),
            patterns_of_all_on(universe@.take(i as int), date) == Ok::<
                Seq<BullishEngulfingView>,
                EngulfingError,
            >(pattern_views(all_results@)),
        decreases universe.len() - i,
    {
        proof {
            assert(universe@.take(i + 1).drop_last() =~= universe@.take(i as int));
            assert(universe@.take(i + 1).last() == universe@[i as int]);
        }
        let ghost start = pattern_views(all_results@);
        let stock = &universe[i];
        match anal_date_company(&stock.current, stock.previous.as_ref(), date) {
            Ok(mut results) => {
                let ghost added = pattern_views(results@);
                all_results.append(&mut results);
                proof {
                    assert(pattern_views(all_results@) =~= start + added);
                }
            },
            Err(e) => {
                proof {
                    lemma_error_stays(universe@, i + 1, date);
                }
                return Err(e);
            },
        }
        i = i + 1;
    }
    proof {
        assert(universe@.take(universe.len() as int) =~= universe@);
    }
    Ok(all_results)
}

/// Once the query has failed for a front part of the stocks, it fails the
/// same way for all of them.
pub proof fn lemma_error_stays(universe: Seq<MonthWithPrevious>, upto: int, date: Date)
    requires
        0 <= upto <= universe.len(),
        patterns_of_all_on(universe.take(upto), date) is Err,
    ensures
        patterns_of_all_on(universe, date) == patterns_of_all_on(universe.take(upto), date),
    decreases universe.len() - upto,
{
    if upto == universe.len() {
        assert(universe.take(upto) =~= universe);
    } else {
        assert(universe.take(upto + 1).drop_last() =~= universe.take(upto));
        lemma_error_stays(universe, upto + 1, date);
    }
}

} // verus!
