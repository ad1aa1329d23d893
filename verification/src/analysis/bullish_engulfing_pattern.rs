//! The bullish engulfing pattern: a falling day followed by a rising day
//! whose body covers the whole range of the day before.

use crate::calendar::Date;
use crate::data::monthly_data::{
    DailyData, MonthlyData, feed_order, ordered_records_of, purged,
};
use crate::sorting::stable_sorted;
use vstd::prelude::*;

verus! {

/// A day on which the pattern is complete.
#[derive(Debug)]
pub struct BullishEngulfingPattern {
    pub stock_no: String,
    pub date: Date,
    pub curr_day: DailyData,
}

/// A pattern day as a mathematical object.
pub struct BullishEngulfingView {
    pub stock_no: Seq<char>,
    pub date: Date,
    pub curr_day: DailyData,
}

impl View for BullishEngulfingPattern {
    type V = BullishEngulfingView;

    open spec fn view(&self) -> BullishEngulfingView {
        BullishEngulfingView { stock_no: self.stock_no@, date: self.date, curr_day: self.curr_day }
    }
}

/// The patterns of a vector as mathematical objects.
pub open spec fn pattern_views(patterns: Seq<BullishEngulfingPattern>) -> Seq<BullishEngulfingView> {
    Seq::new(patterns.len(), |i: int| patterns[i]@)
}

/// Why a query for the pattern on one day has no answer.
#[derive(Clone, Copy, Debug, PartialEq, Eq, Structural)]
pub enum EngulfingError {
    /// The day is the first trading day of its month and there is no record
    /// of the month before to compare it with.
    NoPriorData,
}

/// The rule. The day before fell (`prev.close < prev.open`), the day rose
/// (`curr.close > curr.open`), and the body of the day covers the whole
/// range of the day before: it opened below that day's low and closed above
/// its high.
pub open spec fn engulfs(prev: DailyData, curr: DailyData) -> bool {
    &&& prev.close < prev.open
    &&& curr.close > curr.open
    &&& curr.open < prev.low
    &&& curr.close > prev.high
}

/// Whether `curr` completes the pattern after `prev`.
pub fn is_bullish_engulfing(prev: &DailyData, curr: &DailyData) -> (b: bool)
    ensures
        b == engulfs(*prev, *curr),
{
    let prev_black = prev.close < prev.open;
    let curr_red = curr.close > curr.open;
    let engulf = curr.open < prev.low && curr.close > prev.high;
    prev_black && curr_red && engulf
}

/// The pattern day that `curr` is for the stock.
pub open spec fn pattern_on(stock_no: Seq<char>, curr: DailyData) -> BullishEngulfingView {
    BullishEngulfingView { stock_no, date: curr.date, curr_day: curr }
}

/// The pattern days among the first `upto` of `days`, where each day is
/// compared with the one before it in `days`.
pub open spec fn patterns_among(stock_no: Seq<char>, days: Seq<DailyData>, upto: int) -> Seq<
    BullishEngulfingView,
>
    decreases upto,
{
    if upto <= 1 {
        Seq::empty()
    } else {
        let before = patterns_among(stock_no, days, upto - 1);
        if engulfs(days[upto - 2], days[upto - 1]) {
            before.push(pattern_on(stock_no, days[upto - 1]))
        } else {
            before
        }
    }
}

/// Finds the pattern over the series of a range of months, which `months`
/// holds in calendar order. The records that are not malformed are taken
/// month after month and by day within each month, and each is compared
/// with the one before it, also across the start of a month.
pub fn anal_range_company(stock_no: &str, months: &Vec<MonthlyData>) -> (r: Vec<
    BullishEngulfingPattern,
>)
    ensures
        pattern_views(r@) == patterns_among(
            stock_no@,
            feed_order(months@),
            feed_order(months@).len() as int,
        ),
{
    let days = ordered_records_of(months);
    let mut results: Vec<BullishEngulfingPattern> = Vec::new();
    proof {
        assert(pattern_views(results@) =~= patterns_among(stock_no@, days@, 0));
        assert(pattern_views(results@) =~= patterns_among(stock_no@, days@, 1));
    }
    if days.len() < 2 {
        proof {
            assert(pattern_views(results@) =~= patterns_among(stock_no@, days@, days.len() as int));
        }
        return results;
    }
    let mut i: usize = 1;
    while i < days.len()
        invariant
            1 <= i <= days.len(),
            pattern_views(results@) == patterns_among(stock_no@, days@, i as int),
        decreases days.len() - i,
    {
        let ghost before = pattern_views(results@);
        if is_bullish_engulfing(&days[i - 1], &days[i]) {
            let hit = BullishEngulfingPattern {
                stock_no: stock_no.to_owned(),
                date: days[i].date,
                curr_day: days[i].clone(),
            };
            results.push(hit);
            proof {
                assert(pattern_views(results@) =~= before.push(pattern_on(stock_no@, days@[i as int])));
            }
        }
        i = i + 1;
    }
    results
}

/// The place of the first record of `days` that is dated `date`, or the
/// length of `days` where there is none.
pub open spec fn first_dated(days: Seq<DailyData>, date: Date) -> int
    decreases days.len(),
{
    if days.len() == 0 || days[0].date == date {
        0
    } else {
        1 + first_dated(days.skip(1), date)
    }
}

/// The place of the first record dated `date`.
fn position_of_date(days: &Vec<DailyData>, date: Date) -> (at: usize)
    ensures
        at == first_dated(days@, date),
        at <= days.len(),
        at < days.len() ==> days@[at as int].date == date,
{
    let mut at: usize = 0;
    proof {
        assert(days@.skip(0) =~= days@);
    }
    while at < days.len() && days[at].date != date
        invariant
            0 <= at <= days.len(),
            first_dated(days@, date) == at + first_dated(days@.skip(at as int), date),
        decreases days.len() - at,
    {
        proof {
            assert(days@.skip(at as int)[0] == days@[at as int]);
            assert(days@.skip(at as int).skip(1) =~= days@.skip(at + 1));
        }
        at = at + 1;
    }
    proof {
        if at < days.len() {
            assert(days@.skip(at as int)[0] == days@[at as int]);
        }
    }
    at
}

/// The records of a series that take part in the analysis, by day.
pub open spec fn trading_days(series: MonthlyData) -> Seq<DailyData> {
    stable_sorted(purged(series.daily_data@))
}

/// The trading days of the month before, as far as its series is at hand.
pub open spec fn prior_days(previous: Option<MonthlyData>) -> Seq<DailyData> {
    match previous {
        Some(series) => trading_days(series),
        None => Seq::empty(),
    }
}

/// Whether a query for `date` has to look at the month before: the first
/// trading day of the series is dated `date`.
pub open spec fn looks_back(series: MonthlyData, date: Date) -> bool {
    trading_days(series).len() > 0 && first_dated(trading_days(series), date) == 0
}

/// Whether a query for the pattern on `date` needs the series of the month
/// before.
pub fn needs_previous_month(monthly_data: &MonthlyData, date: Date) -> (b: bool)
    ensures
        b == looks_back(*monthly_data, date),
{
    let days = monthly_data.ordered_records();
    days.len() > 0 && position_of_date(&days, date) == 0
}

/// The answer to a query for the pattern on `date`. Without a trading day
/// dated `date` there is no pattern. Otherwise the first such day is
/// compared with the trading day before it: the one before it in the month,
/// or, for the first trading day of the month, the last one of the month
/// before, without which there is no answer.
pub open spec fn pattern_on_date(
    stock_no: Seq<char>,
    days: Seq<DailyData>,
    prior: Seq<DailyData>,
    date: Date,
) -> Result<Seq<BullishEngulfingView>, EngulfingError> {
    let at = first_dated(days, date);
    if at >= days.len() {
        Ok(Seq::empty())
    } else if at == 0 && prior.len() == 0 {
        Err(EngulfingError::NoPriorData)
    } else {
        let prev = if at == 0 {
            prior.last()
        } else {
            days[at - 1]
        };
        if engulfs(prev, days[at]) {
            Ok(seq![pattern_on(stock_no, days[at])])
        } else {
            Ok(Seq::empty())
        }
    }
}

/// Looks for the pattern of one stock on `date`. `monthly_data` is the
/// series of the month of `date`; `prev_monthly_data` is the series of the
/// month before, which is needed when `needs_previous_month` says so.
pub fn anal_date_company(
    monthly_data: &MonthlyData,
    prev_monthly_data: Option<&MonthlyData>,
    date: Date,
) -> (r: Result<Vec<BullishEngulfingPattern>, EngulfingError>)
    ensures
        match pattern_on_date(
            monthly_data.stock_no@,
            trading_days(*monthly_data),
            prior_days(
                match prev_monthly_data {
                    Some(series) => Some(*series),
                    None => None,
                },
            ),
            date,
        ) {
            Ok(views) => r matches Ok(patterns) && pattern_views(patterns@) == views,
            Err(e) => r matches Err(f) && f == e,
        },
{
    let mut results: Vec<BullishEngulfingPattern> = Vec::new();
    let days = monthly_data.ordered_records();
    let at = position_of_date(&days, date);
    if at >= days.len() {
        proof {
            assert(pattern_views(results@) =~= Seq::<BullishEngulfingView>::empty());
        }
        return Ok(results);
    }
    let curr = &days[at];
    let hit = if at == 0 {
        let prior = match prev_monthly_data {
            Some(series) => series.ordered_records(),
            None => Vec::new(),
        };
        if prior.len() == 0 {
            return Err(EngulfingError::NoPriorData);
        }
        is_bullish_engulfing(&prior[prior.len() - 1], curr)
    } else {
        is_bullish_engulfing(&days[at - 1], curr)
    };
    if hit {
        results.push(
            BullishEngulfingPattern {
                stock_no: monthly_data.stock_no.clone(),
                date: curr.date,
                curr_day: curr.clone(),
            },
        );
        proof {
            assert(pattern_views(results@) =~= seq![pattern_on(monthly_data.stock_no@, days@[at as int])]);
        }
    } else {
        proof {
            assert(pattern_views(results@) =~= Seq::<BullishEngulfingView>::empty());
        }
    }
    Ok(results)
}

} // verus!
