//! The MACD indicator: two exponential moving averages of the closing price,
//! a third one of their difference, and the days on which the difference
//! crosses it.
//!
//! All values are integers. A closing price, which is a count of hundredths,
//! enters the averages multiplied by `SCALE`; the averages, the difference
//! and the signal are counts of that finer unit. Each step of an average
//! rounds down.

use crate::calendar::{Date, YearMonth, months_between, months_in_range};
use crate::common::{naive_to_roc_date, roc_text};
use crate::data::monthly_data::{DailyData, MonthlyData, feed_order, ordered_records_of};
use crate::twse::company_map::{CompanyMap, display_name, first_with_stock};
use vstd::prelude::*;
use vstd::string::StringExecFns;

verus! {

/// The number of indicator units in one hundredth of the currency unit.
pub const SCALE: i128 = 1_000_000;

/// The greatest magnitude that an average may take in or hold.
pub const EMA_LIMIT: i128 = 0x1_0000_0000_0000_0000_0000_0000_0;

/// The way in which the difference line crossed the signal line.
#[derive(Debug, Clone, Copy, PartialEq, Eq, Structural)]
pub enum MacdCrossType {
    /// From not above to above.
    GoldenCross,
    /// From not below to below.
    DeathCross,
}

/// An exponential moving average as a mathematical object.
pub struct EmaModel {
    /// The number of periods; the weight of a new value is `2 / (period + 1)`.
    pub period: int,
    /// The average so far.
    pub current: int,
    /// No value has been taken in yet.
    pub is_new: bool,
}

impl EmaModel {
    /// An average of the given period that has seen nothing.
    pub open spec fn fresh(period: int) -> EmaModel {
        EmaModel { period, current: 0, is_new: true }
    }

    /// The average after `input`: the first value is taken as it is, each
    /// later one moves the average by `2 / (period + 1)` of the way towards
    /// it, rounded down.
    pub open spec fn next(self, input: int) -> EmaModel {
        if self.is_new {
            EmaModel { period: self.period, current: input, is_new: false }
        } else {
            EmaModel {
                period: self.period,
                current: (2 * input + (self.period - 1) * self.current) / (self.period + 1),
                is_new: false,
            }
        }
    }
}

/// A quotient lies between two bounds when the dividend lies between their
/// multiples.
pub proof fn lemma_quotient_between(n: int, d: int, lo: int, hi: int)
    requires
        d > 0,
        lo * d <= n <= hi * d,
    ensures
        lo <= n / d <= hi,
{
    vstd::arithmetic::div_mod::lemma_fundamental_div_mod(n, d);
    vstd::arithmetic::div_mod::lemma_mod_bound(n, d);
    let q = n / d;
    assert(n == d * q + n % d);
    assert(lo <= q) by (nonlinear_arith)
        requires
            d > 0,
            lo * d <= d * q + n % d,
            n % d < d,
    ;
    assert(q <= hi) by (nonlinear_arith)
        requires
            d > 0,
            d * q + n % d <= hi * d,
            0 <= n % d,
    ;
}

/// An average never leaves the range of what went into it: its next value
/// lies between the smaller and the greater of the input and the average so
/// far.
pub proof fn lemma_ema_stays_between(m: EmaModel, input: int, lo: int, hi: int)
    requires
        m.period >= 1,
        lo <= input <= hi,
        m.is_new || lo <= m.current <= hi,
    ensures
        lo <= m.next(input).current <= hi,
{
    if !m.is_new {
        let p = m.period;
        let n = 2 * input + (p - 1) * m.current;
        assert(lo * (p + 1) <= n <= hi * (p + 1)) by (nonlinear_arith)
            requires
                p >= 1,
                lo <= input <= hi,
                lo <= m.current <= hi,
                n == 2 * input + (p - 1) * m.current,
        ;
        lemma_quotient_between(n, p + 1, lo, hi);
    }
}

/// An exponential moving average over integers.
#[derive(Debug, Clone, Copy)]
pub struct Ema {
    period: u16,
    current: i128,
    is_new: bool,
}

impl View for Ema {
    type V = EmaModel;

    closed spec fn view(&self) -> EmaModel {
        EmaModel { period: self.period as int, current: self.current as int, is_new: self.is_new }
    }
}

impl Ema {
    /// The period is positive and the average is within `EMA_LIMIT`.
    pub closed spec fn wf(&self) -> bool {
        self.period >= 1 && -EMA_LIMIT <= self.current <= EMA_LIMIT
    }

    /// An average of `period` periods; there is none of zero periods.
    pub fn new(period: u16) -> (r: Option<Ema>)
        ensures
            r is None <==> period == 0,
            r matches Some(e) ==> e.wf() && e@ == EmaModel::fresh(period as int),
    {
        if period == 0 {
            None
        } else {
            Some(Ema { period, current: 0, is_new: true })
        }
    }

    /// Forgets what the average has seen.
    pub fn reset(&mut self)
        requires
            old(self).wf(),
        ensures
            final(self).wf(),
            final(self)@ == EmaModel::fresh(old(self)@.period),
    {
        self.current = 0;
        self.is_new = true;
    }

    /// Takes `input` in and returns the new average.
    pub fn next(&mut self, input: i128) -> (out: i128)
        requires
            old(self).wf(),
            -EMA_LIMIT <= input <= EMA_LIMIT,
        ensures
            final(self).wf(),
            final(self)@ == old(self)@.next(input as int),
            out == final(self)@.current,
    {
        if self.is_new {
            self.is_new = false;
            self.current = input;
        } else {
            let p: i128 = self.period as i128;
            let c: i128 = self.current;
            proof {
                assert(-(0xffff * EMA_LIMIT) <= (p - 1) * c <= 0xffff * EMA_LIMIT)
                    by (nonlinear_arith)
                    requires
                        0 <= p - 1 <= 0xffff,
                        -EMA_LIMIT <= c <= EMA_LIMIT,
                ;
                lemma_ema_stays_between(
                    EmaModel { period: p as int, current: c as int, is_new: false },
                    input as int,
                    -EMA_LIMIT as int,
                    EMA_LIMIT as int,
                );
            }
            let weighted: i128 = 2 * input + (p - 1) * c;
            self.current = match weighted.checked_div_euclid(p + 1) {
                Some(q) => q,
                None => c,
            };
        }
        self.current
    }
}

/// The values of one day as mathematical objects.
pub struct DayOutcome {
    /// The fast average less the slow one.
    pub dif: int,
    /// The average of the difference line.
    pub signal: int,
    /// The difference line less the signal line.
    pub histogram: int,
    /// The crossing of the day, if there is one.
    pub cross: Option<MacdCrossType>,
}

/// The state of the indicator as a mathematical object.
pub struct MacdModel {
    /// The fast average of the closing price, of 12 periods.
    pub ema12: EmaModel,
    /// The slow average of the closing price, of 26 periods.
    pub ema26: EmaModel,
    /// The average of the difference line, of 9 periods.
    pub signal_ema9: EmaModel,
    /// The difference line of the day before; 0 before the first day.
    pub prev_dif: int,
    /// The signal line of the day before; 0 before the first day.
    pub prev_signal: int,
}

impl MacdModel {
    /// The state at the start of an evaluation.
    pub open spec fn fresh() -> MacdModel {
        MacdModel {
            ema12: EmaModel::fresh(12),
            ema26: EmaModel::fresh(26),
            signal_ema9: EmaModel::fresh(9),
            prev_dif: 0,
            prev_signal: 0,
        }
    }

    /// The difference line of a day that closes at `close` hundredths.
    pub open spec fn dif(self, close: int) -> int {
        self.ema12.next(close * SCALE).current - self.ema26.next(close * SCALE).current
    }

    /// The signal line of a day that closes at `close` hundredths.
    pub open spec fn signal(self, close: int) -> int {
        self.signal_ema9.next(self.dif(close)).current
    }

    /// The crossing of a day that closes at `close` hundredths. A golden
    /// cross: the difference line was at or below the signal line the day
    /// before and is above it now. A death cross: it was at or above and is
    /// below now.
    pub open spec fn cross(self, close: int) -> Option<MacdCrossType> {
        if self.prev_dif <= self.prev_signal && self.dif(close) > self.signal(close) {
            Some(MacdCrossType::GoldenCross)
        } else if self.prev_dif >= self.prev_signal && self.dif(close) < self.signal(close) {
            Some(MacdCrossType::DeathCross)
        } else {
            None
        }
    }

    /// The values of a day that closes at `close` hundredths.
    pub open spec fn outcome(self, close: int) -> DayOutcome {
        DayOutcome {
            dif: self.dif(close),
            signal: self.signal(close),
            histogram: self.dif(close) - self.signal(close),
            cross: self.cross(close),
        }
    }

    /// The state after a day that closes at `close` hundredths.
    pub open spec fn fed(self, close: int) -> MacdModel {
        MacdModel {
            ema12: self.ema12.next(close * SCALE),
            ema26: self.ema26.next(close * SCALE),
            signal_ema9: self.signal_ema9.next(self.dif(close)),
            prev_dif: self.dif(close),
            prev_signal: self.signal(close),
        }
    }

    /// The state after the days that close at `closes`, one after another.
    pub open spec fn fed_all(self, closes: Seq<int>) -> MacdModel
        decreases closes.len(),
    {
        if closes.len() == 0 {
            self
        } else {
            self.fed_all(closes.drop_last()).fed(closes.last())
        }
    }

    /// The values of each of the days that close at `closes`, fed one after
    /// another from this state on.
    pub open spec fn outcomes(self, closes: Seq<int>) -> Seq<DayOutcome> {
        Seq::new(closes.len(), |i: int| self.fed_all(closes.take(i)).outcome(closes[i]))
    }
}

/// Feeding a sequence in two parts, one after the other, leaves the state
/// that feeding it whole leaves.
pub proof fn lemma_feed_in_two_parts(m: MacdModel, first: Seq<int>, second: Seq<int>)
    ensures
        m.fed_all(first + second) == m.fed_all(first).fed_all(second),
    decreases second.len(),
{
    if second.len() == 0 {
        assert(first + second =~= first);
    } else {
        lemma_feed_in_two_parts(m, first, second.drop_last());
        assert((first + second).drop_last() =~= first + second.drop_last());
        assert((first + second).last() == second.last());
    }
}

/// The values of the days do not depend on how the sequence of closing
/// prices is cut into parts: feeding `first` and then, from the state it
/// leaves, `second` gives day by day what feeding `first + second` gives.
pub proof fn lemma_chunking_invariance(m: MacdModel, first: Seq<int>, second: Seq<int>)
    ensures
        m.outcomes(first + second) == m.outcomes(first) + m.fed_all(first).outcomes(second),
        m.fed_all(first + second) == m.fed_all(first).fed_all(second),
{
    lemma_feed_in_two_parts(m, first, second);
    let whole = first + second;
    let left = m.outcomes(whole);
    let right = m.outcomes(first) + m.fed_all(first).outcomes(second);
    assert(left.len() == right.len());
    assert forall|i: int| 0 <= i < left.len() implies left[i] == right[i] by {
        if i < first.len() {
            assert(whole.take(i) =~= first.take(i));
            assert(whole[i] == first[i]);
        } else {
            let k = i - first.len();
            assert(whole.take(i) =~= first + second.take(k));
            assert(whole[i] == second[k]);
            lemma_feed_in_two_parts(m, first, second.take(k));
        }
    }
    assert(left =~= right);
}

/// The state before day `i + 1` is the state before day `i`, fed day `i`.
pub proof fn lemma_state_before_next_day(m: MacdModel, closes: Seq<int>, i: int)
    requires
        0 <= i < closes.len(),
    ensures
        m.fed_all(closes.take(i + 1)) == m.fed_all(closes.take(i)).fed(closes[i]),
{
    assert(closes.take(i + 1).drop_last() =~= closes.take(i));
    assert(closes.take(i + 1).last() == closes[i]);
}

/// No two days in a row report a cross of the same type.
pub proof fn lemma_no_cross_twice_in_a_row(m: MacdModel, closes: Seq<int>, i: int)
    requires
        0 <= i,
        i + 1 < closes.len(),
    ensures
        m.outcomes(closes)[i].cross is Some ==> m.outcomes(closes)[i].cross != m.outcomes(
            closes,
        )[i + 1].cross,
{
    lemma_state_before_next_day(m, closes, i);
}

/// Between two days that report a cross of the same type lies a day on
/// which the inequality was the other way round or the lines were level: at
/// or below the signal line between two golden crosses, at or above it
/// between two death crosses.
pub proof fn lemma_crosses_alternate(m: MacdModel, closes: Seq<int>, i: int, j: int)
    requires
        0 <= i < j < closes.len(),
        m.outcomes(closes)[i].cross is Some,
        m.outcomes(closes)[i].cross == m.outcomes(closes)[j].cross,
    ensures
        i < j - 1,
        m.outcomes(closes)[i].cross == Some(MacdCrossType::GoldenCross) ==> m.outcomes(
            closes,
        )[j - 1].dif <= m.outcomes(closes)[j - 1].signal,
        m.outcomes(closes)[i].cross == Some(MacdCrossType::DeathCross) ==> m.outcomes(
            closes,
        )[j - 1].dif >= m.outcomes(closes)[j - 1].signal,
{
    lemma_state_before_next_day(m, closes, j - 1);
}

/// The values of one day: the difference line, the signal line and their
/// difference, in indicator units.
#[derive(Debug, Clone, Copy, PartialEq, Eq, Structural)]
pub struct MacdResult {
    pub dif: i128,
    pub macd_signal: i128,
    pub histogram: i128,
}

impl MacdResult {
    /// The result holds the values of `outcome`.
    pub open spec fn matches_outcome(&self, outcome: DayOutcome) -> bool {
        self.dif == outcome.dif && self.macd_signal == outcome.signal && self.histogram
            == outcome.histogram
    }
}

/// A day on which the difference line crossed the signal line.
#[derive(Debug)]
pub struct MacdCross {
    pub stock_no: String,
    pub date: Date,
    pub dif: i128,
    pub macd_signal: i128,
    pub cross_type: MacdCrossType,
}

/// A crossing as a mathematical object.
pub struct MacdCrossView {
    pub stock_no: Seq<char>,
    pub date: Date,
    pub dif: int,
    pub macd_signal: int,
    pub cross_type: MacdCrossType,
}

impl View for MacdCross {
    type V = MacdCrossView;

    open spec fn view(&self) -> MacdCrossView {
        MacdCrossView {
            stock_no: self.stock_no@,
            date: self.date,
            dif: self.dif as int,
            macd_signal: self.macd_signal as int,
            cross_type: self.cross_type,
        }
    }
}

impl Clone for MacdCross {
    fn clone(&self) -> (r: Self)
        ensures
            r == *self,
    {
        MacdCross {
            stock_no: self.stock_no.clone(),
            date: self.date,
            dif: self.dif,
            macd_signal: self.macd_signal,
            cross_type: self.cross_type,
        }
    }
}

/// The words that announce a crossing of the given type.
pub open spec fn cross_banner(cross_type: MacdCrossType) -> Seq<char> {
    match cross_type {
        MacdCrossType::GoldenCross => "🚀 【黃金交叉】"@,
        MacdCrossType::DeathCross => "💀 【死亡交叉】"@,
    }
}

/// The line that shows a crossing: the banner of its type, the number of
/// the stock, the day in its display form, and the name of the company.
pub open spec fn cross_line(cross: MacdCrossView, company: Seq<char>) -> Seq<char> {
    cross_banner(cross.cross_type) + cross.stock_no + " Date: "@ + roc_text(cross.date) + seq![' ']
        + company
}

impl MacdCross {
    /// The line that shows the crossing, with the name under which the
    /// directory shows the company.
    pub fn print(&self, company_map: &CompanyMap) -> (line: String)
        requires
            self.date.is_valid(),
            company_map.wf(),
            company_map.knows_stock(self.stock_no@),
        ensures
            line@ == cross_line(
                self@,
                display_name(
                    company_map.stock_map@[first_with_stock(company_map.stock_map@, self.stock_no@)],
                ),
            ),
    {
        let mut line = match self.cross_type {
            MacdCrossType::GoldenCross => "🚀 【黃金交叉】".to_owned(),
            MacdCrossType::DeathCross => "💀 【死亡交叉】".to_owned(),
        };
        line.append(self.stock_no.as_str());
        line.append(" Date: ");
        line.append(naive_to_roc_date(self.date).as_str());
        line.push(' ');
        line.append(company_map.get(self.stock_no.as_str()).as_str());
        proof {
            assert(line@ =~= cross_line(
                self@,
                display_name(
                    company_map.stock_map@[first_with_stock(company_map.stock_map@, self.stock_no@)],
                ),
            ));
        }
        line
    }
}

/// The crossing that a day of a stock reports, if its values hold one.
pub open spec fn cross_of_day(stock_no: Seq<char>, date: Date, outcome: DayOutcome) -> Option<
    MacdCrossView,
> {
    match outcome.cross {
        Some(cross_type) => Some(
            MacdCrossView {
                stock_no,
                date,
                dif: outcome.dif,
                macd_signal: outcome.signal,
                cross_type,
            },
        ),
        None => None,
    }
}

/// The closing prices of a sequence of records.
pub open spec fn closes_of(days: Seq<DailyData>) -> Seq<int> {
    Seq::new(days.len(), |i: int| days[i].close as int)
}

/// The crossings among the first `upto` of the days, in the order of the
/// days, for an evaluation that starts fresh at the first day.
pub open spec fn crosses_among(stock_no: Seq<char>, days: Seq<DailyData>, upto: int) -> Seq<
    MacdCrossView,
>
    decreases upto,
{
    if upto <= 0 {
        Seq::empty()
    } else {
        let before = crosses_among(stock_no, days, upto - 1);
        match cross_of_day(
            stock_no,
            days[upto - 1].date,
            MacdModel::fresh().outcomes(closes_of(days))[upto - 1],
        ) {
            Some(cross) => before.push(cross),
            None => before,
        }
    }
}

/// The indicator engine of one stock over a range of months.
#[derive(Debug)]
pub struct MacdCalculator {
    stock_no: String,
    year_month_from: YearMonth,
    year_month_to: YearMonth,
    ema12: Ema,
    ema26: Ema,
    signal_ema9: Ema,
    prev_dif: i128,
    prev_signal: i128,
}

/// The greatest closing price in indicator units.
spec fn price_limit() -> int {
    0xffff_ffff_ffff_ffff * SCALE
}

impl View for MacdCalculator {
    type V = MacdModel;

    closed spec fn view(&self) -> MacdModel {
        MacdModel {
            ema12: self.ema12@,
            ema26: self.ema26@,
            signal_ema9: self.signal_ema9@,
            prev_dif: self.prev_dif as int,
            prev_signal: self.prev_signal as int,
        }
    }
}

impl MacdCalculator {
    /// The averages have their periods and hold values that closing prices
    /// can lead to.
    pub closed spec fn wf(&self) -> bool {
        &&& self.ema12.wf() && self.ema26.wf() && self.signal_ema9.wf()
        &&& self.ema12@.period == 12 && self.ema26@.period == 26 && self.signal_ema9@.period == 9
        &&& self.ema12@.is_new == self.ema26@.is_new
        &&& self.ema12@.is_new || 0 <= self.ema12@.current <= price_limit()
        &&& self.ema26@.is_new || 0 <= self.ema26@.current <= price_limit()
        &&& self.signal_ema9@.is_new || -price_limit() <= self.signal_ema9@.current
            <= price_limit()
        &&& self.year_month_from.is_valid() && self.year_month_to.is_valid()
    }

    /// The stock that the engine evaluates.
    pub closed spec fn stock(&self) -> Seq<char> {
        self.stock_no@
    }

    /// The first month of the evaluation.
    pub closed spec fn first_month(&self) -> YearMonth {
        self.year_month_from
    }

    /// The last month of the evaluation.
    pub closed spec fn last_month(&self) -> YearMonth {
        self.year_month_to
    }

    /// An engine for `stock_no` over the months from `year_month_from` to
    /// `year_month_to`, in its fresh state.
    pub fn new(stock_no: &str, year_month_from: YearMonth, year_month_to: YearMonth) -> (c: Self)
        requires
            year_month_from.is_valid(),
            year_month_to.is_valid(),
        ensures
            c.wf(),
            c@ == MacdModel::fresh(),
            c.stock() == stock_no@,
            c.first_month() == year_month_from,
            c.last_month() == year_month_to,
    {
        MacdCalculator {
            stock_no: stock_no.to_owned(),
            year_month_from,
            year_month_to,
            ema12: Ema { period: 12, current: 0, is_new: true },
            ema26: Ema { period: 26, current: 0, is_new: true },
            signal_ema9: Ema { period: 9, current: 0, is_new: true },
            prev_dif: 0,
            prev_signal: 0,
        }
    }

    /// Puts the engine back into its fresh state.
    pub fn reset(&mut self)
        requires
            old(self).wf(),
        ensures
            final(self).wf(),
            final(self)@ == MacdModel::fresh(),
            final(self).stock() == old(self).stock(),
            final(self).first_month() == old(self).first_month(),
            final(self).last_month() == old(self).last_month(),
    {
        self.ema12.reset();
        self.ema26.reset();
        self.signal_ema9.reset();
        self.prev_dif = 0;
        self.prev_signal = 0;
    }

    /// The months of the evaluation, in calendar order.
    pub fn months(&self) -> (r: Vec<YearMonth>)
        requires
            self.wf(),
        ensures
            r@ == months_between(self.first_month(), self.last_month()),
    {
        months_in_range(self.year_month_from, self.year_month_to)
    }

    /// Takes in the closing price of the next day, in hundredths, and
    /// returns the values of the day and its crossing, if there is one.
    pub fn feed(&mut self, date: Date, close_price: u64) -> (r: (MacdResult, Option<MacdCross>))
        requires
            old(self).wf(),
        ensures
            final(self).wf(),
            final(self)@ == old(self)@.fed(close_price as int),
            final(self).stock() == old(self).stock(),
            final(self).first_month() == old(self).first_month(),
            final(self).last_month() == old(self).last_month(),
            r.0.matches_outcome(old(self)@.outcome(close_price as int)),
            match r.1 {
                Some(cross) => Some(cross@),
                None => None,
            } == cross_of_day(old(self).stock(), date, old(self)@.outcome(close_price as int)),
    {
        let input: i128 = (close_price as i128) * SCALE;
        proof {
            lemma_ema_stays_between(self.ema12@, input as int, 0, price_limit());
            lemma_ema_stays_between(self.ema26@, input as int, 0, price_limit());
        }
        let e12 = self.ema12.next(input);
        let e26 = self.ema26.next(input);
        let dif = e12 - e26;
        proof {
            lemma_ema_stays_between(self.signal_ema9@, dif as int, -price_limit(), price_limit());
        }
        let signal = self.signal_ema9.next(dif);
        let histogram = dif - signal;
        let res = MacdResult { dif, macd_signal: signal, histogram };
        let mut cross: Option<MacdCross> = None;
        if self.prev_dif <= self.prev_signal && dif > signal {
            cross = Some(
                MacdCross {
                    stock_no: self.stock_no.clone(),
                    date,
                    dif,
                    macd_signal: signal,
                    cross_type: MacdCrossType::GoldenCross,
                },
            );
        } else if self.prev_dif >= self.prev_signal && dif < signal {
            cross = Some(
                MacdCross {
                    stock_no: self.stock_no.clone(),
                    date,
                    dif,
                    macd_signal: signal,
                    cross_type: MacdCrossType::DeathCross,
                },
            );
        }
        self.prev_dif = dif;
        self.prev_signal = signal;
        (res, cross)
    }
}

/// The crossings of a vector as mathematical objects.
pub open spec fn cross_views(crosses: Seq<MacdCross>) -> Seq<MacdCrossView> {
    Seq::new(crosses.len(), |i: int| crosses[i]@)
}

impl MacdCalculator {
    /// Evaluates the engine over the series of the months of its range,
    /// which `months` holds in calendar order: starts fresh, then feeds the
    /// closing price of every record that is not malformed, month after
    /// month and by day within each month. Returns the values of every day
    /// fed and the crossings, both in the order of the days.
    pub fn calc(&mut self, months: &Vec<MonthlyData>) -> (r: (Vec<MacdResult>, Vec<MacdCross>))
        requires
            old(self).wf(),
        ensures
            final(self).wf(),
            final(self)@ == MacdModel::fresh().fed_all(closes_of(feed_order(months@))),
            final(self).stock() == old(self).stock(),
            final(self).first_month() == old(self).first_month(),
            final(self).last_month() == old(self).last_month(),
            r.0@.len() == feed_order(months@).len(),
            forall|i: int|
                0 <= i < r.0@.len() ==> (#[trigger] r.0@[i]).matches_outcome(
                    MacdModel::fresh().outcomes(closes_of(feed_order(months@)))[i],
                ),
            cross_views(r.1@) == crosses_among(
                old(self).stock(),
                feed_order(months@),
                feed_order(months@).len() as int,
            ),
    {
        self.reset();
        let days = ordered_records_of(months);
        let ghost closes = closes_of(days@);
        let ghost stock = self.stock();
        let ghost all = MacdModel::fresh().outcomes(closes);
        let mut results: Vec<MacdResult> = Vec::new();
        let mut crosses: Vec<MacdCross> = Vec::new();
        let mut i: usize = 0;
        proof {
            assert(closes.take(0) =~= Seq::<int>::empty());
            assert(cross_views(crosses@) =~= crosses_among(stock, days@, 0));
        }
        while i < days.len()
            invariant
                0 <= i <= days.len(),
                self.wf(),
                closes == closes_of(days@),
                all == MacdModel::fresh().outcomes(closes),
                stock == self.stock(),
                self.first_month() == old(self).first_month(),
                self.last_month() == old(self).last_month(),
                self@ == MacdModel::fresh().fed_all(closes.take(i as int)),
                results@.len() == i,
                forall|k: int| 0 <= k < i ==> (#[trigger] results@[k]).matches_outcome(all[k]),
                cross_views(crosses@) == crosses_among(stock, days@, i as int),
            decreases days.len() - i,
        {
            proof {
                lemma_state_before_next_day(MacdModel::fresh(), closes, i as int);
                assert(closes[i as int] == days@[i as int].close);
            }
            let ghost before = cross_views(crosses@);
            let (res, cross) = self.feed(days[i].date, days[i].close);
            results.push(res);
            match cross {
                Some(c) => {
                    crosses.push(c);
                    proof {
                        assert(cross_views(crosses@) =~= before.push(c@));
                    }
                },
                None => {},
            }
            i = i + 1;
        }
        proof {
            assert(closes.take(days.len() as int) =~= closes);
        }
        (results, crosses)
    }
}

} // verus!
