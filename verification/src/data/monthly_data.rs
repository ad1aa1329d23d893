//! Daily trading records and the series of one stock over one month.

use crate::amounts::{
    lenient_change, lenient_count, lenient_price, parse_change, parse_count, parse_price,
};
use crate::calendar::{
    Date, YearMonth, is_in_year_month, nearest_completed_workday, nearest_workday,
};
use crate::common::{
    change_text, divide_by_1000, format_change, format_commas, format_price, grouped_text,
    left_aligned, naive_to_roc_date, parse_roc_date, price_text, push_left_aligned,
    push_right_aligned, right_aligned, roc_date_reading, roc_text,
};
use crate::sorting::{Sortable, stable_sort, stable_sorted};
use crate::twse::company_map::{CompanyMap, display_name, first_with_stock};
use vstd::prelude::*;

verus! {

/// One trading day of one stock. Prices are counts of hundredths of the
/// currency unit.
#[derive(Debug)]
pub struct DailyData {
    /// The day.
    pub date: Date,
    /// Shares traded.
    pub volume: u64,
    /// Currency traded.
    pub amount: u64,
    /// The opening price.
    pub open: u64,
    /// The highest price.
    pub high: u64,
    /// The lowest price.
    pub low: u64,
    /// The closing price.
    pub close: u64,
    /// The close less the close of the trading day before, as the provider
    /// reports it.
    pub change: i64,
    /// The number of transactions.
    pub transactions: u64,
    /// A free annotation; may be empty.
    pub note: String,
}

impl Clone for DailyData {
    fn clone(&self) -> (r: Self)
        ensures
            r == *self,
    {
        DailyData {
            date: self.date,
            volume: self.volume,
            amount: self.amount,
            open: self.open,
            high: self.high,
            low: self.low,
            close: self.close,
            change: self.change,
            transactions: self.transactions,
            note: self.note.clone(),
        }
    }
}

impl Sortable for DailyData {
    /// Records are ordered by their day.
    open spec fn not_after(&self, other: &Self) -> bool {
        self.date.rank() <= other.date.rank()
    }

    proof fn lemma_order(a: &Self, b: &Self, c: &Self) {
    }

    fn comes_not_after(&self, other: &Self) -> (b: bool) {
        self.date.not_after(&other.date)
    }
}

impl DailyData {
    /// A record that stands for a day without trading or with missing data:
    /// one of its four prices is zero.
    pub open spec fn is_malformed(&self) -> bool {
        self.open == 0 || self.high == 0 || self.low == 0 || self.close == 0
    }

    /// Whether one of the four prices is zero.
    pub fn malformed(&self) -> (b: bool)
        ensures
            b == self.is_malformed(),
    {
        self.open == 0 || self.high == 0 || self.low == 0 || self.close == 0
    }

    /// The record that a provider's row writes: ten fields, which are the
    /// day in its display form, volume, amount, open, high, low, close,
    /// change, transactions and note. The numbers are read leniently. A row
    /// with fewer fields, or whose first field writes no day, gives none.
    pub open spec fn of_row(row: Seq<String>) -> Option<DailyData> {
        if row.len() >= 10 {
            match roc_date_reading(row[0]@) {
                Some(date) => Some(
                    DailyData {
                        date,
                        volume: lenient_count(row[1]@),
                        amount: lenient_count(row[2]@),
                        open: lenient_price(row[3]@),
                        high: lenient_price(row[4]@),
                        low: lenient_price(row[5]@),
                        close: lenient_price(row[6]@),
                        change: lenient_change(row[7]@),
                        transactions: lenient_count(row[8]@),
                        note: row[9],
                    },
                ),
                None => None,
            }
        } else {
            None
        }
    }

    /// Reads one row of the provider.
    pub fn from_row(row: &Vec<String>) -> (r: Option<DailyData>)
        ensures
            r == DailyData::of_row(row@),
            r matches Some(record) ==> record.date.is_valid(),
    {
        if row.len() < 10 {
            return None;
        }
        let date = match parse_roc_date(row[0].as_str()) {
            Some(d) => d,
            None => {
                return None;
            },
        };
        Some(
            DailyData {
                date,
                volume: parse_count(row[1].as_str()),
                amount: parse_count(row[2].as_str()),
                open: parse_price(row[3].as_str()),
                high: parse_price(row[4].as_str()),
                low: parse_price(row[5].as_str()),
                close: parse_price(row[6].as_str()),
                change: parse_change(row[7].as_str()),
                transactions: parse_count(row[8].as_str()),
                note: row[9].clone(),
            },
        )
    }
}

/// The records of `s` that are not malformed, in the order of `s`.
pub open spec fn purged(s: Seq<DailyData>) -> Seq<DailyData>
    decreases s.len(),
{
    if s.len() == 0 {
        s
    } else if s.last().is_malformed() {
        purged(s.drop_last())
    } else {
        purged(s.drop_last()).push(s.last())
    }
}

/// Some record of `s` is dated `date`.
pub open spec fn has_date(s: Seq<DailyData>, date: Date) -> bool {
    exists|i: int| 0 <= i < s.len() && (#[trigger] s[i]).date == date
}

/// No two records of `s` have the same day.
pub open spec fn distinct_dates(s: Seq<DailyData>) -> bool {
    forall|i: int, j: int| 0 <= i < j < s.len() ==> s[i].date != s[j].date
}

/// For each day, the first record of `s` that has it, in the order of `s`.
pub open spec fn first_of_each_day(s: Seq<DailyData>) -> Seq<DailyData>
    decreases s.len(),
{
    if s.len() == 0 {
        s
    } else if has_date(first_of_each_day(s.drop_last()), s.last().date) {
        first_of_each_day(s.drop_last())
    } else {
        first_of_each_day(s.drop_last()).push(s.last())
    }
}

/// The records that the rows of a provider write, in the order of the rows;
/// a row that writes none is passed over.
pub open spec fn records_of_rows(rows: Seq<Vec<String>>) -> Seq<DailyData>
    decreases rows.len(),
{
    if rows.len() == 0 {
        Seq::empty()
    } else {
        match DailyData::of_row(rows.last()@) {
            Some(record) => records_of_rows(rows.drop_last()).push(record),
            None => records_of_rows(rows.drop_last()),
        }
    }
}

/// What purging keeps is not malformed.
pub proof fn lemma_purged_holds_no_malformed(s: Seq<DailyData>)
    ensures
        forall|i: int| 0 <= i < purged(s).len() ==> !(#[trigger] purged(s)[i]).is_malformed(),
        purged(s).len() <= s.len(),
    decreases s.len(),
{
    if s.len() > 0 {
        lemma_purged_holds_no_malformed(s.drop_last());
    }
}

/// A day that the purged records have is a day of the records themselves.
pub proof fn lemma_purged_has_no_new_day(s: Seq<DailyData>, date: Date)
    requires
        has_date(purged(s), date),
    ensures
        has_date(s, date),
    decreases s.len(),
{
    let kept = purged(s);
    let k = choose|k: int| 0 <= k < kept.len() && (#[trigger] kept[k]).date == date;
    let head = s.drop_last();
    if s.last().is_malformed() || k < purged(head).len() {
        assert(purged(head)[k].date == date);
        lemma_purged_has_no_new_day(head, date);
        let i = choose|i: int| 0 <= i < head.len() && (#[trigger] head[i]).date == date;
        assert(s[i].date == date);
    } else {
        assert(s[s.len() - 1].date == date);
    }
}

/// Purging records with distinct days leaves records with distinct days.
pub proof fn lemma_purged_keeps_days_distinct(s: Seq<DailyData>)
    requires
        distinct_dates(s),
    ensures
        distinct_dates(purged(s)),
    decreases s.len(),
{
    if s.len() > 0 {
        let head = s.drop_last();
        let kept = purged(head);
        assert(distinct_dates(head)) by {
            assert forall|i: int, j: int| 0 <= i < j < head.len() implies head[i].date
                != head[j].date by {
                assert(head[i] == s[i] && head[j] == s[j]);
            }
        }
        lemma_purged_keeps_days_distinct(head);
        if !s.last().is_malformed() {
            let out = purged(s);
            assert forall|i: int, j: int| 0 <= i < j < out.len() implies out[i].date
                != out[j].date by {
                if j < kept.len() {
                    assert(out[i] == kept[i] && out[j] == kept[j]);
                } else {
                    assert(out[i] == kept[i]);
                    if kept[i].date == s.last().date {
                        assert(has_date(kept, s.last().date));
                        lemma_purged_has_no_new_day(head, s.last().date);
                        let w = choose|w: int|
                            0 <= w < head.len() && (#[trigger] head[w]).date == s.last().date;
                        assert(s[w].date == s[s.len() - 1].date);
                    }
                }
            }
        }
    }
}

/// Purging a sequence without malformed records changes nothing.
pub proof fn lemma_purged_of_clean(s: Seq<DailyData>)
    requires
        forall|i: int| 0 <= i < s.len() ==> !(#[trigger] s[i]).is_malformed(),
    ensures
        purged(s) == s,
    decreases s.len(),
{
    if s.len() > 0 {
        let head = s.drop_last();
        assert forall|i: int| 0 <= i < head.len() implies !(#[trigger] head[i]).is_malformed() by {
            assert(head[i] == s[i]);
        }
        lemma_purged_of_clean(head);
        assert(head.push(s.last()) =~= s);
    }
}

/// Purging twice is purging once.
pub proof fn lemma_purge_idempotent(s: Seq<DailyData>)
    ensures
        purged(purged(s)) == purged(s),
{
    lemma_purged_holds_no_malformed(s);
    lemma_purged_of_clean(purged(s));
}

/// Purging removes something exactly when some record is malformed.
pub proof fn lemma_purged_len(s: Seq<DailyData>)
    ensures
        purged(s).len() < s.len() <==> exists|i: int|
            0 <= i < s.len() && (#[trigger] s[i]).is_malformed(),
    decreases s.len(),
{
    lemma_purged_holds_no_malformed(s);
    if s.len() > 0 {
        let head = s.drop_last();
        lemma_purged_len(head);
        lemma_purged_holds_no_malformed(head);
        if exists|i: int| 0 <= i < head.len() && (#[trigger] head[i]).is_malformed() {
            let i = choose|i: int| 0 <= i < head.len() && (#[trigger] head[i]).is_malformed();
            assert(s[i] == head[i]);
        }
        if exists|i: int| 0 <= i < s.len() && (#[trigger] s[i]).is_malformed() {
            let i = choose|i: int| 0 <= i < s.len() && (#[trigger] s[i]).is_malformed();
            if i < head.len() {
                assert(head[i] == s[i]);
            }
        }
    }
}

/// Keeping the first record of each day keeps every day.
pub proof fn lemma_first_of_each_day_keeps_days(s: Seq<DailyData>, date: Date)
    ensures
        has_date(first_of_each_day(s), date) <==> has_date(s, date),
    decreases s.len(),
{
    if s.len() > 0 {
        let head = s.drop_last();
        let kept = first_of_each_day(head);
        let x = s.last();
        let out = first_of_each_day(s);
        lemma_first_of_each_day_keeps_days(head, date);
        lemma_first_of_each_day_keeps_days(head, x.date);
        if has_date(s, date) {
            let i = choose|i: int| 0 <= i < s.len() && (#[trigger] s[i]).date == date;
            if i < head.len() {
                assert(head[i].date == date);
                assert(has_date(head, date));
                assert(has_date(kept, date));
                let k = choose|k: int| 0 <= k < kept.len() && (#[trigger] kept[k]).date == date;
                assert(out[k].date == date);
            } else {
                assert(x.date == date);
                if has_date(kept, x.date) {
                    let k = choose|k: int|
                        0 <= k < kept.len() && (#[trigger] kept[k]).date == x.date;
                    assert(out[k].date == date);
                } else {
                    assert(out[kept.len() as int].date == date);
                }
            }
            assert(has_date(out, date));
        }
        if has_date(out, date) {
            let k = choose|k: int| 0 <= k < out.len() && (#[trigger] out[k]).date == date;
            if k < kept.len() {
                assert(out[k] == kept[k]);
                assert(kept[k].date == date);
                assert(has_date(kept, date));
                assert(has_date(head, date));
                let i = choose|i: int| 0 <= i < head.len() && (#[trigger] head[i]).date == date;
                assert(s[i].date == date);
            } else {
                assert(out[k] == x);
                assert(s[s.len() - 1].date == date);
            }
            assert(has_date(s, date));
        }
    }
}

/// Keeping the first record of each day leaves no day twice.
pub proof fn lemma_first_of_each_day(s: Seq<DailyData>)
    ensures
        distinct_dates(first_of_each_day(s)),
        first_of_each_day(s).len() <= s.len(),
    decreases s.len(),
{
    if s.len() > 0 {
        let head = s.drop_last();
        let kept = first_of_each_day(head);
        let x = s.last();
        lemma_first_of_each_day(head);
        let out = first_of_each_day(s);
        assert forall|i: int, j: int| 0 <= i < j < out.len() implies out[i].date != out[j].date by {
            if j < kept.len() {
                assert(out[i] == kept[i] && out[j] == kept[j]);
            } else {
                assert(out[i] == kept[i]);
                assert(out[j] == x);
                if kept[i].date == x.date {
                    assert(has_date(kept, x.date));
                }
            }
        }
    }
}

/// The daily records of one stock in one month.
#[derive(Debug)]
pub struct MonthlyData {
    /// The stock.
    pub stock_no: String,
    /// The month.
    pub year_month: YearMonth,
    /// The records, in no particular order.
    pub daily_data: Vec<DailyData>,
}

/// What to do with a request for a series, given what the cache holds.
#[derive(Clone, Copy, Debug, PartialEq, Eq, Structural)]
pub enum CacheDecision {
    /// Hand out the cached series as it is.
    UseCached,
    /// Fetch the whole month and put the result in place of what is cached.
    Fetch,
}

/// Whether a request for the series of `year_month`, made on the day
/// `today`, has to fetch: nothing usable is cached, or the month is the
/// current one and the cached series has no record of the nearest completed
/// workday.
pub open spec fn must_fetch(cached: Option<MonthlyData>, year_month: YearMonth, today: Date) -> bool {
    match cached {
        None => true,
        Some(series) => today.month_of() == year_month && !has_date(
            series.daily_data@,
            nearest_completed_workday(today),
        ),
    }
}

impl MonthlyData {
    /// No day occurs twice among the records.
    pub open spec fn is_well_formed(&self) -> bool {
        distinct_dates(self.daily_data@)
    }

    /// Builds the series of a month from the rows that the provider sent
    /// for it. Of rows with the same day the first one counts.
    pub fn new(stock_no: &str, year_month: YearMonth, rows: &Vec<Vec<String>>) -> (series: Self)
        ensures
            series.stock_no@ == stock_no@,
            series.year_month == year_month,
            series.daily_data@ == first_of_each_day(records_of_rows(rows@)),
            series.is_well_formed(),
            forall|date: Date|
                has_date(series.daily_data@, date) <==> #[trigger] has_date(
                    records_of_rows(rows@),
                    date,
                ),
            forall|i: int|
                0 <= i < series.daily_data@.len() ==> (#[trigger] series.daily_data@[i]).date.is_valid(),
    {
        let mut daily_data: Vec<DailyData> = Vec::new();
        let mut i: usize = 0;
        proof {
            assert(rows@.take(0) =~= Seq::<Vec<String>>::empty());
        }
        while i < rows.len()
            invariant
                0 <= i <= rows.len(),
                daily_data@ == first_of_each_day(records_of_rows(rows@.take(i as int))),
                forall|k: int| 0 <= k < daily_data@.len() ==> (#[trigger] daily_data@[k]).date.is_valid(),
            decreases rows.len() - i,
        {
            proof {
                assert(rows@.take(i + 1).drop_last() =~= rows@.take(i as int));
                assert(rows@.take(i + 1).last() == rows@[i as int]);
            }
            match DailyData::from_row(&rows[i]) {
                Some(record) => {
                    proof {
                        let sofar = records_of_rows(rows@.take(i as int));
                        assert(sofar.push(record).drop_last() =~= sofar);
                    }
                    if !contains_date(&daily_data, record.date) {
                        daily_data.push(record);
                    }
                },
                None => {},
            }
            i = i + 1;
        }
        proof {
            assert(rows@.take(rows.len() as int) =~= rows@);
            lemma_first_of_each_day(records_of_rows(rows@));
            assert forall|date: Date|
                has_date(daily_data@, date) <==> #[trigger] has_date(
                    records_of_rows(rows@),
                    date,
                ) by {
                lemma_first_of_each_day_keeps_days(records_of_rows(rows@), date);
            }
        }
        MonthlyData { stock_no: stock_no.to_owned(), year_month, daily_data }
    }

    /// Whether the series has a record of `date`.
    pub fn contains_date(&self, date: Date) -> (b: bool)
        ensures
            b == has_date(self.daily_data@, date),
    {
        contains_date(&self.daily_data, date)
    }

    /// Removes every malformed record and says whether there was one. The
    /// records that stay keep their order.
    pub fn purge_malformed(&mut self) -> (removed: bool)
        ensures
            final(self).daily_data@ == purged(old(self).daily_data@),
            final(self).stock_no == old(self).stock_no,
            final(self).year_month == old(self).year_month,
            removed == (final(self).daily_data.len() < old(self).daily_data.len()),
            removed == exists|i: int|
                0 <= i < old(self).daily_data.len() && (#[trigger] old(self).daily_data[i]).is_malformed(),
            forall|i: int|
                0 <= i < final(self).daily_data@.len() ==> !(#[trigger] final(self).daily_data@[i])
                    .is_malformed(),
            old(self).is_well_formed() ==> final(self).is_well_formed(),
    {
        let kept = without_malformed(&self.daily_data);
        let removed = kept.len() < self.daily_data.len();
        proof {
            lemma_purged_len(self.daily_data@);
            lemma_purged_holds_no_malformed(self.daily_data@);
            if self.is_well_formed() {
                lemma_purged_keeps_days_distinct(self.daily_data@);
            }
        }
        self.daily_data = kept;
        removed
    }

    /// The records that are not malformed, in the order of their days.
    pub fn ordered_records(&self) -> (r: Vec<DailyData>)
        ensures
            r@ == stable_sorted(purged(self.daily_data@)),
    {
        stable_sort(without_malformed(&self.daily_data))
    }
}

/// Whether some record of `records` is dated `date`.
pub fn contains_date(records: &Vec<DailyData>, date: Date) -> (b: bool)
    ensures
        b == has_date(records@, date),
{
    let mut i: usize = 0;
    while i < records.len()
        invariant
            0 <= i <= records.len(),
            forall|j: int| 0 <= j < i ==> (#[trigger] records@[j]).date != date,
        decreases records.len() - i,
    {
        if records[i].date == date {
            return true;
        }
        i = i + 1;
    }
    false
}

/// The records that are not malformed, in the same order.
pub fn without_malformed(records: &Vec<DailyData>) -> (kept: Vec<DailyData>)
    ensures
        kept@ == purged(records@),
{
    let mut kept: Vec<DailyData> = Vec::new();
    let mut i: usize = 0;
    proof {
        assert(records@.take(0) =~= Seq::<DailyData>::empty());
    }
    while i < records.len()
        invariant
            0 <= i <= records.len(),
            kept@ == purged(records@.take(i as int)),
        decreases records.len() - i,
    {
        proof {
            assert(records@.take(i + 1).drop_last() =~= records@.take(i as int));
            assert(records@.take(i + 1).last() == records@[i as int]);
        }
        if !records[i].malformed() {
            kept.push(records[i].clone());
        }
        i = i + 1;
    }
    proof {
        assert(records@.take(records.len() as int) =~= records@);
    }
    kept
}

/// Decides whether a request for the series of `year_month`, made on the day
/// `today`, is served from the cache. `cached` is what the cache holds for
/// the stock and month: `None` where it holds nothing, or what it holds
/// cannot be read.
pub fn cache_decision(cached: &Option<MonthlyData>, year_month: YearMonth, today: Date) -> (d:
    CacheDecision)
    requires
        today.is_valid(),
    ensures
        d == if must_fetch(*cached, year_month, today) {
            CacheDecision::Fetch
        } else {
            CacheDecision::UseCached
        },
{
    match cached {
        None => CacheDecision::Fetch,
        Some(series) => {
            if is_in_year_month(today, year_month) && !series.contains_date(nearest_workday(today)) {
                CacheDecision::Fetch
            } else {
                CacheDecision::UseCached
            }
        },
    }
}

/// The records of several months in the order in which they are analysed:
/// month after month as given, and within each month the records that are
/// not malformed, by day.
pub open spec fn feed_order(months: Seq<MonthlyData>) -> Seq<DailyData>
    decreases months.len(),
{
    if months.len() == 0 {
        Seq::empty()
    } else {
        feed_order(months.drop_last()) + stable_sorted(purged(months.last().daily_data@))
    }
}

/// Lays the records of several months out in the order in which they are
/// analysed.
pub fn ordered_records_of(months: &Vec<MonthlyData>) -> (days: Vec<DailyData>)
    ensures
        days@ == feed_order(months@),
{
    let mut days: Vec<DailyData> = Vec::new();
    let mut i: usize = 0;
    proof {
        assert(months@.take(0) =~= Seq::<MonthlyData>::empty());
    }
    while i < months.len()
        invariant
            0 <= i <= months.len(),
            days@ == feed_order(months@.take(i as int)),
        decreases months.len() - i,
    {
        proof {
            assert(months@.take(i + 1).drop_last() =~= months@.take(i as int));
            assert(months@.take(i + 1).last() == months@[i as int]);
        }
        let mut month_days = months[i].ordered_records();
        days.append(&mut month_days);
        i = i + 1;
    }
    proof {
        assert(months@.take(months.len() as int) =~= months@);
    }
    days
}

/// The series of one stock over several months, in calendar order.
#[derive(Debug)]
pub struct StockMonths {
    /// The stock.
    pub stock_no: String,
    /// One series for each month of the range.
    pub months: Vec<MonthlyData>,
}

/// The series of one stock for a month, with the series of the month before
/// where a look back across the start of the month needs it.
#[derive(Debug)]
pub struct MonthWithPrevious {
    /// The series of the month.
    pub current: MonthlyData,
    /// The series of the month before, if it was fetched.
    pub previous: Option<MonthlyData>,
}

/// The day, the volume in thousands and the five prices of a record, each
/// in its column: the day in 10 characters, the volume in 10, each price in
/// 8, in the order open, close, high, low, change.
pub open spec fn record_columns(record: DailyData) -> Seq<char> {
    left_aligned(roc_text(record.date), 10) + volume_and_prices(record)
}

/// The volume in thousands, grouped, in 10 characters, and the five prices
/// in 8 characters each, in the order open, close, high, low, change.
pub open spec fn volume_and_prices(record: DailyData) -> Seq<char> {
    right_aligned(grouped_text((record.volume / 1000) as nat), 10) + right_aligned(
        price_text(record.open as nat),
        8,
    ) + right_aligned(price_text(record.close as nat), 8) + right_aligned(
        price_text(record.high as nat),
        8,
    ) + right_aligned(price_text(record.low as nat), 8) + right_aligned(
        change_text(record.change as int),
        8,
    )
}

/// The line that shows a record of a stock: the day in 10 characters, the
/// number of the stock in 6, the volume and the prices, two blanks, and the
/// name of the company in 20.
pub open spec fn record_line(record: DailyData, stock_no: Seq<char>, company: Seq<char>) -> Seq<
    char,
> {
    left_aligned(roc_text(record.date), 10) + left_aligned(stock_no, 6) + volume_and_prices(record)
        + seq![' ', ' '] + left_aligned(company, 20)
}

impl DailyData {
    /// Appends the volume and the five prices, each in its column.
    fn push_volume_and_prices(&self, out: &mut String)
        ensures
            final(out)@ == old(out)@ + volume_and_prices(*self),
    {
        push_right_aligned(out, format_commas(divide_by_1000(self.volume)).as_str(), 10);
        push_right_aligned(out, format_price(self.open).as_str(), 8);
        push_right_aligned(out, format_price(self.close).as_str(), 8);
        push_right_aligned(out, format_price(self.high).as_str(), 8);
        push_right_aligned(out, format_price(self.low).as_str(), 8);
        push_right_aligned(out, format_change(self.change).as_str(), 8);
        proof {
            assert(final(out)@ =~= old(out)@ + volume_and_prices(*self));
        }
    }

    /// The line that shows the record without its stock: the day, the
    /// volume in thousands and the prices, each in its column.
    pub fn to_text(&self) -> (line: String)
        requires
            self.date.is_valid(),
        ensures
            line@ == record_columns(*self),
    {
        let mut line = String::new();
        push_left_aligned(&mut line, naive_to_roc_date(self.date).as_str(), 10);
        self.push_volume_and_prices(&mut line);
        proof {
            assert(line@ =~= record_columns(*self));
        }
        line
    }

    /// The line that shows the record as one of the stock `stock_no`, with
    /// the name under which the directory shows the company.
    pub fn print(&self, company_map: &CompanyMap, stock_no: &str) -> (line: String)
        requires
            self.date.is_valid(),
            company_map.wf(),
            company_map.knows_stock(stock_no@),
        ensures
            line@ == record_line(
                *self,
                stock_no@,
                display_name(
                    company_map.stock_map@[first_with_stock(company_map.stock_map@, stock_no@)],
                ),
            ),
    {
        let mut line = String::new();
        push_left_aligned(&mut line, naive_to_roc_date(self.date).as_str(), 10);
        push_left_aligned(&mut line, stock_no, 6);
        self.push_volume_and_prices(&mut line);
        line.push(' ');
        line.push(' ');
        push_left_aligned(&mut line, company_map.get(stock_no).as_str(), 20);
        proof {
            assert(line@ =~= record_line(
                *self,
                stock_no@,
                display_name(
                    company_map.stock_map@[first_with_stock(company_map.stock_map@, stock_no@)],
                ),
            ));
        }
        line
    }
}
} // verus!
