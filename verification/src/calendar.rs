//! Civil dates and months: validity, order, stepping from month to month,
//! the weekday of a date and the nearest completed workday.

use crate::text::{
    all_digits, chars_of, digits_value, fixed_text, lemma_digits_are_fixed_text,
    lemma_fixed_text_shape, lemma_fixed_text_value, pow10, push_fixed, read_digits,
};
use chrono::{Datelike, Duration, NaiveDate};
use vstd::prelude::*;

verus! {

/// The earliest year a date or month of this library may have.
pub const MIN_YEAR: i32 = 0;

/// The latest year a date or month of this library may have: years are
/// written in four digits.
pub const MAX_YEAR: i32 = 9999;

/// The Gregorian leap-year rule.
pub open spec fn is_leap_year(year: int) -> bool {
    year % 4 == 0 && (year % 100 != 0 || year % 400 == 0)
}

/// The number of days of a month, for `1 <= month <= 12`.
pub open spec fn days_in_month(year: int, month: int) -> int {
    if month == 2 {
        if is_leap_year(year) {
            29
        } else {
            28
        }
    } else if month == 4 || month == 6 || month == 9 || month == 11 {
        30
    } else {
        31
    }
}

/// A day of the Gregorian calendar.
#[derive(Clone, Copy, Debug, PartialEq, Eq, Structural)]
pub struct Date {
    pub year: i32,
    pub month: u32,
    pub day: u32,
}

/// A month of a year.
#[derive(Clone, Copy, Debug, PartialEq, Eq, Structural)]
pub struct YearMonth {
    pub year: i32,
    pub month: u32,
}

impl Date {
    /// The date exists in the calendar and its year has four digits.
    pub open spec fn is_valid(self) -> bool {
        &&& MIN_YEAR <= self.year <= MAX_YEAR
        &&& 1 <= self.month <= 12
        &&& 1 <= self.day <= days_in_month(self.year as int, self.month as int)
    }

    /// A number that grows with the date: an earlier date has a smaller one.
    pub open spec fn rank(self) -> int {
        (self.year * 0x1_0000_0000 + self.month) * 0x1_0000_0000 + self.day
    }

    /// The month that the date lies in.
    pub open spec fn month_of(self) -> YearMonth {
        YearMonth { year: self.year, month: self.month }
    }

    /// The day before, across the ends of months and years.
    pub open spec fn previous(self) -> Date {
        if self.day > 1 {
            Date { year: self.year, month: self.month, day: (self.day - 1) as u32 }
        } else if self.month > 1 {
            Date {
                year: self.year,
                month: (self.month - 1) as u32,
                day: days_in_month(self.year as int, self.month - 1) as u32,
            }
        } else {
            Date { year: (self.year - 1) as i32, month: 12, day: 31 }
        }
    }

    /// The date `days` days earlier.
    pub open spec fn minus_days(self, days: nat) -> Date
        decreases days,
    {
        if days == 0 {
            self
        } else {
            self.previous().minus_days((days - 1) as nat)
        }
    }

    /// Whether the date exists in the calendar and its year has four digits.
    pub fn check(&self) -> (b: bool)
        ensures
            b == self.is_valid(),
    {
        if self.year < MIN_YEAR || self.year > MAX_YEAR || self.month < 1 || self.month > 12 {
            false
        } else {
            1 <= self.day && self.day <= month_length(self.year, self.month)
        }
    }

    /// Whether `self` is `other` or an earlier date.
    pub fn not_after(&self, other: &Date) -> (b: bool)
        ensures
            b == (self.rank() <= other.rank()),
    {
        if self.year != other.year {
            self.year < other.year
        } else if self.month != other.month {
            self.month < other.month
        } else {
            self.day <= other.day
        }
    }

    /// The month that the date lies in.
    pub fn year_month(&self) -> (ym: YearMonth)
        ensures
            ym == self.month_of(),
            self.is_valid() ==> ym.is_valid(),
    {
        YearMonth { year: self.year, month: self.month }
    }
}

/// Whether `year` is a leap year.
pub fn leap_year(year: i32) -> (b: bool)
    requires
        year >= 0,
    ensures
        b == is_leap_year(year as int),
{
    year % 4 == 0 && (year % 100 != 0 || year % 400 == 0)
}

/// The number of days of a month; 31 for a month outside 1 to 12.
pub fn month_length(year: i32, month: u32) -> (n: u32)
    requires
        year >= 0,
    ensures
        n == days_in_month(year as int, month as int),
        28 <= n <= 31,
{
    if month == 2 {
        if leap_year(year) {
            29
        } else {
            28
        }
    } else if month == 4 || month == 6 || month == 9 || month == 11 {
        30
    } else {
        31
    }
}

impl YearMonth {
    /// The month is one of the twelve and the year has four digits.
    pub open spec fn is_valid(self) -> bool {
        MIN_YEAR <= self.year <= MAX_YEAR && 1 <= self.month <= 12
    }

    /// The count of months since the first month of year 0.
    pub open spec fn ordinal(self) -> int {
        self.year * 12 + self.month - 1
    }

    /// The month with a given ordinal.
    pub open spec fn at_ordinal(n: int) -> YearMonth {
        YearMonth { year: (n / 12) as i32, month: (n % 12 + 1) as u32 }
    }

    /// Whether the month is one of the twelve and the year has four digits.
    pub fn check(&self) -> (b: bool)
        ensures
            b == self.is_valid(),
    {
        MIN_YEAR <= self.year && self.year <= MAX_YEAR && 1 <= self.month && self.month <= 12
    }

    /// The month after: January of the next year follows December. There is
    /// none after the last month of the last year.
    pub fn next(&self) -> (r: Option<YearMonth>)
        requires
            self.is_valid(),
        ensures
            r is None <==> self.year == MAX_YEAR && self.month == 12,
            r matches Some(n) ==> n.is_valid() && n == YearMonth::at_ordinal(self.ordinal() + 1)
                && n.ordinal() == self.ordinal() + 1,
    {
        if self.month == 12 {
            if self.year == MAX_YEAR {
                None
            } else {
                Some(YearMonth { year: self.year + 1, month: 1 })
            }
        } else {
            Some(YearMonth { year: self.year, month: self.month + 1 })
        }
    }

    /// The month before: December of the year before precedes January.
    /// There is none before the first month of the first year.
    pub fn prev(&self) -> (r: Option<YearMonth>)
        requires
            self.is_valid(),
        ensures
            r is None <==> self.year == MIN_YEAR && self.month == 1,
            r matches Some(p) ==> p.is_valid() && p == YearMonth::at_ordinal(self.ordinal() - 1)
                && p.ordinal() == self.ordinal() - 1,
    {
        if self.month == 1 {
            if self.year == MIN_YEAR {
                None
            } else {
                Some(YearMonth { year: self.year - 1, month: 12 })
            }
        } else {
            Some(YearMonth { year: self.year, month: self.month - 1 })
        }
    }
}

/// A valid month is the month at its own ordinal, and ordinals tell valid
/// months apart.
pub proof fn lemma_ordinal_names_month(ym: YearMonth)
    requires
        ym.is_valid(),
    ensures
        YearMonth::at_ordinal(ym.ordinal()) == ym,
        0 <= ym.ordinal() < 120_000,
{
}

/// The months from `from` to `to`, both included, in calendar order; none
/// when `to` lies before `from`.
pub open spec fn months_between(from: YearMonth, to: YearMonth) -> Seq<YearMonth> {
    if to.ordinal() < from.ordinal() {
        Seq::empty()
    } else {
        Seq::new(
            (to.ordinal() - from.ordinal() + 1) as nat,
            |i: int| YearMonth::at_ordinal(from.ordinal() + i),
        )
    }
}

/// Walks from `from` to `to` one month at a time and returns every month
/// visited, both ends included.
pub fn months_in_range(from: YearMonth, to: YearMonth) -> (months: Vec<YearMonth>)
    requires
        from.is_valid(),
        to.is_valid(),
    ensures
        months@ == months_between(from, to),
        forall|i: int| 0 <= i < months.len() ==> (#[trigger] months[i]).is_valid(),
{
    let mut months: Vec<YearMonth> = Vec::new();
    if to.year < from.year || (to.year == from.year && to.month < from.month) {
        proof {
            assert(months@ =~= months_between(from, to));
        }
        return months;
    }
    let ghost want = months_between(from, to);
    let mut current = from;
    proof {
        lemma_ordinal_names_month(from);
    }
    loop
        invariant_except_break
            from.is_valid(),
            to.is_valid(),
            current.is_valid(),
            from.ordinal() <= current.ordinal() <= to.ordinal(),
            want == months_between(from, to),
            months.len() == current.ordinal() - from.ordinal(),
            months@ == want.take(months.len() as int),
            forall|i: int| 0 <= i < months.len() ==> (#[trigger] months[i]).is_valid(),
        ensures
            months@ == want,
            forall|i: int| 0 <= i < months.len() ==> (#[trigger] months[i]).is_valid(),
        decreases to.ordinal() - current.ordinal(),
    {
        proof {
            lemma_ordinal_names_month(current);
            assert(want[months.len() as int] == current);
        }
        months.push(current);
        proof {
            assert(months@ =~= want.take(months.len() as int));
        }
        if current.year == to.year && current.month == to.month {
            proof {
                assert(want.take(months.len() as int) =~= want);
            }
            break ;
        }
        match current.next() {
            Some(n) => {
                current = n;
            },
            // Only the last month of all has none after it, and it would
            // have been `to`.
            None => {
                break ;
            },
        }
    }
    months
}

/// The day of the week of the civil date `year`-`month`-`day`, counted from
/// Monday as 0 to Sunday as 6.
pub uninterp spec fn weekday_index(year: int, month: int, day: int) -> int;

/// chrono's `NaiveDate::weekday`, as `Weekday::num_days_from_monday` numbers
/// it. The date is one that `NaiveDate::from_ymd_opt` accepts; the contract
/// gives the number a name and says that it lies between 0 (Monday) and 6
/// (Sunday).
#[verifier::external_body]
fn weekday_of(year: i32, month: u32, day: u32) -> (w: u32)
    requires
        (Date { year, month, day }).is_valid(),
    ensures
        w as int == weekday_index(year as int, month as int, day as int),
        w <= 6,
{
    NaiveDate::from_ymd_opt(year, month, day).unwrap().weekday().num_days_from_monday()
}

/// chrono's subtraction of whole days from a `NaiveDate`
/// (`NaiveDate - Duration::days(days)`). The contract says that the result is
/// the date reached by stepping back one calendar day `days` times. With a
/// year of at least 0 and less than a year to step back, the result stays far
/// inside the years chrono can hold.
#[verifier::external_body]
fn days_before(date: Date, days: u32) -> (r: Date)
    requires
        date.is_valid(),
        days < 366,
    ensures
        r == date.minus_days(days as nat),
{
    let d = NaiveDate::from_ymd_opt(date.year, date.month, date.day).unwrap() - Duration::days(
        i64::from(days),
    );
    Date { year: d.year(), month: d.month(), day: d.day() }
}

/// How many days the nearest completed workday lies before a day of the
/// given weekday, counted from Monday as 0: one for a Saturday, two for a
/// Sunday, none for any other day.
pub open spec fn days_back(weekday: int) -> nat {
    if weekday == 5 {
        1
    } else if weekday == 6 {
        2
    } else {
        0
    }
}

/// The latest day, not after `date`, that is no Saturday and no Sunday: the
/// Friday before for either, `date` itself otherwise.
pub open spec fn nearest_completed_workday(date: Date) -> Date {
    date.minus_days(
        days_back(weekday_index(date.year as int, date.month as int, date.day as int)),
    )
}

/// How many days to step back from a day of the given weekday, counted from
/// Monday as 0, to reach the nearest completed workday.
pub fn days_back_from(weekday: u32) -> (days: u32)
    ensures
        days == days_back(weekday as int),
        days <= 2,
{
    if weekday == 5 {
        1
    } else if weekday == 6 {
        2
    } else {
        0
    }
}

/// Saturday gives the day before, Sunday the day two days before, any other
/// day itself.
pub fn nearest_workday(date: Date) -> (r: Date)
    requires
        date.is_valid(),
    ensures
        r == nearest_completed_workday(date),
{
    let back = days_back_from(weekday_of(date.year, date.month, date.day));
    days_before(date, back)
}

/// Whether `year_month` is the month that `today` lies in.
pub fn is_in_year_month(today: Date, year_month: YearMonth) -> (b: bool)
    ensures
        b == (today.month_of() == year_month),
{
    today.year == year_month.year && today.month == year_month.month
}

impl YearMonth {
    /// The six-digit writing of a month: four digits of the year, two of the
    /// month.
    pub open spec fn text(self) -> Seq<char> {
        fixed_text(self.year as nat, 4) + fixed_text(self.month as nat, 2)
    }

    /// The month that a text writes: the text is six digits, and the last two
    /// name one of the twelve months.
    pub open spec fn reading(text: Seq<char>) -> Option<YearMonth> {
        if text.len() == 6 && all_digits(text) && 1 <= digits_value(text.skip(4)) <= 12 {
            Some(
                YearMonth {
                    year: digits_value(text.take(4)) as i32,
                    month: digits_value(text.skip(4)) as u32,
                },
            )
        } else {
            None
        }
    }

    /// Writes the month in six digits.
    pub fn to_text(&self) -> (s: String)
        requires
            self.is_valid(),
        ensures
            s@ == self.text(),
    {
        let mut s = String::new();
        push_fixed(&mut s, self.year as u64, 4);
        push_fixed(&mut s, self.month as u64, 2);
        proof {
            assert(s@ =~= self.text());
        }
        s
    }

    /// Reads a month written in six digits; `None` for any other text.
    pub fn parse(text: &str) -> (r: Option<YearMonth>)
        ensures
            r == YearMonth::reading(text@),
            r matches Some(ym) ==> ym.is_valid(),
    {
        let chars = chars_of(text);
        if chars.len() != 6 {
            return None;
        }
        let ghost t = text@;
        proof {
            assert(t.subrange(0, 4) =~= t.take(4));
            assert(t.subrange(4, 6) =~= t.skip(4));
            lemma_split_digits(t, 4);
            if all_digits(t) {
                lemma_digits_are_fixed_text(t.take(4));
                lemma_digits_are_fixed_text(t.skip(4));
                lemma_pow10_small();
            }
        }
        let year = match read_digits(&chars, 0, 4) {
            Some(y) => y,
            None => {
                return None;
            },
        };
        let month = match read_digits(&chars, 4, 6) {
            Some(m) => m,
            None => {
                return None;
            },
        };
        if month < 1 || month > 12 {
            return None;
        }
        Some(YearMonth { year: year as i32, month: month as u32 })
    }
}

/// The first powers of ten.
pub proof fn lemma_pow10_small()
    ensures
        pow10(0) == 1,
        pow10(1) == 10,
        pow10(2) == 100,
        pow10(3) == 1000,
        pow10(4) == 10000,
{
    reveal_with_fuel(pow10, 5);
}

/// A text is made of digits exactly when both parts of it are, wherever it
/// is cut.
pub proof fn lemma_split_digits(t: Seq<char>, at: int)
    requires
        0 <= at <= t.len(),
    ensures
        all_digits(t) <==> all_digits(t.take(at)) && all_digits(t.skip(at)),
{
    if all_digits(t) {
        assert forall|i: int| 0 <= i < t.take(at).len() implies crate::text::is_digit(
            #[trigger] t.take(at)[i],
        ) by {
            assert(t.take(at)[i] == t[i]);
        }
        assert forall|i: int| 0 <= i < t.skip(at).len() implies crate::text::is_digit(
            #[trigger] t.skip(at)[i],
        ) by {
            assert(t.skip(at)[i] == t[i + at]);
        }
    }
    if all_digits(t.take(at)) && all_digits(t.skip(at)) {
        assert forall|i: int| 0 <= i < t.len() implies crate::text::is_digit(#[trigger] t[i]) by {
            if i < at {
                assert(t.take(at)[i] == t[i]);
            } else {
                assert(t.skip(at)[i - at] == t[i]);
            }
        }
    }
}

/// Writing a valid month and reading the text back gives the month.
pub proof fn lemma_year_month_text_round_trip(ym: YearMonth)
    requires
        ym.is_valid(),
    ensures
        YearMonth::reading(ym.text()) == Some(ym),
{
    let t = ym.text();
    lemma_fixed_text_shape(ym.year as nat, 4);
    lemma_fixed_text_shape(ym.month as nat, 2);
    lemma_pow10_small();
    lemma_fixed_text_value(ym.year as nat, 4);
    lemma_fixed_text_value(ym.month as nat, 2);
    assert(t.take(4) =~= fixed_text(ym.year as nat, 4));
    assert(t.skip(4) =~= fixed_text(ym.month as nat, 2));
    lemma_split_digits(t, 4);
}

/// A text that reads as a month is the writing of that month, and the month
/// is valid: no two texts read as the same month.
pub proof fn lemma_year_month_reading_is_text(text: Seq<char>)
    ensures
        YearMonth::reading(text) matches Some(ym) ==> ym.is_valid() && ym.text() == text,
{
    if YearMonth::reading(text) is Some {
        lemma_split_digits(text, 4);
        lemma_digits_are_fixed_text(text.take(4));
        lemma_digits_are_fixed_text(text.skip(4));
        lemma_pow10_small();
        assert(text =~= text.take(4) + text.skip(4));
    }
}

/// The month before the one that `year_month` writes in six digits, written
/// the same way. `None` when the text writes no month, or the first month of
/// all.
pub fn get_prev_month(year_month: &str) -> (r: Option<String>)
    ensures
        match YearMonth::reading(year_month@) {
            Some(ym) => if ym.ordinal() > 0 {
                r matches Some(s) && s@ == YearMonth::at_ordinal(ym.ordinal() - 1).text()
            } else {
                r is None
            },
            None => r is None,
        },
{
    match YearMonth::parse(year_month) {
        Some(ym) => match ym.prev() {
            Some(p) => Some(p.to_text()),
            None => None,
        },
        None => None,
    }
}


/// Why a text gave no date.
#[derive(Clone, Copy, Debug, PartialEq, Eq, Structural)]
pub enum DateError {
    /// The text does not write a day of the calendar.
    Unreadable,
    /// The text writes a day whose year lies outside `MIN_YEAR..=MAX_YEAR`.
    YearOutOfRange,
}

/// What chrono's `NaiveDate::parse_from_str` reads from a text under the
/// format `%Y%m%d`: the year, month and day of the date it returns, or `None`
/// where it returns an error.
pub uninterp spec fn compact_date_reading(text: Seq<char>) -> Option<(i32, u32, u32)>;

/// chrono's `NaiveDate::parse_from_str(text, "%Y%m%d")`, with the date taken
/// apart by `Datelike::year`, `month` and `day`. The contract names the
/// result and says of it what holds of every `NaiveDate`: its month and day
/// exist in the calendar.
#[verifier::external_body]
fn read_compact_date(text: &str) -> (r: Option<(i32, u32, u32)>)
    ensures
        r == compact_date_reading(text@),
        r matches Some(t) ==> 1 <= t.1 <= 12 && 1 <= t.2 <= days_in_month(t.0 as int, t.1 as int),
{
    match NaiveDate::parse_from_str(text, "%Y%m%d") {
        Ok(d) => Some((d.year(), d.month(), d.day())),
        Err(_) => None,
    }
}

impl Date {
    /// The date for a year, month and day that a text was read as, or the
    /// error that says why there is none.
    pub open spec fn from_reading(reading: Option<(i32, u32, u32)>) -> Result<Date, DateError> {
        match reading {
            Some(t) => if MIN_YEAR <= t.0 <= MAX_YEAR {
                Ok(Date { year: t.0, month: t.1, day: t.2 })
            } else {
                Err(DateError::YearOutOfRange)
            },
            None => Err(DateError::Unreadable),
        }
    }

    /// Keeps a date that was read if its year has four digits.
    pub fn accept_reading(reading: Option<(i32, u32, u32)>) -> (r: Result<Date, DateError>)
        ensures
            r == Date::from_reading(reading),
    {
        match reading {
            Some(t) => if MIN_YEAR <= t.0 && t.0 <= MAX_YEAR {
                Ok(Date { year: t.0, month: t.1, day: t.2 })
            } else {
                Err(DateError::YearOutOfRange)
            },
            None => Err(DateError::Unreadable),
        }
    }

    /// Reads a date written as year, month and day without separators, such
    /// as `20260130`.
    pub fn from_compact(text: &str) -> (r: Result<Date, DateError>)
        ensures
            r == Date::from_reading(compact_date_reading(text@)),
            r matches Ok(d) ==> d.is_valid(),
    {
        Date::accept_reading(read_compact_date(text))
    }
}

} // verus!
