//! Display forms: dates in the civil calendar whose years count from 1912,
//! and share counts grouped in thousands.

use crate::calendar::{
    Date, DateError, MAX_YEAR, MIN_YEAR, compact_date_reading, lemma_pow10_small,
};
use crate::text::{
    all_digits, chars_of, decimal_text, digits_value, fixed_text,
    lemma_decimal_text_shape, lemma_decimal_text_value, lemma_digits_are_decimal_text,
    lemma_digits_are_fixed_text, lemma_fixed_text_shape, lemma_fixed_text_value, push_decimal,
    push_fixed, read_digits, signed_text,
};
use vstd::prelude::*;
use vstd::string::StringExecFns;

verus! {

/// The year of the civil calendar in which 1912 is year 1.
pub open spec fn civil_year(year: int) -> int {
    year - 1911
}

/// The display form of a date: the civil year, a slash, the month in two
/// digits, a slash, the day in two digits.
pub open spec fn roc_text(date: Date) -> Seq<char> {
    signed_text(civil_year(date.year as int)) + seq!['/'] + fixed_text(date.month as nat, 2)
        + seq!['/'] + fixed_text(date.day as nat, 2)
}

/// Writes a date in its display form, such as `113/02/01` for the first of
/// February 2024.
pub fn naive_to_roc_date(date: Date) -> (s: String)
    requires
        date.is_valid(),
    ensures
        s@ == roc_text(date),
{
    let mut s = String::new();
    let civil: i32 = date.year - 1911;
    if civil < 0 {
        s.push('-');
        push_decimal(&mut s, (-civil) as u64);
    } else {
        push_decimal(&mut s, civil as u64);
    }
    s.push('/');
    push_fixed(&mut s, date.month as u64, 2);
    s.push('/');
    push_fixed(&mut s, date.day as u64, 2);
    proof {
        assert(s@ =~= roc_text(date));
    }
    s
}

/// Converts a date written as `YYYYMMDD` into its display form. A text that
/// writes no date is an error.
pub fn to_roc_date(date_str: &str) -> (r: Result<String, DateError>)
    ensures
        match Date::from_reading(compact_date_reading(date_str@)) {
            Ok(date) => r matches Ok(s) && s@ == roc_text(date),
            Err(e) => r == Err::<String, DateError>(e),
        },
{
    match Date::from_compact(date_str) {
        Ok(date) => Ok(naive_to_roc_date(date)),
        Err(e) => Err(e),
    }
}

/// The writing of `n` with a comma between each group of three digits,
/// counted from the right.
pub open spec fn grouped_text(n: nat) -> Seq<char>
    decreases n,
{
    if n < 1000 {
        decimal_text(n)
    } else {
        grouped_text(n / 1000) + seq![','] + fixed_text(n % 1000, 3)
    }
}

/// Appends `n` with its digits grouped in thousands.
fn push_grouped(s: &mut String, n: u64)
    ensures
        final(s)@ == old(s)@ + grouped_text(n as nat),
    decreases n,
{
    if n < 1000 {
        push_decimal(s, n);
    } else {
        push_grouped(s, n / 1000);
        s.push(',');
        push_fixed(s, n % 1000, 3);
        proof {
            assert(final(s)@ =~= old(s)@ + grouped_text(n as nat));
        }
    }
}

/// Writes `value` with a comma between each group of three digits:
/// 1234567 becomes `1,234,567`.
pub fn format_commas(value: u64) -> (s: String)
    ensures
        s@ == grouped_text(value as nat),
{
    let mut s = String::new();
    push_grouped(&mut s, value);
    proof {
        assert(s@ =~= grouped_text(value as nat));
    }
    s
}

/// The number of whole thousands in `value`.
pub fn divide_by_1000(value: u64) -> (r: u64)
    ensures
        r == value / 1000,
{
    value / 1000
}


/// The civil year that a text writes: digits without needless zeros in
/// front, or a minus sign and such digits that do not write zero. `None`
/// for any other text.
pub open spec fn civil_year_reading(text: Seq<char>) -> Option<int> {
    if text.len() > 0 && text[0] == '-' {
        let digits = text.skip(1);
        if digits.len() >= 1 && all_digits(digits) && digits[0] != '0' {
            Some(-(digits_value(digits) as int))
        } else {
            None
        }
    } else if text.len() >= 1 && all_digits(text) && (text.len() == 1 || text[0] != '0') {
        Some(digits_value(text) as int)
    } else {
        None
    }
}

/// The date that a display form writes: a civil year, a slash, two digits
/// of the month, a slash, two digits of the day, which together name a
/// valid date. `None` for any other text.
pub open spec fn roc_date_reading(text: Seq<char>) -> Option<Date> {
    let n = text.len() as int;
    if n >= 7 && text[n - 3] == '/' && text[n - 6] == '/' {
        let mm = text.subrange(n - 5, n - 3);
        let dd = text.subrange(n - 2, n);
        match civil_year_reading(text.take(n - 6)) {
            Some(civil) => if all_digits(mm) && all_digits(dd) && MIN_YEAR <= civil + 1911
                <= MAX_YEAR {
                let date = Date {
                    year: (civil + 1911) as i32,
                    month: digits_value(mm) as u32,
                    day: digits_value(dd) as u32,
                };
                if date.is_valid() {
                    Some(date)
                } else {
                    None
                }
            } else {
                None
            },
            None => None,
        }
    } else {
        None
    }
}

/// Reads the civil year that the first `to` characters write, if it is one
/// whose year of the calendar has four digits.
fn read_civil_year(chars: &Vec<char>, to: usize) -> (r: Option<i32>)
    requires
        to <= chars.len(),
    ensures
        r matches Some(civil) ==> civil_year_reading(chars@.take(to as int)) == Some(civil as int)
            && MIN_YEAR <= civil + 1911 <= MAX_YEAR,
        r is None ==> match civil_year_reading(chars@.take(to as int)) {
            Some(civil) => !(MIN_YEAR <= civil + 1911 <= MAX_YEAR),
            None => true,
        },
{
    let ghost text = chars@.take(to as int);
    if to == 0 {
        return None;
    }
    proof {
        assert(text[0] == chars@[0]);
    }
    let negative = chars[0] == '-';
    let from: usize = if negative {
        1
    } else {
        0
    };
    proof {
        assert(chars@.subrange(from as int, to as int) =~= if negative {
            text.skip(1)
        } else {
            text
        });
        if from < to {
            assert(chars@.subrange(from as int, to as int)[0] == chars@[from as int]);
        }
    }
    if to - from < 1 {
        return None;
    }
    if chars[from] == '0' && (negative || to - from > 1) {
        return None;
    }
    let magnitude = match read_digits(chars, from, to) {
        Some(v) => v,
        None => {
            return None;
        },
    };
    if negative {
        if magnitude > 1911 {
            None
        } else {
            Some(-(magnitude as i32))
        }
    } else if magnitude > 8088 {
        None
    } else {
        Some(magnitude as i32)
    }
}

/// Reads a date from its display form, such as `113/02/01`.
pub fn parse_roc_date(text: &str) -> (r: Option<Date>)
    ensures
        r == roc_date_reading(text@),
        r matches Some(d) ==> d.is_valid(),
{
    let chars = chars_of(text);
    let n = chars.len();
    if n < 7 || chars[n - 3] != '/' || chars[n - 6] != '/' {
        return None;
    }
    let ghost t = text@;
    let ghost mm = t.subrange(n - 5, n - 3);
    let ghost dd = t.subrange(n - 2, n as int);
    proof {
        lemma_pow10_small();
        if all_digits(mm) {
            lemma_digits_are_fixed_text(mm);
        }
        if all_digits(dd) {
            lemma_digits_are_fixed_text(dd);
        }
    }
    let civil = match read_civil_year(&chars, n - 6) {
        Some(c) => c,
        None => {
            return None;
        },
    };
    let month = match read_digits(&chars, n - 5, n - 3) {
        Some(m) => m,
        None => {
            return None;
        },
    };
    let day = match read_digits(&chars, n - 2, n) {
        Some(d) => d,
        None => {
            return None;
        },
    };
    let date = Date { year: civil + 1911, month: month as u32, day: day as u32 };
    if date.check() {
        Some(date)
    } else {
        None
    }
}

/// Reading the writing of a civil year gives the year.
pub proof fn lemma_civil_year_round_trip(civil: int)
    ensures
        civil_year_reading(signed_text(civil)) == Some(civil),
{
    if civil < 0 {
        let m = (-civil) as nat;
        lemma_decimal_text_shape(m);
        lemma_decimal_text_value(m);
        let t = signed_text(civil);
        assert(t[0] == '-');
        assert(t.skip(1) =~= decimal_text(m));
    } else {
        lemma_decimal_text_shape(civil as nat);
        lemma_decimal_text_value(civil as nat);
        let t = signed_text(civil);
        assert(t[0] != '-') by {
            assert(crate::text::is_digit(t[0]));
        }
    }
}

/// A text that reads as a civil year is the writing of that year.
pub proof fn lemma_civil_year_reading_is_text(text: Seq<char>)
    ensures
        civil_year_reading(text) matches Some(civil) ==> signed_text(civil) == text,
{
    if civil_year_reading(text) is Some {
        if text[0] == '-' {
            let digits = text.skip(1);
            lemma_digits_are_decimal_text(digits);
            crate::text::lemma_leading_digit_value(digits);
            assert(text =~= seq!['-'] + digits);
        } else {
            lemma_digits_are_decimal_text(text);
        }
    }
}

/// Writing a valid date in its display form and reading the text back gives
/// the date.
pub proof fn lemma_roc_text_round_trip(date: Date)
    requires
        date.is_valid(),
    ensures
        roc_date_reading(roc_text(date)) == Some(date),
{
    let civil = civil_year(date.year as int);
    let y = signed_text(civil);
    let m = fixed_text(date.month as nat, 2);
    let d = fixed_text(date.day as nat, 2);
    let t = roc_text(date);
    lemma_civil_year_round_trip(civil);
    lemma_fixed_text_shape(date.month as nat, 2);
    lemma_fixed_text_shape(date.day as nat, 2);
    lemma_pow10_small();
    lemma_fixed_text_value(date.month as nat, 2);
    lemma_fixed_text_value(date.day as nat, 2);
    let n = t.len() as int;
    assert(t =~= y + seq!['/'] + m + seq!['/'] + d);
    assert(y.len() >= 1) by {
        if civil < 0 {
        } else {
            lemma_decimal_text_shape(civil as nat);
        }
    }
    assert(n == y.len() + 6);
    assert(t[n - 3] == '/');
    assert(t[n - 6] == '/');
    assert(t.take(n - 6) =~= y);
    assert(t.subrange(n - 5, n - 3) =~= m);
    assert(t.subrange(n - 2, n) =~= d);
}

/// A text that reads as a date is the display form of that date, and the
/// date is valid: no two texts read as the same date.
pub proof fn lemma_roc_reading_is_text(text: Seq<char>)
    ensures
        roc_date_reading(text) matches Some(date) ==> date.is_valid() && roc_text(date) == text,
{
    if roc_date_reading(text) is Some {
        let n = text.len() as int;
        let yy = text.take(n - 6);
        let mm = text.subrange(n - 5, n - 3);
        let dd = text.subrange(n - 2, n);
        let date = roc_date_reading(text)->0;
        lemma_civil_year_reading_is_text(yy);
        lemma_digits_are_fixed_text(mm);
        lemma_digits_are_fixed_text(dd);
        lemma_pow10_small();
        assert(mm.len() == 2 && dd.len() == 2);
        assert(date.month as nat == digits_value(mm));
        assert(date.day as nat == digits_value(dd));
        assert(civil_year(date.year as int) == civil_year_reading(yy)->0);
        assert(signed_text(civil_year(date.year as int)) == yy);
        assert(fixed_text(date.month as nat, 2) == mm);
        assert(fixed_text(date.day as nat, 2) == dd);
        assert(text =~= yy + seq!['/'] + mm + seq!['/'] + dd);
    }
}

/// `count` blanks.
pub open spec fn blanks(count: nat) -> Seq<char> {
    Seq::new(count, |i: int| ' ')
}

/// `s` with blanks behind it until it is `width` characters long; `s`
/// itself where it is that long already.
pub open spec fn left_aligned(s: Seq<char>, width: nat) -> Seq<char> {
    if s.len() < width {
        s + blanks((width - s.len()) as nat)
    } else {
        s
    }
}

/// `s` with blanks in front of it until it is `width` characters long; `s`
/// itself where it is that long already.
pub open spec fn right_aligned(s: Seq<char>, width: nat) -> Seq<char> {
    if s.len() < width {
        blanks((width - s.len()) as nat) + s
    } else {
        s
    }
}

/// A count of hundredths written as a decimal with two places: 62550 is
/// `625.50`.
pub open spec fn price_text(hundredths: nat) -> Seq<char> {
    decimal_text(hundredths / 100) + seq!['.'] + fixed_text(hundredths % 100, 2)
}

/// A signed count of hundredths written as a decimal with two places, a
/// minus sign in front of a negative one.
pub open spec fn change_text(hundredths: int) -> Seq<char> {
    if hundredths < 0 {
        seq!['-'] + price_text((-hundredths) as nat)
    } else {
        price_text(hundredths as nat)
    }
}

/// Appends `count` blanks.
fn push_blanks(out: &mut String, count: usize)
    ensures
        final(out)@ == old(out)@ + blanks(count as nat),
{
    let mut i: usize = 0;
    proof {
        assert(out@ =~= old(out)@ + blanks(0));
    }
    while i < count
        invariant
            0 <= i <= count,
            out@ == old(out)@ + blanks(i as nat),
        decreases count - i,
    {
        out.push(' ');
        proof {
            assert(out@ =~= old(out)@ + blanks((i + 1) as nat));
        }
        i = i + 1;
    }
}

/// Appends `s`, filled up with blanks behind it to `width` characters.
pub fn push_left_aligned(out: &mut String, s: &str, width: usize)
    ensures
        final(out)@ == old(out)@ + left_aligned(s@, width as nat),
{
    let len = chars_of(s).len();
    out.append(s);
    if len < width {
        push_blanks(out, width - len);
        proof {
            assert(final(out)@ =~= old(out)@ + left_aligned(s@, width as nat));
        }
    }
}

/// Appends `s`, filled up with blanks in front of it to `width` characters.
pub fn push_right_aligned(out: &mut String, s: &str, width: usize)
    ensures
        final(out)@ == old(out)@ + right_aligned(s@, width as nat),
{
    let len = chars_of(s).len();
    if len < width {
        push_blanks(out, width - len);
    }
    out.append(s);
    proof {
        assert(final(out)@ =~= old(out)@ + right_aligned(s@, width as nat));
    }
}

/// Writes a count of hundredths as a decimal with two places.
pub fn format_price(hundredths: u64) -> (s: String)
    ensures
        s@ == price_text(hundredths as nat),
{
    let mut s = String::new();
    push_decimal(&mut s, hundredths / 100);
    s.push('.');
    push_fixed(&mut s, hundredths % 100, 2);
    proof {
        assert(s@ =~= price_text(hundredths as nat));
    }
    s
}

/// Writes a signed count of hundredths as a decimal with two places.
pub fn format_change(hundredths: i64) -> (s: String)
    ensures
        s@ == change_text(hundredths as int),
{
    let mut s = String::new();
    let magnitude: u64 = if hundredths < 0 {
        s.push('-');
        (-(hundredths as i128)) as u64
    } else {
        hundredths as u64
    };
    push_decimal(&mut s, magnitude / 100);
    s.push('.');
    push_fixed(&mut s, magnitude % 100, 2);
    proof {
        assert(s@ =~= change_text(hundredths as int));
    }
    s
}

} // verus!
