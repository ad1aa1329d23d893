//! Lenient reading of the numbers in a provider's rows: share counts, and
//! prices in hundredths of the currency unit. A text that writes no number
//! reads as zero.

use crate::text::{
    all_digits, chars_of, digit_value, digits_value, is_digit, is_digit_char, read_digits,
    value_of_digit,
};
use vstd::prelude::*;

verus! {

/// `s` with every comma left out.
pub open spec fn without_commas(s: Seq<char>) -> Seq<char>
    decreases s.len(),
{
    if s.len() == 0 {
        s
    } else if s.last() == ',' {
        without_commas(s.drop_last())
    } else {
        without_commas(s.drop_last()).push(s.last())
    }
}

/// The place of the first full stop of `s`, or the length of `s` when it has
/// none.
pub open spec fn first_dot(s: Seq<char>) -> int
    decreases s.len(),
{
    if s.len() == 0 || s[0] == '.' {
        0
    } else {
        1 + first_dot(s.skip(1))
    }
}

/// The hundredths that the digits behind a full stop stand for: the first
/// two count, any further ones are dropped.
pub open spec fn leading_hundredths(frac: Seq<char>) -> int {
    if frac.len() == 0 {
        0
    } else if frac.len() == 1 {
        digit_value(frac[0]) * 10
    } else {
        digit_value(frac[0]) * 10 + digit_value(frac[1])
    }
}

/// The digits before the first full stop of `body`.
pub open spec fn whole_part(body: Seq<char>) -> Seq<char> {
    body.take(first_dot(body))
}

/// What follows the first full stop of `body`; empty when there is none.
pub open spec fn fraction_part(body: Seq<char>) -> Seq<char> {
    if first_dot(body) < body.len() {
        body.skip(first_dot(body) + 1)
    } else {
        Seq::empty()
    }
}

/// The count of hundredths that an unsigned decimal writes: digits, then
/// optionally a full stop and more digits, with at least one digit in all.
pub open spec fn unsigned_hundredths(body: Seq<char>) -> Option<int> {
    let whole = whole_part(body);
    let frac = fraction_part(body);
    if all_digits(whole) && all_digits(frac) && whole.len() + frac.len() >= 1 {
        Some(digits_value(whole) * 100 + leading_hundredths(frac))
    } else {
        None
    }
}

/// The count of hundredths that a decimal writes, commas aside: an optional
/// sign, then an unsigned decimal. `None` where the text is no such number.
pub open spec fn hundredths_reading(text: Seq<char>) -> Option<int> {
    let t = without_commas(text);
    if t.len() > 0 && (t[0] == '+' || t[0] == '-') {
        match unsigned_hundredths(t.skip(1)) {
            Some(v) => Some(
                if t[0] == '-' {
                    -v
                } else {
                    v
                },
            ),
            None => None,
        }
    } else {
        unsigned_hundredths(t)
    }
}

/// The number that a count writes, commas aside: an optional plus sign, then
/// one digit or more. `None` where the text is no such number.
pub open spec fn count_reading(text: Seq<char>) -> Option<int> {
    let t = without_commas(text);
    let body = if t.len() > 0 && t[0] == '+' {
        t.skip(1)
    } else {
        t
    };
    if body.len() >= 1 && all_digits(body) {
        Some(digits_value(body) as int)
    } else {
        None
    }
}

/// A count read leniently: zero where the text writes no count, or one that
/// does not fit.
pub open spec fn lenient_count(text: Seq<char>) -> u64 {
    match count_reading(text) {
        Some(v) => if v <= u64::MAX {
            v as u64
        } else {
            0
        },
        None => 0,
    }
}

/// A price in hundredths read leniently: zero where the text writes no
/// decimal, a negative one, or one that does not fit.
pub open spec fn lenient_price(text: Seq<char>) -> u64 {
    match hundredths_reading(text) {
        Some(v) => if 0 <= v <= u64::MAX {
            v as u64
        } else {
            0
        },
        None => 0,
    }
}

/// A price change in hundredths read leniently: zero where the text writes
/// no decimal, or one that does not fit.
pub open spec fn lenient_change(text: Seq<char>) -> i64 {
    match hundredths_reading(text) {
        Some(v) => if i64::MIN <= v <= i64::MAX {
            v as i64
        } else {
            0
        },
        None => 0,
    }
}

/// The characters of `chars` that are no commas.
pub fn strip_commas(chars: &Vec<char>) -> (out: Vec<char>)
    ensures
        out@ == without_commas(chars@),
{
    let mut out: Vec<char> = Vec::new();
    let mut i: usize = 0;
    proof {
        assert(chars@.take(0) =~= Seq::<char>::empty());
    }
    while i < chars.len()
        invariant
            0 <= i <= chars.len(),
            out@ == without_commas(chars@.take(i as int)),
        decreases chars.len() - i,
    {
        proof {
            assert(chars@.take(i + 1).drop_last() =~= chars@.take(i as int));
            assert(chars@.take(i + 1).last() == chars@[i as int]);
        }
        if chars[i] != ',' {
            out.push(chars[i]);
        }
        i = i + 1;
    }
    proof {
        assert(chars@.take(chars.len() as int) =~= chars@);
    }
    out
}

/// Whether the characters from `from` up to `to` are all digits.
pub fn are_digits(chars: &Vec<char>, from: usize, to: usize) -> (b: bool)
    requires
        from <= to <= chars.len(),
    ensures
        b == all_digits(chars@.subrange(from as int, to as int)),
{
    let ghost run = chars@.subrange(from as int, to as int);
    let mut i: usize = from;
    while i < to
        invariant
            from <= i <= to <= chars.len(),
            run == chars@.subrange(from as int, to as int),
            forall|j: int| 0 <= j < i - from ==> is_digit(#[trigger] run[j]),
        decreases to - i,
    {
        if !is_digit_char(chars[i]) {
            proof {
                assert(run[i - from] == chars@[i as int]);
            }
            return false;
        }
        proof {
            assert(run[i - from] == chars@[i as int]);
        }
        i = i + 1;
    }
    true
}

/// The place of the first full stop at or behind `from`, counted from the
/// start of `chars`.
fn find_dot(chars: &Vec<char>, from: usize) -> (at: usize)
    requires
        from <= chars.len(),
    ensures
        from <= at <= chars.len(),
        at - from == first_dot(chars@.skip(from as int)),
{
    let ghost body = chars@.skip(from as int);
    let mut at: usize = from;
    proof {
        assert(body.skip(0) =~= body);
    }
    while at < chars.len() && chars[at] != '.'
        invariant
            from <= at <= chars.len(),
            body == chars@.skip(from as int),
            first_dot(body) == (at - from) + first_dot(body.skip(at - from)),
        decreases chars.len() - at,
    {
        proof {
            assert(body.skip(at - from)[0] == chars@[at as int]);
            assert(body.skip(at - from).skip(1) =~= body.skip(at - from + 1));
        }
        at = at + 1;
    }
    proof {
        if at < chars.len() {
            assert(body.skip(at - from)[0] == chars@[at as int]);
        }
    }
    at
}

/// Reads the unsigned decimal that starts at `from`. `None` where there is
/// none, and also where its whole part alone does not fit 64 bits.
fn read_hundredths(chars: &Vec<char>, from: usize) -> (r: Option<u128>)
    requires
        from <= chars.len(),
    ensures
        r matches Some(v) ==> unsigned_hundredths(chars@.skip(from as int)) == Some(v as int),
        r is None ==> match unsigned_hundredths(chars@.skip(from as int)) {
            Some(v) => v > u64::MAX,
            None => true,
        },
{
    let ghost body = chars@.skip(from as int);
    let n = chars.len();
    let dot = find_dot(chars, from);
    let frac_from: usize = if dot < n {
        dot + 1
    } else {
        n
    };
    proof {
        assert(chars@.subrange(from as int, dot as int) =~= whole_part(body));
        assert(chars@.subrange(frac_from as int, n as int) =~= fraction_part(body));
    }
    let ghost frac = fraction_part(body);
    if !are_digits(chars, from, dot) || !are_digits(chars, frac_from, n) {
        return None;
    }
    if (dot - from) + (n - frac_from) < 1 {
        return None;
    }
    let units = match read_digits(chars, from, dot) {
        Some(u) => u,
        None => {
            proof {
                assert(leading_hundredths(frac) >= 0) by {
                    if frac.len() >= 1 {
                        assert(is_digit(frac[0]));
                    }
                    if frac.len() >= 2 {
                        assert(is_digit(frac[1]));
                    }
                }
            }
            return None;
        },
    };
    let mut part: u128 = 0;
    if n - frac_from >= 1 {
        proof {
            assert(frac[0] == chars@[frac_from as int]);
            assert(is_digit(frac[0]));
        }
        part = (value_of_digit(chars[frac_from]) as u128) * 10;
    }
    if n - frac_from >= 2 {
        proof {
            assert(frac[1] == chars@[frac_from + 1]);
            assert(is_digit(frac[1]));
        }
        part = part + (value_of_digit(chars[frac_from + 1]) as u128);
    }
    Some((units as u128) * 100 + part)
}

/// Reads a count such as `46,924,943`; zero where the text writes none.
pub fn parse_count(text: &str) -> (v: u64)
    ensures
        v == lenient_count(text@),
{
    let all = chars_of(text);
    let t = strip_commas(&all);
    let from: usize = if t.len() > 0 && t[0] == '+' {
        1
    } else {
        0
    };
    proof {
        assert(t@.subrange(from as int, t.len() as int) =~= if from == 1 {
            t@.skip(1)
        } else {
            t@
        });
    }
    if t.len() - from < 1 {
        return 0;
    }
    match read_digits(&t, from, t.len()) {
        Some(v) => v,
        None => 0,
    }
}

/// Reads the text as a signed count of hundredths. `None` where the text
/// writes no decimal, and also where the decimal fits neither of the two
/// 64-bit ranges.
fn read_signed_hundredths(text: &str) -> (r: Option<(bool, u128)>)
    ensures
        r matches Some(p) ==> hundredths_reading(text@) == Some(
            if p.0 {
                -(p.1 as int)
            } else {
                p.1 as int
            },
        ),
        r is None ==> match hundredths_reading(text@) {
            Some(v) => v > u64::MAX || v < -(u64::MAX as int),
            None => true,
        },
{
    let all = chars_of(text);
    let t = strip_commas(&all);
    if t.len() > 0 && (t[0] == '+' || t[0] == '-') {
        let negative = t[0] == '-';
        match read_hundredths(&t, 1) {
            Some(v) => Some((negative, v)),
            None => None,
        }
    } else {
        proof {
            assert(t@.skip(0) =~= t@);
        }
        match read_hundredths(&t, 0) {
            Some(v) => Some((false, v)),
            None => None,
        }
    }
}

/// Reads a price such as `1,625.50` as a count of hundredths (162550); zero
/// where the text writes no price.
pub fn parse_price(text: &str) -> (v: u64)
    ensures
        v == lenient_price(text@),
{
    match read_signed_hundredths(text) {
        Some((negative, magnitude)) => {
            if negative {
                // Nothing below zero is a price, and minus zero is zero.
                0
            } else if magnitude <= 0xffff_ffff_ffff_ffff {
                magnitude as u64
            } else {
                0
            }
        },
        None => 0,
    }
}

/// Reads a price change such as `-2.50` as a count of hundredths (-250);
/// zero where the text writes none.
pub fn parse_change(text: &str) -> (v: i64)
    ensures
        v == lenient_change(text@),
{
    match read_signed_hundredths(text) {
        Some((negative, magnitude)) => {
            if negative {
                if magnitude <= 0x8000_0000_0000_0000 {
                    (-(magnitude as i128)) as i64
                } else {
                    0
                }
            } else if magnitude <= 0x7fff_ffff_ffff_ffff {
                magnitude as i64
            } else {
                0
            }
        },
        None => 0,
    }
}

} // verus!
