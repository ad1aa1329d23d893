//! Characters, decimal digits and the text forms of numbers.

use vstd::prelude::*;
use vstd::std_specs::iter::IteratorSpec;

verus! {

/// `String::push` of the standard library: the character is appended and
/// nothing else changes.
pub assume_specification[ String::push ](s: &mut String, ch: char)
    ensures
        final(s)@ == old(s)@.push(ch),
;

/// The characters of `s`, in order.
pub fn chars_of(s: &str) -> (v: Vec<char>)
    ensures
        v@ == s@,
{
    broadcast use vstd::string::group_string_axioms;

    let mut v: Vec<char> = Vec::new();
    let mut it = s.chars();
    loop
        invariant_except_break
            it.obeys_prophetic_iter_laws(),
            it.decrease() is Some,
            v@ + it.remaining() == s@,
        ensures
            v@ == s@,
        decreases it.decrease()->0,
    {
        match it.next() {
            Some(c) => {
                v.push(c);
            },
            None => {
                break ;
            },
        }
    }
    v
}

/// `c` is one of the ten ASCII digits.
pub open spec fn is_digit(c: char) -> bool {
    '0' <= c && c <= '9'
}

/// The number that the ASCII digit `c` stands for.
pub open spec fn digit_value(c: char) -> int {
    c as int - 48
}

/// The ASCII digit that stands for `d`, for `0 <= d <= 9`.
pub open spec fn digit_char(d: int) -> char {
    (d + 48) as char
}

/// Every character of `s` is an ASCII digit.
pub open spec fn all_digits(s: Seq<char>) -> bool {
    forall|i: int| 0 <= i < s.len() ==> is_digit(#[trigger] s[i])
}

/// The number written by the digit string `s` in base ten; the empty string
/// writes zero.
pub open spec fn digits_value(s: Seq<char>) -> nat
    decreases s.len(),
{
    if s.len() == 0 {
        0
    } else {
        (digits_value(s.drop_last()) * 10 + digit_value(s.last())) as nat
    }
}

/// The shortest base-ten writing of `n`.
pub open spec fn decimal_text(n: nat) -> Seq<char>
    decreases n,
{
    if n < 10 {
        seq![digit_char(n as int)]
    } else {
        decimal_text(n / 10).push(digit_char((n % 10) as int))
    }
}

/// The base-ten writing of an integer: a minus sign in front of a negative one.
pub open spec fn signed_text(n: int) -> Seq<char> {
    if n < 0 {
        seq!['-'] + decimal_text((-n) as nat)
    } else {
        decimal_text(n as nat)
    }
}

/// Whether `c` is an ASCII digit.
pub fn is_digit_char(c: char) -> (b: bool)
    ensures
        b == is_digit(c),
{
    '0' <= c && c <= '9'
}

/// The value of the ASCII digit `c`.
pub fn value_of_digit(c: char) -> (d: u8)
    requires
        is_digit(c),
    ensures
        d as int == digit_value(c),
        d <= 9,
{
    ((c as u32) - 48) as u8
}

/// The ASCII digit for `d`.
pub fn char_of_digit(d: u8) -> (c: char)
    requires
        d <= 9,
    ensures
        c == digit_char(d as int),
        is_digit(c),
        digit_value(c) == d,
{
    (d + 48) as char
}


/// Ten to the power `e`.
pub open spec fn pow10(e: nat) -> nat
    decreases e,
{
    if e == 0 {
        1
    } else {
        10 * pow10((e - 1) as nat)
    }
}

/// The writing of `n` in exactly `width` digits, zeros in front; for
/// `n < pow10(width)` this is `n` itself, zero-padded.
pub open spec fn fixed_text(n: nat, width: nat) -> Seq<char>
    decreases width,
{
    if width == 0 {
        Seq::empty()
    } else {
        fixed_text(n / 10, (width - 1) as nat).push(digit_char((n % 10) as int))
    }
}

/// Digit characters and digit values are inverse to each other.
pub proof fn lemma_digit_char(d: int)
    requires
        0 <= d <= 9,
    ensures
        is_digit(digit_char(d)),
        digit_value(digit_char(d)) == d,
{
}

/// A shortest writing is made of digits, is not empty, and starts with a
/// zero only when it writes zero.
pub proof fn lemma_decimal_text_shape(n: nat)
    ensures
        all_digits(decimal_text(n)),
        decimal_text(n).len() >= 1,
        decimal_text(n)[0] == '0' <==> n == 0,
        n < 10 <==> decimal_text(n).len() == 1,
    decreases n,
{
    if n >= 10 {
        lemma_decimal_text_shape(n / 10);
        lemma_digit_char((n % 10) as int);
        let head = decimal_text(n / 10);
        let whole = head.push(digit_char((n % 10) as int));
        assert(whole[0] == head[0]);
        assert forall|i: int| 0 <= i < whole.len() implies is_digit(#[trigger] whole[i]) by {
            if i < head.len() {
                assert(whole[i] == head[i]);
            }
        }
    } else {
        lemma_digit_char(n as int);
    }
}

/// Reading back a shortest writing gives the number.
pub proof fn lemma_decimal_text_value(n: nat)
    ensures
        digits_value(decimal_text(n)) == n,
    decreases n,
{
    if n >= 10 {
        lemma_decimal_text_value(n / 10);
        lemma_digit_char((n % 10) as int);
        let head = decimal_text(n / 10);
        let whole = head.push(digit_char((n % 10) as int));
        assert(whole.drop_last() =~= head);
        assert(whole.last() == digit_char((n % 10) as int));
    } else {
        lemma_digit_char(n as int);
        let whole = decimal_text(n);
        assert(whole.drop_last().len() == 0);
        assert(digits_value(whole.drop_last()) == 0);
        assert(whole.last() == digit_char(n as int));
    }
}

/// A digit string without a needless leading zero is the shortest writing of
/// the number it writes.
pub proof fn lemma_digits_are_decimal_text(s: Seq<char>)
    requires
        all_digits(s),
        s.len() >= 1,
        s.len() == 1 || s[0] != '0',
    ensures
        decimal_text(digits_value(s)) == s,
    decreases s.len(),
{
    let head = s.drop_last();
    let d = digit_value(s.last());
    assert(is_digit(s.last()));
    assert(digit_char(d) == s.last());
    if s.len() == 1 {
        assert(head.len() == 0);
        assert(digits_value(head) == 0);
        assert(digits_value(s) == d);
        assert(decimal_text(digits_value(s)) =~= s);
    } else {
        assert(all_digits(head)) by {
            assert forall|i: int| 0 <= i < head.len() implies is_digit(#[trigger] head[i]) by {
                assert(head[i] == s[i]);
            }
        }
        assert(head[0] == s[0]);
        lemma_digits_are_decimal_text(head);
        lemma_leading_digit_value(head);
        let v = digits_value(head);
        assert(digits_value(s) == v * 10 + d);
        assert(v >= 1);
        assert((v * 10 + d) / 10 == v && (v * 10 + d) % 10 == d);
        assert(decimal_text(digits_value(s)) =~= s);
    }
}

/// A digit string that does not start with a zero writes a positive number.
pub proof fn lemma_leading_digit_value(s: Seq<char>)
    requires
        all_digits(s),
        s.len() >= 1,
        s[0] != '0',
    ensures
        digits_value(s) >= 1,
    decreases s.len(),
{
    assert(is_digit(s.last()));
    if s.len() > 1 {
        let head = s.drop_last();
        assert(all_digits(head)) by {
            assert forall|i: int| 0 <= i < head.len() implies is_digit(#[trigger] head[i]) by {
                assert(head[i] == s[i]);
            }
        }
        assert(head[0] == s[0]);
        lemma_leading_digit_value(head);
    } else {
        assert(s.last() == s[0]);
    }
}

/// A fixed-width writing has its width and is made of digits.
pub proof fn lemma_fixed_text_shape(n: nat, width: nat)
    ensures
        fixed_text(n, width).len() == width,
        all_digits(fixed_text(n, width)),
    decreases width,
{
    if width > 0 {
        lemma_fixed_text_shape(n / 10, (width - 1) as nat);
        lemma_digit_char((n % 10) as int);
        let head = fixed_text(n / 10, (width - 1) as nat);
        let whole = head.push(digit_char((n % 10) as int));
        assert forall|i: int| 0 <= i < whole.len() implies is_digit(#[trigger] whole[i]) by {
            if i < head.len() {
                assert(whole[i] == head[i]);
            }
        }
    }
}

/// Reading back a fixed-width writing gives the number, if it fits the width.
pub proof fn lemma_fixed_text_value(n: nat, width: nat)
    requires
        n < pow10(width),
    ensures
        digits_value(fixed_text(n, width)) == n,
    decreases width,
{
    if width > 0 {
        lemma_fixed_text_value(n / 10, (width - 1) as nat);
        lemma_digit_char((n % 10) as int);
        let head = fixed_text(n / 10, (width - 1) as nat);
        let whole = head.push(digit_char((n % 10) as int));
        assert(whole.drop_last() =~= head);
    } else {
        assert(fixed_text(n, width) =~= Seq::<char>::empty());
    }
}

/// A digit string is the fixed-width writing, in its own length, of the
/// number it writes, and that number fits the length.
pub proof fn lemma_digits_are_fixed_text(s: Seq<char>)
    requires
        all_digits(s),
    ensures
        fixed_text(digits_value(s), s.len()) == s,
        digits_value(s) < pow10(s.len()),
    decreases s.len(),
{
    if s.len() > 0 {
        let head = s.drop_last();
        let d = digit_value(s.last());
        assert(is_digit(s.last()));
        assert(digit_char(d) == s.last());
        assert(all_digits(head)) by {
            assert forall|i: int| 0 <= i < head.len() implies is_digit(#[trigger] head[i]) by {
                assert(head[i] == s[i]);
            }
        }
        lemma_digits_are_fixed_text(head);
        let v = digits_value(head);
        assert((v * 10 + d) / 10 == v && (v * 10 + d) % 10 == d);
        assert(fixed_text(digits_value(s), s.len()) =~= s);
    } else {
        assert(fixed_text(digits_value(s), s.len()) =~= s);
    }
}

/// Appends the shortest base-ten writing of `n`.
pub fn push_decimal(s: &mut String, n: u64)
    ensures
        final(s)@ == old(s)@ + decimal_text(n as nat),
    decreases n,
{
    if n >= 10 {
        push_decimal(s, n / 10);
    }
    s.push(char_of_digit((n % 10) as u8));
    proof {
        if n >= 10 {
            assert(final(s)@ =~= old(s)@ + decimal_text(n as nat));
        } else {
            assert(final(s)@ =~= old(s)@ + decimal_text(n as nat));
        }
    }
}

/// Appends the writing of `n` in exactly `width` digits.
pub fn push_fixed(s: &mut String, n: u64, width: u8)
    ensures
        final(s)@ == old(s)@ + fixed_text(n as nat, width as nat),
    decreases width,
{
    if width > 0 {
        push_fixed(s, n / 10, width - 1);
        s.push(char_of_digit((n % 10) as u8));
        proof {
            assert(final(s)@ =~= old(s)@ + fixed_text(n as nat, width as nat));
        }
    } else {
        proof {
            assert(final(s)@ =~= old(s)@ + fixed_text(n as nat, width as nat));
        }
    }
}


/// Reading one more digit multiplies by ten and adds the digit.
pub proof fn lemma_digits_value_step(s: Seq<char>, k: int)
    requires
        0 <= k < s.len(),
        is_digit(s[k]),
    ensures
        digits_value(s.take(k + 1)) == digits_value(s.take(k)) * 10 + digit_value(s[k]),
{
    assert(s.take(k + 1).drop_last() =~= s.take(k));
    assert(s.take(k + 1).last() == s[k]);
}

/// A front part of a digit string writes no more than the whole.
pub proof fn lemma_digits_prefix_le(s: Seq<char>, k: int)
    requires
        all_digits(s),
        0 <= k <= s.len(),
    ensures
        digits_value(s.take(k)) <= digits_value(s),
    decreases s.len(),
{
    if k == s.len() {
        assert(s.take(k) =~= s);
    } else {
        let head = s.drop_last();
        assert(is_digit(s.last()));
        assert(all_digits(head)) by {
            assert forall|i: int| 0 <= i < head.len() implies is_digit(#[trigger] head[i]) by {
                assert(head[i] == s[i]);
            }
        }
        lemma_digits_prefix_le(head, k);
        assert(head.take(k) =~= s.take(k));
    }
}

/// Reads the characters of `chars` from `from` up to `to` as one base-ten
/// number. The answer is `None` when one of them is no digit or the number
/// does not fit; an empty stretch reads as zero.
pub fn read_digits(chars: &Vec<char>, from: usize, to: usize) -> (r: Option<u64>)
    requires
        from <= to <= chars.len(),
    ensures
        r is Some <==> all_digits(chars@.subrange(from as int, to as int)) && digits_value(
            chars@.subrange(from as int, to as int),
        ) <= u64::MAX,
        r matches Some(v) ==> v == digits_value(chars@.subrange(from as int, to as int)),
{
    let ghost run = chars@.subrange(from as int, to as int);
    let mut acc: u64 = 0;
    let mut i: usize = from;
    proof {
        assert(run.take(0).len() == 0);
    }
    while i < to
        invariant
            from <= i <= to <= chars.len(),
            run == chars@.subrange(from as int, to as int),
            all_digits(run.take(i - from)),
            acc == digits_value(run.take(i - from)),
        decreases to - i,
    {
        let c = chars[i];
        proof {
            assert(run[i - from] == c);
        }
        if !is_digit_char(c) {
            return None;
        }
        let d = value_of_digit(c);
        proof {
            lemma_digits_value_step(run, i - from);
            assert(all_digits(run.take(i - from + 1))) by {
                assert forall|j: int| 0 <= j < i - from + 1 implies is_digit(
                    #[trigger] run.take(i - from + 1)[j],
                ) by {
                    if j < i - from {
                        assert(run.take(i - from)[j] == run[j]);
                    }
                }
            }
            if all_digits(run) {
                lemma_digits_prefix_le(run, i - from + 1);
            }
        }
        let scaled = match acc.checked_mul(10) {
            Some(x) => x,
            None => {
                return None;
            },
        };
        acc = match scaled.checked_add(d as u64) {
            Some(x) => x,
            None => {
                return None;
            },
        };
        i = i + 1;
    }
    proof {
        assert(run.take(to - from) =~= run);
    }
    Some(acc)
}

/// The dictionary order of texts by the code points of their characters: a
/// text may stand before every text that it starts, and otherwise the first
/// place where two texts differ decides.
pub open spec fn text_not_after(a: Seq<char>, b: Seq<char>) -> bool
    decreases a.len(),
{
    if a.len() == 0 {
        true
    } else if b.len() == 0 {
        false
    } else if a[0] != b[0] {
        a[0] < b[0]
    } else {
        text_not_after(a.skip(1), b.skip(1))
    }
}

/// Of two texts one may stand before the other.
pub proof fn lemma_text_order_total(a: Seq<char>, b: Seq<char>)
    ensures
        text_not_after(a, b) || text_not_after(b, a),
    decreases a.len(),
{
    if a.len() > 0 && b.len() > 0 && a[0] == b[0] {
        lemma_text_order_total(a.skip(1), b.skip(1));
    }
}

/// The dictionary order is transitive.
pub proof fn lemma_text_order_transitive(a: Seq<char>, b: Seq<char>, c: Seq<char>)
    requires
        text_not_after(a, b),
        text_not_after(b, c),
    ensures
        text_not_after(a, c),
    decreases a.len(),
{
    if a.len() > 0 && b.len() > 0 && c.len() > 0 && a[0] == b[0] && b[0] == c[0] {
        lemma_text_order_transitive(a.skip(1), b.skip(1), c.skip(1));
    }
}

/// Whether `a` may stand before `b` in the dictionary order.
pub fn text_comes_not_after(a: &str, b: &str) -> (r: bool)
    ensures
        r == text_not_after(a@, b@),
{
    let x = chars_of(a);
    let y = chars_of(b);
    let mut i: usize = 0;
    proof {
        assert(x@.skip(0) =~= x@);
        assert(y@.skip(0) =~= y@);
    }
    while i < x.len() && i < y.len() && x[i] == y[i]
        invariant
            0 <= i <= x.len(),
            i <= y.len(),
            text_not_after(x@, y@) == text_not_after(x@.skip(i as int), y@.skip(i as int)),
        decreases x.len() - i,
    {
        proof {
            assert(x@.skip(i as int)[0] == x@[i as int]);
            assert(y@.skip(i as int)[0] == y@[i as int]);
            assert(x@.skip(i as int).skip(1) =~= x@.skip(i + 1));
            assert(y@.skip(i as int).skip(1) =~= y@.skip(i + 1));
        }
        i = i + 1;
    }
    if i >= x.len() {
        true
    } else if i >= y.len() {
        false
    } else {
        proof {
            assert(x@.skip(i as int)[0] == x@[i as int]);
            assert(y@.skip(i as int)[0] == y@[i as int]);
        }
        x[i] < y[i]
    }
}

/// `needle` stands in `hay` at place `at`.
pub open spec fn occurs_at(needle: Seq<char>, hay: Seq<char>, at: int) -> bool {
    0 <= at && at + needle.len() <= hay.len() && hay.subrange(at, at + needle.len()) == needle
}

/// `needle` stands somewhere in `hay`, as a run of characters one after
/// another.
pub open spec fn occurs_in(needle: Seq<char>, hay: Seq<char>) -> bool {
    exists|at: int| occurs_at(needle, hay, at)
}

/// Whether `needle` stands in `hay` at place `at`.
fn matches_at(needle: &Vec<char>, hay: &Vec<char>, at: usize) -> (b: bool)
    requires
        at + needle.len() <= hay.len(),
    ensures
        b == occurs_at(needle@, hay@, at as int),
{
    let mut k: usize = 0;
    while k < needle.len()
        invariant
            0 <= k <= needle.len(),
            at + needle.len() <= hay.len(),
            forall|j: int| 0 <= j < k ==> hay@[at + j] == needle@[j],
        decreases needle.len() - k,
    {
        if hay[at + k] != needle[k] {
            proof {
                assert(hay@.subrange(at as int, at + needle.len())[k as int] == hay@[at + k]);
            }
            return false;
        }
        k = k + 1;
    }
    proof {
        assert(hay@.subrange(at as int, at + needle.len()) =~= needle@);
    }
    true
}

/// Whether `needle` stands somewhere in `hay`.
pub fn contains_text(hay: &str, needle: &str) -> (b: bool)
    ensures
        b == occurs_in(needle@, hay@),
{
    let h = chars_of(hay);
    let n = chars_of(needle);
    if n.len() > h.len() {
        return false;
    }
    let last: usize = h.len() - n.len();
    let mut at: usize = 0;
    loop
        invariant
            h@ == hay@,
            n@ == needle@,
            0 <= at <= last,
            last == h.len() - n.len(),
            forall|j: int| 0 <= j < at ==> !occurs_at(n@, h@, j),
        decreases last - at,
    {
        if matches_at(&n, &h, at) {
            return true;
        }
        if at == last {
            return false;
        }
        at = at + 1;
    }
}

/// Whether two texts are the same.
pub fn same_text(a: &str, b: &str) -> (r: bool)
    ensures
        r == (a@ == b@),
{
    let x = chars_of(a);
    let y = chars_of(b);
    if x.len() != y.len() {
        return false;
    }
    let mut i: usize = 0;
    while i < x.len()
        invariant
            x@ == a@,
            y@ == b@,
            0 <= i <= x.len(),
            x.len() == y.len(),
            forall|j: int| 0 <= j < i ==> x@[j] == y@[j],
        decreases x.len() - i,
    {
        if x[i] != y[i] {
            return false;
        }
        i = i + 1;
    }
    proof {
        assert(x@ =~= y@);
    }
    true
}

/// Whether a character is white space, as `char::is_whitespace` of the
/// standard library decides it.
pub uninterp spec fn is_white_space(c: char) -> bool;

/// `char::is_whitespace` of the standard library. What it decides is given
/// a name; nothing more is claimed of it.
pub assume_specification[ char::is_whitespace ](c: char) -> (b: bool)
    ensures
        b == is_white_space(c),
;

/// For each character of `s`, whether it is white space.
pub open spec fn white_space_marks(s: Seq<char>) -> Seq<bool> {
    Seq::new(s.len(), |i: int| is_white_space(s[i]))
}

/// How many marks at the front of `marks`, one after another, are set.
pub open spec fn leading_set(marks: Seq<bool>) -> int
    decreases marks.len(),
{
    if marks.len() == 0 || !marks[0] {
        0
    } else {
        1 + leading_set(marks.skip(1))
    }
}

/// How many marks at the end of `marks`, one before another, are set.
pub open spec fn trailing_set(marks: Seq<bool>) -> int
    decreases marks.len(),
{
    if marks.len() == 0 || !marks.last() {
        0
    } else {
        1 + trailing_set(marks.drop_last())
    }
}

/// The place where the stretch starts that is left of `marks` when the set
/// marks at its front are dropped.
pub open spec fn stretch_start(marks: Seq<bool>) -> int {
    leading_set(marks)
}

/// The place where the stretch ends that is left of `marks` when the set
/// marks at its front, and then those at its end, are dropped.
pub open spec fn stretch_end(marks: Seq<bool>) -> int {
    marks.len() - trailing_set(marks.skip(leading_set(marks)))
}

/// `s` without the white space at its start and at its end.
pub open spec fn trimmed(s: Seq<char>) -> Seq<char> {
    s.subrange(stretch_start(white_space_marks(s)), stretch_end(white_space_marks(s)))
}

/// Finds the stretch that is left of `marks` when the set marks at its
/// front and at its end are dropped: where it starts and where it ends.
pub fn kept_stretch(marks: &Vec<bool>) -> (r: (usize, usize))
    ensures
        r.0 == stretch_start(marks@),
        r.1 == stretch_end(marks@),
        r.0 <= r.1 <= marks.len(),
{
    let ghost m = marks@;
    let mut lo: usize = 0;
    proof {
        assert(m.skip(0) =~= m);
    }
    while lo < marks.len() && marks[lo]
        invariant
            m == marks@,
            0 <= lo <= m.len(),
            leading_set(m) == lo + leading_set(m.skip(lo as int)),
        decreases m.len() - lo,
    {
        proof {
            assert(m.skip(lo as int)[0] == m[lo as int]);
            assert(m.skip(lo as int).skip(1) =~= m.skip(lo + 1));
        }
        lo = lo + 1;
    }
    proof {
        if lo < m.len() {
            assert(m.skip(lo as int)[0] == m[lo as int]);
        }
    }
    let ghost rest = m.skip(lo as int);
    let mut hi: usize = marks.len();
    proof {
        assert(m.subrange(lo as int, hi as int) =~= rest);
    }
    while hi > lo && marks[hi - 1]
        invariant
            m == marks@,
            rest == m.skip(lo as int),
            lo <= hi <= m.len(),
            trailing_set(rest) == (m.len() - hi) + trailing_set(m.subrange(lo as int, hi as int)),
        decreases hi - lo,
    {
        proof {
            let here = m.subrange(lo as int, hi as int);
            assert(here.last() == m[hi - 1]);
            assert(here.drop_last() =~= m.subrange(lo as int, hi - 1));
        }
        hi = hi - 1;
    }
    proof {
        let here = m.subrange(lo as int, hi as int);
        if hi > lo {
            assert(here.last() == m[hi - 1]);
        }
    }
    (lo, hi)
}

/// The characters of `chars` from `from` up to `to`, without the white
/// space at either end, as a text.
pub fn trimmed_text(chars: &Vec<char>, from: usize, to: usize) -> (r: String)
    requires
        from <= to <= chars.len(),
    ensures
        r@ == trimmed(chars@.subrange(from as int, to as int)),
{
    let ghost whole = chars@.subrange(from as int, to as int);
    let mut marks: Vec<bool> = Vec::new();
    let mut k: usize = from;
    while k < to
        invariant
            from <= k <= to <= chars.len(),
            whole == chars@.subrange(from as int, to as int),
            marks@.len() == k - from,
            forall|j: int| 0 <= j < k - from ==> marks@[j] == is_white_space(whole[j]),
        decreases to - k,
    {
        proof {
            assert(whole[k - from] == chars@[k as int]);
        }
        marks.push(chars[k].is_whitespace());
        k = k + 1;
    }
    proof {
        assert(marks@ =~= white_space_marks(whole));
    }
    let (lo, hi) = kept_stretch(&marks);
    let mut r = String::new();
    let mut i: usize = lo;
    while i < hi
        invariant
            from <= to <= chars.len(),
            whole == chars@.subrange(from as int, to as int),
            lo <= i <= hi <= to - from,
            r@ == whole.subrange(lo as int, i as int),
        decreases hi - i,
    {
        proof {
            assert(whole[i as int] == chars@[from + i]);
        }
        r.push(chars[from + i]);
        proof {
            assert(r@ =~= whole.subrange(lo as int, i + 1));
        }
        i = i + 1;
    }
    r
}

} // verus!
