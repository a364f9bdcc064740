//! Calendar dates and their text form, `YYYY-MM-DD`.
//!
//! A date is a day of the proleptic Gregorian calendar in the years 0 to
//! 9999, without a time of day. Its text form has exactly ten characters:
//! four digits of the year, a hyphen, two digits of the month, a hyphen and
//! two digits of the day. No other text stands for a date.

use vstd::arithmetic::div_mod::{
    lemma_div_denominator, lemma_fundamental_div_mod, lemma_fundamental_div_mod_converse,
    lemma_mod_bound,
};
use vstd::prelude::*;
use vstd::string::*;

verus! {

/// A day of the calendar as three numbers: what a [`Date`] stands for.
pub struct DateView {
    pub year: int,
    pub month: int,
    pub day: int,
}

/// The day written by three numbers, whether or not there is such a day.
pub open spec fn numbers(year: int, month: int, day: int) -> DateView {
    DateView { year, month, day }
}

/// Whether `year` has a 29th of February.
pub open spec fn is_leap_year(year: int) -> bool {
    year % 4 == 0 && (year % 100 != 0 || year % 400 == 0)
}

/// The number of days of `month` in `year`.
pub open spec fn days_in_month(year: int, month: int) -> int {
    if month == 2 {
        if is_leap_year(year) {
            29
        } else {
            28
        }
    } else if month == 4 || month == 6 || month == 9 || month == 11 {
        30
    } else {
        31
    }
}

/// The character that writes the digit `n`.
pub open spec fn digit_char(n: int) -> char {
    ('0' as int + n) as char
}

/// Whether `c` is one of the ten digits.
pub open spec fn is_digit(c: char) -> bool {
    '0' <= c <= '9'
}

/// The number that the digit `c` writes.
pub open spec fn digit_value(c: char) -> int {
    c as int - '0' as int
}

impl DateView {
    /// A day that exists: a year of at most four digits, a month of that
    /// year and a day of that month.
    pub open spec fn valid(self) -> bool {
        &&& 0 <= self.year <= 9999
        &&& 1 <= self.month <= 12
        &&& 1 <= self.day <= days_in_month(self.year, self.month)
    }

    /// `self` is an earlier day than `other`.
    pub open spec fn before(self, other: DateView) -> bool {
        ||| self.year < other.year
        ||| self.year == other.year && self.month < other.month
        ||| self.year == other.year && self.month == other.month && self.day < other.day
    }

    /// `self` is neither before `start` nor after `end`: both bounds belong
    /// to the range.
    pub open spec fn within(self, start: DateView, end: DateView) -> bool {
        !self.before(start) && !end.before(self)
    }

    /// The day that follows `self`.
    pub open spec fn next(self) -> DateView {
        if self.day < days_in_month(self.year, self.month) {
            DateView { year: self.year, month: self.month, day: self.day + 1 }
        } else if self.month < 12 {
            DateView { year: self.year, month: self.month + 1, day: 1 }
        } else {
            DateView { year: self.year + 1, month: 1, day: 1 }
        }
    }

    /// The text form of a date, `YYYY-MM-DD`.
    pub open spec fn text(self) -> Seq<char> {
        seq![
            digit_char(self.year / 1000),
            digit_char(self.year / 100 % 10),
            digit_char(self.year / 10 % 10),
            digit_char(self.year % 10),
            '-',
            digit_char(self.month / 10),
            digit_char(self.month % 10),
            '-',
            digit_char(self.day / 10),
            digit_char(self.day % 10),
        ]
    }
}

/// Whether `text` has the shape `DDDD-DD-DD`, each `D` a digit.
pub open spec fn has_date_shape(text: Seq<char>) -> bool {
    &&& text.len() == 10
    &&& is_digit(text[0])
    &&& is_digit(text[1])
    &&& is_digit(text[2])
    &&& is_digit(text[3])
    &&& text[4] == '-'
    &&& is_digit(text[5])
    &&& is_digit(text[6])
    &&& text[7] == '-'
    &&& is_digit(text[8])
    &&& is_digit(text[9])
}

/// The three numbers that a text of the shape `DDDD-DD-DD` writes.
pub open spec fn numbers_of_text(text: Seq<char>) -> DateView {
    DateView {
        year: 1000 * digit_value(text[0]) + 100 * digit_value(text[1]) + 10 * digit_value(text[2])
            + digit_value(text[3]),
        month: 10 * digit_value(text[5]) + digit_value(text[6]),
        day: 10 * digit_value(text[8]) + digit_value(text[9]),
    }
}

/// The date that `text` stands for, if it stands for one: the text must
/// have the shape `DDDD-DD-DD` and name a day that exists.
pub open spec fn date_of_text(text: Seq<char>) -> Option<DateView> {
    if has_date_shape(text) && numbers_of_text(text).valid() {
        Some(numbers_of_text(text))
    } else {
        None
    }
}

/// A calendar date without a time of day. Every value is a day that exists.
#[derive(Clone, Copy, Debug, PartialEq, Eq, Structural)]
pub struct Date {
    year: i32,
    month: u8,
    day: u8,
}

impl View for Date {
    type V = DateView;

    closed spec fn view(&self) -> DateView {
        DateView { year: self.year as int, month: self.month as int, day: self.day as int }
    }
}

impl Date {
    /// Holds of every `Date`: it is a day that exists.
    #[verifier::type_invariant]
    pub open spec fn well_formed(self) -> bool {
        self@.valid()
    }

    /// The date with the given year, month (1 to 12) and day of the month,
    /// if there is such a day.
    pub fn new(year: i32, month: u8, day: u8) -> (date: Option<Date>)
        ensures
            date is Some <==> numbers(year as int, month as int, day as int).valid(),
            date matches Some(d) ==> d@ == numbers(year as int, month as int, day as int),
    {
        if year < 0 || year > 9999 || month < 1 || month > 12 || day < 1 {
            return None;
        }
        let leap = year % 4 == 0 && (year % 100 != 0 || year % 400 == 0);
        let length: u8 = if month == 2 {
            if leap {
                29
            } else {
                28
            }
        } else if month == 4 || month == 6 || month == 9 || month == 11 {
            30
        } else {
            31
        };
        if day > length {
            return None;
        }
        Some(Date { year, month, day })
    }

    /// The year, 0 to 9999.
    pub fn year(&self) -> (year: i32)
        ensures
            year == self@.year,
    {
        self.year
    }

    /// The month of the year, 1 to 12.
    pub fn month(&self) -> (month: u8)
        ensures
            month == self@.month,
    {
        self.month
    }

    /// The day of the month, 1 to 31.
    pub fn day(&self) -> (day: u8)
        ensures
            day == self@.day,
    {
        self.day
    }

    /// Whether this date is an earlier day than `other`.
    pub fn is_before(&self, other: &Date) -> (earlier: bool)
        ensures
            earlier == self@.before(other@),
    {
        self.year < other.year || (self.year == other.year && (self.month < other.month || (
        self.month == other.month && self.day < other.day)))
    }

    /// Whether this date lies in the range from `start` to `end`, both
    /// bounds included.
    pub fn is_within(&self, start: &Date, end: &Date) -> (inside: bool)
        ensures
            inside == self@.within(start@, end@),
    {
        !self.is_before(start) && !end.is_before(self)
    }

    /// Reads a date from its text form. Any text but the ten characters
    /// `YYYY-MM-DD` of a day that exists gives `None`.
    pub fn parse(text: &str) -> (date: Option<Date>)
        ensures
            date is Some <==> date_of_text(text@) is Some,
            date matches Some(d) ==> Some(d@) == date_of_text(text@),
    {
        if text.unicode_len() != 10 {
            return None;
        }
        let y3 = digit_at(text, 0);
        let y2 = digit_at(text, 1);
        let y1 = digit_at(text, 2);
        let y0 = digit_at(text, 3);
        let m1 = digit_at(text, 5);
        let m0 = digit_at(text, 6);
        let d1 = digit_at(text, 8);
        let d0 = digit_at(text, 9);
        if text.get_char(4) != '-' || text.get_char(7) != '-' {
            return None;
        }
        match (y3, y2, y1, y0, m1, m0, d1, d0) {
            (Some(y3), Some(y2), Some(y1), Some(y0), Some(m1), Some(m0), Some(d1), Some(d0)) => {
                let year: i32 = 1000 * (y3 as i32) + 100 * (y2 as i32) + 10 * (y1 as i32) + (
                y0 as i32);
                Date::new(year, 10 * m1 + m0, 10 * d1 + d0)
            },
            _ => None,
        }
    }

    /// Writes the date in its text form, `YYYY-MM-DD`.
    pub fn format(&self) -> (text: String)
        ensures
            text@ == self@.text(),
    {
        proof {
            use_type_invariant(self);
        }
        let year: u16 = self.year as u16;
        let mut text = String::new();
        text.append(digit_text((year / 1000) as u8));
        text.append(digit_text((year / 100 % 10) as u8));
        text.append(digit_text((year / 10 % 10) as u8));
        text.append(digit_text((year % 10) as u8));
        text.append("-");
        text.append(digit_text(self.month / 10));
        text.append(digit_text(self.month % 10));
        text.append("-");
        text.append(digit_text(self.day / 10));
        text.append(digit_text(self.day % 10));
        proof {
            reveal_strlit("-");
            assert(text@ =~= self@.text());
        }
        text
    }
}

/// The number written by the character of `text` at `index`, if that
/// character is a digit.
fn digit_at(text: &str, index: usize) -> (digit: Option<u8>)
    requires
        index < text@.len(),
    ensures
        digit is Some <==> is_digit(text@[index as int]),
        digit matches Some(d) ==> d == digit_value(text@[index as int]) && d <= 9,
{
    let c = text.get_char(index);
    if c >= '0' && c <= '9' {
        Some((c as u32 - '0' as u32) as u8)
    } else {
        None
    }
}

/// The one-character text of a digit.
fn digit_text(digit: u8) -> (text: &'static str)
    requires
        digit <= 9,
    ensures
        text@ == seq![digit_char(digit as int)],
{
    proof {
        reveal_strlit("0");
        reveal_strlit("1");
        reveal_strlit("2");
        reveal_strlit("3");
        reveal_strlit("4");
        reveal_strlit("5");
        reveal_strlit("6");
        reveal_strlit("7");
        reveal_strlit("8");
        reveal_strlit("9");
    }
    let text = match digit {
        0 => "0",
        1 => "1",
        2 => "2",
        3 => "3",
        4 => "4",
        5 => "5",
        6 => "6",
        7 => "7",
        8 => "8",
        _ => "9",
    };
    assert(text@ =~= seq![digit_char(digit as int)]);
    text
}

/// A digit's character writes that digit, and a digit character is the
/// character of the digit it writes.
proof fn lemma_digit_chars(n: int, c: char)
    ensures
        0 <= n <= 9 ==> is_digit(digit_char(n)) && digit_value(digit_char(n)) == n,
        is_digit(c) ==> 0 <= digit_value(c) <= 9 && digit_char(digit_value(c)) == c,
{
}

/// The two digits of a number below a hundred make up that number.
proof fn lemma_two_digits(n: int)
    requires
        0 <= n <= 99,
    ensures
        0 <= n / 10 <= 9,
        0 <= n % 10 <= 9,
        10 * (n / 10) + n % 10 == n,
{
    lemma_fundamental_div_mod(n, 10);
    lemma_mod_bound(n, 10);
}

/// The four digits of a number below ten thousand make up that number.
proof fn lemma_four_digits(n: int)
    requires
        0 <= n <= 9999,
    ensures
        0 <= n / 1000 <= 9,
        0 <= n / 100 % 10 <= 9,
        0 <= n / 10 % 10 <= 9,
        0 <= n % 10 <= 9,
        1000 * (n / 1000) + 100 * (n / 100 % 10) + 10 * (n / 10 % 10) + n % 10 == n,
{
    let tens = n / 10;
    let hundreds = n / 100;
    let thousands = n / 1000;
    lemma_fundamental_div_mod(n, 10);
    lemma_mod_bound(n, 10);
    lemma_fundamental_div_mod(tens, 10);
    lemma_mod_bound(tens, 10);
    lemma_fundamental_div_mod(hundreds, 10);
    lemma_mod_bound(hundreds, 10);
    assert(tens / 10 == hundreds) by {
        lemma_div_denominator(n, 10, 10);
    }
    assert(hundreds / 10 == thousands) by {
        lemma_div_denominator(n, 100, 10);
    }
    assert(tens == 10 * hundreds + tens % 10);
    assert(hundreds == 10 * thousands + hundreds % 10);
    assert(n == 10 * tens + n % 10);
}

/// A number made up of two digits has those digits.
proof fn lemma_number_of_two_digits(a: int, b: int)
    requires
        0 <= a <= 9,
        0 <= b <= 9,
    ensures
        (10 * a + b) / 10 == a,
        (10 * a + b) % 10 == b,
{
    lemma_fundamental_div_mod_converse(10 * a + b, 10, a, b);
}

/// A number made up of four digits has those digits.
proof fn lemma_number_of_four_digits(a: int, b: int, c: int, d: int)
    requires
        0 <= a <= 9,
        0 <= b <= 9,
        0 <= c <= 9,
        0 <= d <= 9,
    ensures
        (1000 * a + 100 * b + 10 * c + d) / 1000 == a,
        (1000 * a + 100 * b + 10 * c + d) / 100 % 10 == b,
        (1000 * a + 100 * b + 10 * c + d) / 10 % 10 == c,
        (1000 * a + 100 * b + 10 * c + d) % 10 == d,
{
    let n = 1000 * a + 100 * b + 10 * c + d;
    let tens = 100 * a + 10 * b + c;
    let hundreds = 10 * a + b;
    lemma_fundamental_div_mod_converse(n, 10, tens, d);
    lemma_fundamental_div_mod_converse(tens, 10, hundreds, c);
    lemma_fundamental_div_mod_converse(hundreds, 10, a, b);
    assert(n / 100 == hundreds) by {
        lemma_div_denominator(n, 10, 10);
    }
    assert(n / 1000 == a) by {
        lemma_div_denominator(n, 100, 10);
    }
}

/// The text form can be read back: reading the text of a day that exists
/// gives that day.
pub proof fn lemma_text_reads_back(date: DateView)
    requires
        date.valid(),
    ensures
        date_of_text(date.text()) == Some(date),
{
    let text = date.text();
    lemma_four_digits(date.year);
    lemma_two_digits(date.month);
    lemma_two_digits(date.day);
    lemma_digit_chars(date.year / 1000, '0');
    lemma_digit_chars(date.year / 100 % 10, '0');
    lemma_digit_chars(date.year / 10 % 10, '0');
    lemma_digit_chars(date.year % 10, '0');
    lemma_digit_chars(date.month / 10, '0');
    lemma_digit_chars(date.month % 10, '0');
    lemma_digit_chars(date.day / 10, '0');
    lemma_digit_chars(date.day % 10, '0');
    assert(has_date_shape(text));
    assert(numbers_of_text(text).year == date.year);
    assert(numbers_of_text(text).month == date.month);
    assert(numbers_of_text(text).day == date.day);
}

/// Reading is the inverse of writing: a text that stands for a date is the
/// text form of that date, and the date is a day that exists.
pub proof fn lemma_read_text_is_text_form(text: Seq<char>)
    requires
        date_of_text(text) is Some,
    ensures
        date_of_text(text)->0.valid(),
        date_of_text(text)->0.text() == text,
{
    let date = date_of_text(text)->0;
    lemma_digit_chars(0, text[0]);
    lemma_digit_chars(0, text[1]);
    lemma_digit_chars(0, text[2]);
    lemma_digit_chars(0, text[3]);
    lemma_digit_chars(0, text[5]);
    lemma_digit_chars(0, text[6]);
    lemma_digit_chars(0, text[8]);
    lemma_digit_chars(0, text[9]);
    lemma_number_of_four_digits(
        digit_value(text[0]),
        digit_value(text[1]),
        digit_value(text[2]),
        digit_value(text[3]),
    );
    lemma_number_of_two_digits(digit_value(text[5]), digit_value(text[6]));
    lemma_number_of_two_digits(digit_value(text[8]), digit_value(text[9]));
    assert(date.text() =~= text);
}

/// `before` orders the days: no day is before itself, the order passes
/// along a chain, and of two different days one is before the other.
pub proof fn lemma_before_is_strict_total_order(a: DateView, b: DateView, c: DateView)
    ensures
        !a.before(a),
        a.before(b) && b.before(c) ==> a.before(c),
        a.before(b) || a == b || b.before(a),
        !(a.before(b) && b.before(a)),
{
}

/// The following day is the next one: it is later, and no day lies between
/// the two. It exists but for the last day of the year 9999, which has no
/// following day.
pub proof fn lemma_next_is_the_following_day(date: DateView, other: DateView)
    requires
        date.valid(),
    ensures
        date.before(date.next()),
        date != (DateView { year: 9999, month: 12, day: 31 }) ==> date.next().valid(),
        other.valid() ==> !(date.before(other) && other.before(date.next())),
{
}

} // verus!
