//! Calendar dates, their ordering, and the `dd-mm-yyyy` text form used at
//! every persisted boundary.

use vstd::prelude::*;
use crate::text::{digit_val, is_digit};

verus! {

/// A calendar date. Field ranges are constrained by [`date_valid`]; every
/// date parsed from text satisfies it.
#[derive(Debug, Clone, Copy, PartialEq, Eq, Structural, Hash)]
pub struct Date {
    pub year: u16,
    pub month: u8,
    pub day: u8,
}

impl DeepView for Date {
    type V = Date;

    open spec fn deep_view(&self) -> Date {
        *self
    }
}

/// A year with an extra February day.
pub open spec fn is_leap_year(y: int) -> bool {
    y % 4 == 0 && (y % 100 != 0 || y % 400 == 0)
}

/// Number of days in the given month of the given year.
pub open spec fn spec_days_in_month(y: int, m: int) -> int {
    if m == 2 {
        if is_leap_year(y) {
            29
        } else {
            28
        }
    } else if m == 4 || m == 6 || m == 9 || m == 11 {
        30
    } else {
        31
    }
}

/// A real calendar date whose year fits the four-digit text form.
pub open spec fn date_valid(d: Date) -> bool {
    &&& d.year <= 9999
    &&& 1 <= d.month <= 12
    &&& 1 <= d.day <= spec_days_in_month(d.year as int, d.month as int)
}

/// `a` is on or before `b`: the calendar order, read off the fields from
/// the most significant down.
pub open spec fn date_le(a: Date, b: Date) -> bool {
    ||| a.year < b.year
    ||| (a.year == b.year && a.month < b.month)
    ||| (a.year == b.year && a.month == b.month && a.day <= b.day)
}

/// Number of days in the given month, as the calendar has it.
pub fn days_in_month(y: u16, m: u8) -> (r: u8)
    ensures
        r == spec_days_in_month(y as int, m as int),
{
    if m == 2 {
        if y % 4 == 0 && (y % 100 != 0 || y % 400 == 0) {
            29
        } else {
            28
        }
    } else if m == 4 || m == 6 || m == 9 || m == 11 {
        30
    } else {
        31
    }
}

impl Date {
    /// Whether `self` is on or before `other` in the calendar.
    pub fn is_on_or_before(&self, other: &Date) -> (r: bool)
        ensures
            r == date_le(*self, *other),
    {
        if self.year != other.year {
            self.year < other.year
        } else if self.month != other.month {
            self.month < other.month
        } else {
            self.day <= other.day
        }
    }

    /// Whether `self` is strictly after `other` in the calendar.
    pub fn is_after(&self, other: &Date) -> (r: bool)
        ensures
            r == !date_le(*self, *other),
    {
        !self.is_on_or_before(other)
    }
}

/// What parsing `dd-mm-yyyy` text yields: the date when the string is
/// exactly two day digits, two month digits and four year digits separated
/// by `-` and the values name a real calendar date, and nothing otherwise.
pub open spec fn spec_parse_date(s: Seq<char>) -> Option<Date> {
    if s.len() == 10 && s[2] == '-' && s[5] == '-' && is_digit(s[0]) && is_digit(s[1]) && is_digit(
        s[3],
    ) && is_digit(s[4]) && is_digit(s[6]) && is_digit(s[7]) && is_digit(s[8]) && is_digit(s[9]) {
        let day = digit_val(s[0]) * 10 + digit_val(s[1]);
        let month = digit_val(s[3]) * 10 + digit_val(s[4]);
        let year = digit_val(s[6]) * 1000 + digit_val(s[7]) * 100 + digit_val(s[8]) * 10
            + digit_val(s[9]);
        let d = Date { year: year as u16, month: month as u8, day: day as u8 };
        if date_valid(d) {
            Some(d)
        } else {
            None
        }
    } else {
        None
    }
}

/// Parses a `dd-mm-yyyy` string into a valid calendar date.
pub fn parse_date(s: &str) -> (r: Option<Date>)
    ensures
        r == spec_parse_date(s@),
        r matches Some(d) ==> date_valid(d),
{
    let len = s.unicode_len();
    if len != 10 {
        return None;
    }
    if s.get_char(2) != '-' || s.get_char(5) != '-' {
        return None;
    }
    let d0 = match crate::text::digit_of(s.get_char(0)) {
        Some(v) => v,
        None => { return None },
    };
    let d1 = match crate::text::digit_of(s.get_char(1)) {
        Some(v) => v,
        None => { return None },
    };
    let m0 = match crate::text::digit_of(s.get_char(3)) {
        Some(v) => v,
        None => { return None },
    };
    let m1 = match crate::text::digit_of(s.get_char(4)) {
        Some(v) => v,
        None => { return None },
    };
    let y0 = match crate::text::digit_of(s.get_char(6)) {
        Some(v) => v,
        None => { return None },
    };
    let y1 = match crate::text::digit_of(s.get_char(7)) {
        Some(v) => v,
        None => { return None },
    };
    let y2 = match crate::text::digit_of(s.get_char(8)) {
        Some(v) => v,
        None => { return None },
    };
    let y3 = match crate::text::digit_of(s.get_char(9)) {
        Some(v) => v,
        None => { return None },
    };
    let day = (d0 * 10 + d1) as u8;
    let month = (m0 * 10 + m1) as u8;
    let year = (y0 * 1000 + y1 * 100 + y2 * 10 + y3) as u16;
    let date = Date { year, month, day };
    if month < 1 || month > 12 {
        return None;
    }
    if day < 1 || day > days_in_month(year, month) {
        return None;
    }
    Some(date)
}

/// The digit character for a value between zero and nine.
pub open spec fn digit_char(v: int) -> char {
    ((v + 0x30) as u8) as char
}

/// The `dd-mm-yyyy` text form of a date, day and month zero-padded to two
/// digits and the year to four.
pub open spec fn spec_format_date(d: Date) -> Seq<char> {
    seq![
        digit_char(d.day as int / 10),
        digit_char(d.day as int % 10),
        '-',
        digit_char(d.month as int / 10),
        digit_char(d.month as int % 10),
        '-',
        digit_char(d.year as int / 1000),
        digit_char(d.year as int / 100 % 10),
        digit_char(d.year as int / 10 % 10),
        digit_char(d.year as int % 10),
    ]
}

/// Formats a date as `dd-mm-yyyy`.
pub fn format_date(d: &Date) -> (r: String)
    requires
        date_valid(*d),
    ensures
        r@ == spec_format_date(*d),
{
    let mut s = String::new();
    s.push(digit_char_of(d.day / 10));
    s.push(digit_char_of(d.day % 10));
    s.push('-');
    s.push(digit_char_of(d.month / 10));
    s.push(digit_char_of(d.month % 10));
    s.push('-');
    s.push(digit_char_of((d.year / 1000) as u8));
    s.push(digit_char_of((d.year / 100 % 10) as u8));
    s.push(digit_char_of((d.year / 10 % 10) as u8));
    s.push(digit_char_of((d.year % 10) as u8));
    proof {
        assert(s@ =~= spec_format_date(*d));
    }
    s
}

/// The digit character for a value between zero and nine.
pub fn digit_char_of(v: u8) -> (r: char)
    requires
        v < 10,
    ensures
        r == digit_char(v as int),
{
    (v + 0x30) as char
}

} // verus!
