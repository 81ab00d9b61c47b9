use vstd::prelude::*;

verus! {

/// A calendar date held as plain year / month / day fields.
///
/// Timestamps only ever reach the engine as calendar dates: the finalization
/// rule compares the day a rate was recorded against the last day of a month,
/// so nothing finer than a date is needed.
#[derive(Clone, Copy, PartialEq, Eq, Structural, Debug)]
pub struct Date {
    pub year: i32,
    pub month: u8,
    pub day: u8,
}

pub open spec fn is_leap_year(year: int) -> bool {
    (year % 4 == 0 && year % 100 != 0) || year % 400 == 0
}

pub open spec fn spec_days_in_month(year: int, month: int) -> int {
    if month == 2 {
        if is_leap_year(year) {
            29
        } else {
            28
        }
    } else if month == 4 || month == 6 || month == 9 || month == 11 {
        30
    } else {
        31
    }
}

impl Date {
    /// A well-formed date: a positive year and a day that exists in its month.
    pub open spec fn wf(self) -> bool {
        &&& self.year >= 1
        &&& 1 <= self.month <= 12
        &&& 1 <= self.day <= spec_days_in_month(self.year as int, self.month as int)
    }
}

/// Strict calendar order: `a` lies before `b`.
pub open spec fn date_before(a: Date, b: Date) -> bool {
    ||| a.year < b.year
    ||| (a.year == b.year && a.month < b.month)
    ||| (a.year == b.year && a.month == b.month && a.day < b.day)
}

pub fn leap_year(year: i32) -> (r: bool)
    requires
        year >= 1,
    ensures
        r == is_leap_year(year as int),
{
    (year % 4 == 0 && year % 100 != 0) || year % 400 == 0
}

pub fn days_in_month(year: i32, month: u8) -> (d: u8)
    requires
        year >= 1,
        1 <= month <= 12,
    ensures
        d == spec_days_in_month(year as int, month as int),
{
    if month == 2 {
        if leap_year(year) {
            29
        } else {
            28
        }
    } else if month == 4 || month == 6 || month == 9 || month == 11 {
        30
    } else {
        31
    }
}

/// Whether `a` lies strictly before `b` in calendar order.
pub fn date_lt(a: &Date, b: &Date) -> (r: bool)
    ensures
        r == date_before(*a, *b),
{
    if a.year != b.year {
        a.year < b.year
    } else if a.month != b.month {
        a.month < b.month
    } else {
        a.day < b.day
    }
}

pub open spec fn is_digit_byte(b: u8) -> bool {
    48 <= b <= 57
}

pub open spec fn digit_val(b: u8) -> int {
    b - 48
}

/// The shape of a provider date: exactly `YYYY-MM-DD`, all digits ASCII.
pub open spec fn date_bytes_shaped(s: Seq<u8>) -> bool {
    &&& s.len() == 10
    &&& s[4] == 45
    &&& s[7] == 45
    &&& is_digit_byte(s[0]) && is_digit_byte(s[1]) && is_digit_byte(s[2]) && is_digit_byte(s[3])
    &&& is_digit_byte(s[5]) && is_digit_byte(s[6])
    &&& is_digit_byte(s[8]) && is_digit_byte(s[9])
}

pub open spec fn parsed_year(s: Seq<u8>) -> int {
    1000 * digit_val(s[0]) + 100 * digit_val(s[1]) + 10 * digit_val(s[2]) + digit_val(s[3])
}

pub open spec fn parsed_month(s: Seq<u8>) -> int {
    10 * digit_val(s[5]) + digit_val(s[6])
}

pub open spec fn parsed_day(s: Seq<u8>) -> int {
    10 * digit_val(s[8]) + digit_val(s[9])
}

/// What a provider date string denotes: a well-formed calendar date, or
/// nothing when the bytes are not a `YYYY-MM-DD` date that exists.
pub open spec fn spec_parse_date(s: Seq<u8>) -> Option<Date> {
    if date_bytes_shaped(s) {
        let d = Date {
            year: parsed_year(s) as i32,
            month: parsed_month(s) as u8,
            day: parsed_day(s) as u8,
        };
        if d.wf() {
            Some(d)
        } else {
            None
        }
    } else {
        None
    }
}

fn digit_at(s: &[u8], i: usize) -> (r: Option<u8>)
    requires
        i < s@.len(),
    ensures
        r is Some <==> is_digit_byte(s@[i as int]),
        r is Some ==> r->0 == digit_val(s@[i as int]),
{
    let b = s[i];
    if 48 <= b && b <= 57 {
        Some(b - 48)
    } else {
        None
    }
}

/// Parses a provider date given as raw bytes. Rejects everything that is not
/// a well-formed `YYYY-MM-DD` calendar date.
pub fn parse_date(s: &[u8]) -> (r: Option<Date>)
    ensures
        r == spec_parse_date(s@),
{
    if s.len() != 10 {
        return None;
    }
    if s[4] != 45 || s[7] != 45 {
        return None;
    }
    let (y0, y1, y2, y3) = match (digit_at(s, 0), digit_at(s, 1), digit_at(s, 2), digit_at(s, 3)) {
        (Some(a), Some(b), Some(c), Some(d)) => (a, b, c, d),
        _ => {
            return None;
        },
    };
    let (m0, m1) = match (digit_at(s, 5), digit_at(s, 6)) {
        (Some(a), Some(b)) => (a, b),
        _ => {
            return None;
        },
    };
    let (d0, d1) = match (digit_at(s, 8), digit_at(s, 9)) {
        (Some(a), Some(b)) => (a, b),
        _ => {
            return None;
        },
    };
    let year: i32 = 1000 * (y0 as i32) + 100 * (y1 as i32) + 10 * (y2 as i32) + (y3 as i32);
    let month: u8 = 10 * m0 + m1;
    let day: u8 = 10 * d0 + d1;
    if year < 1 || month < 1 || month > 12 || day < 1 {
        return None;
    }
    if day > days_in_month(year, month) {
        return None;
    }
    Some(Date { year, month, day })
}

} // verus!
