//! Calendar dates of the proleptic Gregorian calendar, the values that
//! chrono's `NaiveDate` holds, as plain year, month and day.

use chrono::Datelike;
use vstd::prelude::*;

verus! {

pub open spec fn is_leap_year(y: int) -> bool {
    (y % 4 == 0 && y % 100 != 0) || y % 400 == 0
}

pub open spec fn days_in_month(y: int, m: int) -> int {
    if m == 2 {
        if is_leap_year(y) {
            29
        } else {
            28
        }
    } else if m == 4 || m == 6 || m == 9 || m == 11 {
        30
    } else {
        31
    }
}

/// A day that exists in the calendar, in the range of years that `NaiveDate`
/// covers.
pub open spec fn is_valid_ymd(y: int, m: int, d: int) -> bool {
    &&& -262143 <= y <= 262142
    &&& 1 <= m <= 12
    &&& 1 <= d <= days_in_month(y, m)
}

/// Chronological order of (year, month, day) triples.
pub open spec fn ymd_le(a: (int, int, int), b: (int, int, int)) -> bool {
    ||| a.0 < b.0
    ||| (a.0 == b.0 && a.1 < b.1)
    ||| (a.0 == b.0 && a.1 == b.1 && a.2 <= b.2)
}

/// The decimal digit for `n` (0 to 9).
pub open spec fn digit(n: int) -> char {
    (48 + n) as char
}

/// The decimal notation of `n`, without leading zeros.
pub open spec fn decimal(n: nat) -> Seq<char>
    decreases n,
{
    if n < 10 {
        seq![digit(n as int)]
    } else {
        decimal(n / 10).push(digit((n % 10) as int))
    }
}

/// The decimal notation of `n`, padded with zeros to at least `width` digits.
pub open spec fn zero_padded(n: nat, width: nat) -> Seq<char> {
    let s = decimal(n);
    if s.len() >= width {
        s
    } else {
        Seq::new((width - s.len()) as nat, |i: int| '0') + s
    }
}

/// The ISO 8601 text of a date, as `NaiveDate` displays it: `YYYY-MM-DD`,
/// with an explicit sign and at least four digits for years outside 0..=9999.
pub open spec fn date_text(ymd: (int, int, int)) -> Seq<char> {
    let (y, m, d) = ymd;
    let year = if 0 <= y <= 9999 {
        zero_padded(y as nat, 4)
    } else if y < 0 {
        seq!['-'] + zero_padded((-y) as nat, 4)
    } else {
        seq!['+'] + zero_padded(y as nat, 4)
    };
    year + seq!['-'] + zero_padded(m as nat, 2) + seq!['-'] + zero_padded(d as nat, 2)
}

/// A calendar day.
pub struct Date {
    year: i32,
    month: u32,
    day: u32,
}

impl Date {
    #[verifier::type_invariant]
    spec fn exists_in_calendar(self) -> bool {
        is_valid_ymd(self.year as int, self.month as int, self.day as int)
    }

    /// The (year, month, day) of the date.
    pub closed spec fn ymd(self) -> (int, int, int) {
        (self.year as int, self.month as int, self.day as int)
    }

    /// The day `y`-`m`-`d`, if it exists.
    pub fn new(y: i32, m: u32, d: u32) -> (r: Option<Date>)
        ensures
            r is Some <==> is_valid_ymd(y as int, m as int, d as int),
            r matches Some(date) ==> date.ymd() == (y as int, m as int, d as int),
    {
        calendar_date(y, m, d)
    }

    pub fn year(&self) -> (y: i32)
        ensures
            y as int == self.ymd().0,
    {
        self.year
    }

    pub fn month(&self) -> (m: u32)
        ensures
            m as int == self.ymd().1,
    {
        self.month
    }

    pub fn day(&self) -> (d: u32)
        ensures
            d as int == self.ymd().2,
    {
        self.day
    }

    /// `self <= other` in time.
    pub fn is_on_or_before(&self, other: &Date) -> (b: bool)
        ensures
            b == ymd_le(self.ymd(), other.ymd()),
    {
        self.year < other.year || (self.year == other.year && self.month < other.month) || (
        self.year == other.year && self.month == other.month && self.day <= other.day)
    }

    /// The date as `YYYY-MM-DD`.
    pub fn to_text(&self) -> (s: String)
        ensures
            s@ == date_text(self.ymd()),
    {
        display_date(self)
    }
}

/// `NaiveDate::from_ymd_opt`: chrono makes a date exactly when the day exists
/// in the proleptic Gregorian calendar and the year lies in -262143..=262142;
/// the date keeps the year, month and day it was made from.
#[verifier::external_body]
fn calendar_date(y: i32, m: u32, d: u32) -> (r: Option<Date>)
    ensures
        r is Some <==> is_valid_ymd(y as int, m as int, d as int),
        r matches Some(date) ==> date.ymd() == (y as int, m as int, d as int),
{
    chrono::NaiveDate::from_ymd_opt(y, m, d).map(|n| Date { year: n.year(), month: n.month(), day: n.day() })
}

/// `NaiveDate`'s `Display`: four zero-padded digits for years 0..=9999, else
/// a sign and at least four digits, then `-`, the month and the day in two
/// digits each.
#[verifier::external_body]
fn display_date(date: &Date) -> (s: String)
    ensures
        s@ == date_text(date.ymd()),
{
    chrono::NaiveDate::from_ymd_opt(date.year, date.month, date.day).unwrap().to_string()
}

/// Today's date in the machine's local time zone: `Local::now().date_naive()`.
/// Nothing is stated of which day it is.
#[verifier::external_body]
pub(crate) fn today() -> Date {
    let n = chrono::Local::now().date_naive();
    Date { year: n.year(), month: n.month(), day: n.day() }
}

} // verus!
