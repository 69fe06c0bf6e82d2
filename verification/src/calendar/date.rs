//! Dates and days of the week as plain values.
//!
//! Which day of the week a date is, and which date lies a number of days from
//! another, is asked of `chrono`.

use chrono::{Datelike, NaiveDate, TimeDelta};
use vstd::prelude::*;

verus! {

/// The first year that has dates.
pub const MIN_YEAR: i32 = -262143;

/// The last year that has dates.
pub const MAX_YEAR: i32 = 262142;

/// A day of the week.
#[derive(Clone, Copy, Debug, PartialEq, Eq, Structural)]
pub enum Weekday {
    Mon,
    Tue,
    Wed,
    Thu,
    Fri,
    Sat,
    Sun,
}

impl Weekday {
    /// The number of days from Monday to this day.
    pub open spec fn number(self) -> int {
        match self {
            Weekday::Mon => 0,
            Weekday::Tue => 1,
            Weekday::Wed => 2,
            Weekday::Thu => 3,
            Weekday::Fri => 4,
            Weekday::Sat => 5,
            Weekday::Sun => 6,
        }
    }

    /// The day that lies `n` days after a Monday.
    pub open spec fn at(n: int) -> Weekday {
        let k = n % 7;
        if k == 0 {
            Weekday::Mon
        } else if k == 1 {
            Weekday::Tue
        } else if k == 2 {
            Weekday::Wed
        } else if k == 3 {
            Weekday::Thu
        } else if k == 4 {
            Weekday::Fri
        } else if k == 5 {
            Weekday::Sat
        } else {
            Weekday::Sun
        }
    }

    /// The first letter of the name of the day.
    pub open spec fn spec_initial(self) -> u8 {
        match self {
            Weekday::Mon => 0x4d,
            Weekday::Tue | Weekday::Thu => 0x54,
            Weekday::Wed => 0x57,
            Weekday::Fri => 0x46,
            Weekday::Sat | Weekday::Sun => 0x53,
        }
    }

    /// The number of days from Monday to this day.
    pub fn num_days_from_monday(&self) -> (r: u32)
        ensures
            r == self.number(),
    {
        match self {
            Weekday::Mon => 0,
            Weekday::Tue => 1,
            Weekday::Wed => 2,
            Weekday::Thu => 3,
            Weekday::Fri => 4,
            Weekday::Sat => 5,
            Weekday::Sun => 6,
        }
    }

    /// The day that lies `n` days after a Monday.
    pub fn from_days_from_monday(n: u32) -> (r: Weekday)
        ensures
            r == Weekday::at(n as int),
            r.number() == n % 7,
    {
        match n % 7 {
            0 => Weekday::Mon,
            1 => Weekday::Tue,
            2 => Weekday::Wed,
            3 => Weekday::Thu,
            4 => Weekday::Fri,
            5 => Weekday::Sat,
            _ => Weekday::Sun,
        }
    }

    /// The next day of the week.
    pub fn succ(&self) -> (r: Weekday)
        ensures
            r == Weekday::at(self.number() + 1),
    {
        Weekday::from_days_from_monday(self.num_days_from_monday() + 1)
    }

    /// The first letter of the name of the day, as a byte.
    pub fn initial(&self) -> (r: u8)
        ensures
            r == self.spec_initial(),
    {
        match self {
            Weekday::Mon => 0x4d,
            Weekday::Tue | Weekday::Thu => 0x54,
            Weekday::Wed => 0x57,
            Weekday::Fri => 0x46,
            Weekday::Sat | Weekday::Sun => 0x53,
        }
    }
}

/// True for the years that have a 29th of February.
pub open spec fn is_leap_year(year: int) -> bool {
    year % 4 == 0 && (year % 100 != 0 || year % 400 == 0)
}

/// The number of days of a month.
pub open spec fn days_in_month(year: int, month: int) -> int {
    if month == 2 {
        if is_leap_year(year) {
            29
        } else {
            28
        }
    } else if month == 4 || month == 6 || month == 9 || month == 11 {
        30
    } else {
        31
    }
}

/// True when the calendar has this day: in a year that has dates, a month from 1 to
/// 12 and a day of that month.
pub open spec fn date_exists(year: int, month: int, day: int) -> bool {
    &&& MIN_YEAR <= year <= MAX_YEAR
    &&& 1 <= month <= 12
    &&& 1 <= day <= days_in_month(year, month)
}

/// The day of the week of a date, as the number of days from Monday, as `chrono`
/// gives it.
pub uninterp spec fn weekday_number(year: int, month: int, day: int) -> int;

/// The date that lies `days` days from a date, as `chrono` gives it; nothing where
/// the calendar ends before.
pub uninterp spec fn date_plus(year: int, month: int, day: int, days: int) -> Option<(int, int, int)>;

/// `NaiveDate::from_ymd_opt` of `chrono` gives a date exactly for the days that the
/// calendar has: the proleptic Gregorian calendar, in the years from [`MIN_YEAR`] to
/// [`MAX_YEAR`].
#[verifier::external_body]
fn chrono_exists(year: i32, month: u32, day: u32) -> (r: bool)
    ensures
        r == date_exists(year as int, month as int, day as int),
{
    NaiveDate::from_ymd_opt(year, month, day).is_some()
}

/// `NaiveDate::weekday` of `chrono`, as the number that `Weekday::num_days_from_monday`
/// gives for it: 0 for Monday up to 6 for Sunday.
#[verifier::external_body]
fn chrono_weekday(year: i32, month: u32, day: u32) -> (r: u32)
    requires
        date_exists(year as int, month as int, day as int),
    ensures
        r == weekday_number(year as int, month as int, day as int),
        r < 7,
{
    NaiveDate::from_ymd_opt(year, month, day).unwrap().weekday().num_days_from_monday()
}

/// `NaiveDate::checked_add_signed` of `chrono` with `TimeDelta::try_days`: the date
/// that lies `days` days from the given one, or nothing where the days are too many or
/// the calendar ends before.  What it gives is a day that the calendar has.
#[verifier::external_body]
fn chrono_plus_days(year: i32, month: u32, day: u32, days: i64) -> (r: Option<(i32, u32, u32)>)
    requires
        date_exists(year as int, month as int, day as int),
    ensures
        match r {
            Some((y, m, d)) => date_plus(year as int, month as int, day as int, days as int)
                == Some((y as int, m as int, d as int)) && date_exists(
                y as int,
                m as int,
                d as int,
            ),
            None => date_plus(year as int, month as int, day as int, days as int) is None,
        },
{
    let date = NaiveDate::from_ymd_opt(year, month, day).unwrap();
    let sum = date.checked_add_signed(TimeDelta::try_days(days)?)?;
    Some((sum.year(), sum.month(), sum.day()))
}

/// A day of the calendar.
#[derive(Clone, Copy, Debug, PartialEq, Eq, Structural)]
pub struct Date {
    pub year: i32,
    pub month: u32,
    pub day: u32,
}

impl Date {
    /// True when the calendar has this day.
    pub open spec fn on_calendar(self) -> bool {
        date_exists(self.year as int, self.month as int, self.day as int)
    }

    /// The day of the week.
    pub open spec fn spec_weekday(self) -> Weekday {
        Weekday::at(weekday_number(self.year as int, self.month as int, self.day as int))
    }

    /// The day that lies `days` days from this one.
    pub open spec fn spec_plus(self, days: int) -> Option<Date> {
        match date_plus(self.year as int, self.month as int, self.day as int, days) {
            Some((y, m, d)) => Some(Date { year: y as i32, month: m as u32, day: d as u32 }),
            None => None,
        }
    }

    /// True when `self` lies before `other`.
    pub open spec fn is_before(self, other: Date) -> bool {
        self.year < other.year || (self.year == other.year && (self.month < other.month || (
        self.month == other.month && self.day < other.day)))
    }

    /// The given day, if the calendar has it.
    pub fn from_ymd_opt(year: i32, month: u32, day: u32) -> (r: Option<Date>)
        ensures
            r == if date_exists(year as int, month as int, day as int) {
                Some(Date { year, month, day })
            } else {
                None
            },
    {
        if chrono_exists(year, month, day) {
            Some(Date { year, month, day })
        } else {
            None
        }
    }

    /// The year.
    pub fn year(&self) -> (r: i32)
        ensures
            r == self.year,
    {
        self.year
    }

    /// The month, from 1 to 12.
    pub fn month(&self) -> (r: u32)
        ensures
            r == self.month,
    {
        self.month
    }

    /// The day of the month, from 1 on.
    pub fn day(&self) -> (r: u32)
        ensures
            r == self.day,
    {
        self.day
    }

    /// The day of the week.
    pub fn weekday(&self) -> (r: Weekday)
        requires
            self.on_calendar(),
        ensures
            r == self.spec_weekday(),
    {
        Weekday::from_days_from_monday(chrono_weekday(self.year, self.month, self.day))
    }

    /// The day that lies `days` days from this one, if the calendar has it.
    pub fn plus_days(&self, days: i64) -> (r: Option<Date>)
        requires
            self.on_calendar(),
        ensures
            r == self.spec_plus(days as int),
            r matches Some(d) ==> d.on_calendar(),
    {
        match chrono_plus_days(self.year, self.month, self.day, days) {
            Some((year, month, day)) => Some(Date { year, month, day }),
            None => None,
        }
    }

    /// Tells whether `self` lies before `other`.
    pub fn before(&self, other: &Date) -> (r: bool)
        ensures
            r == self.is_before(*other),
    {
        self.year < other.year || (self.year == other.year && (self.month < other.month || (
        self.month == other.month && self.day < other.day)))
    }

    /// The first day of the month of this day.
    pub fn first_of_month(&self) -> (r: Date)
        requires
            self.on_calendar(),
        ensures
            r == (Date { year: self.year, month: self.month, day: 1 }),
            r.on_calendar(),
    {
        Date { year: self.year, month: self.month, day: 1 }
    }

    /// The number of days of the month of this day.
    pub fn days_of_month(&self) -> (r: u32)
        requires
            self.on_calendar(),
        ensures
            r == days_in_month(self.year as int, self.month as int),
            28 <= r <= 31,
    {
        if self.month == 2 {
            if self.year % 4 == 0 && (self.year % 100 != 0 || self.year % 400 == 0) {
                29
            } else {
                28
            }
        } else if self.month == 4 || self.month == 6 || self.month == 9 || self.month == 11 {
            30
        } else {
            31
        }
    }
}


/// The `n`-th of a day of the week in a month, counted from 1: nothing for `n == 0`
/// and where the month has no first day; else the day that lies `n - 1` weeks after
/// the first such day of the week in the month, if the month has it.
pub open spec fn weekday_of_month(year: int, month: int, weekday: int, n: int) -> Option<
    (int, int, int),
> {
    if n == 0 || !date_exists(year, month, 1) {
        None
    } else {
        let first = weekday_number(year, month, 1);
        let day = (n - 1) * 7 + (7 + weekday - first) % 7 + 1;
        if date_exists(year, month, day) {
            Some((year, month, day))
        } else {
            None
        }
    }
}

/// `NaiveDate::from_weekday_of_month_opt` of `chrono`, the day of the week given as
/// its number of days from Monday: what [`weekday_of_month`] says, which is how
/// `chrono` reckons it from the day of the week of the first of the month.
#[verifier::external_body]
fn chrono_weekday_of_month(year: i32, month: u32, weekday: u32, n: u8) -> (r: Option<
    (i32, u32, u32),
>)
    requires
        weekday < 7,
    ensures
        match r {
            Some((y, m, d)) => weekday_of_month(year as int, month as int, weekday as int, n as int)
                == Some((y as int, m as int, d as int)),
            None => weekday_of_month(year as int, month as int, weekday as int, n as int) is None,
        },
{
    let day = chrono::Weekday::try_from(weekday as u8).ok()?;
    let date = NaiveDate::from_weekday_of_month_opt(year, month, day, n)?;
    Some((date.year(), date.month(), date.day()))
}

impl Date {
    /// The `n`-th of a day of the week in a month, as a date.
    pub open spec fn spec_weekday_of_month(year: int, month: int, weekday: Weekday, n: int) -> Option<
        Date,
    > {
        match weekday_of_month(year, month, weekday.number(), n) {
            Some((y, m, d)) => Some(Date { year: y as i32, month: m as u32, day: d as u32 }),
            None => None,
        }
    }

    /// The `n`-th of a day of the week in a month, counted from 1, if the month has it.
    pub fn from_weekday_of_month_opt(year: i32, month: u32, weekday: Weekday, n: u8) -> (r: Option<
        Date,
    >)
        ensures
            r == Date::spec_weekday_of_month(year as int, month as int, weekday, n as int),
            r matches Some(d) ==> d.on_calendar(),
    {
        match chrono_weekday_of_month(year, month, weekday.num_days_from_monday(), n) {
            Some((year, month, day)) => Some(Date { year, month, day }),
            None => None,
        }
    }
}

} // verus!
