//! The date of Easter.

use vstd::prelude::*;
use crate::calendar::date::{date_exists, Date, MAX_YEAR};

verus! {

/// The number from which the day of Easter is reckoned: how far the full moon of
/// spring lies after the 21st of March, set right for the two cases in which the
/// reckoning would come out a week late.  For the years from 0 on.
pub open spec fn easter_moon(year: int) -> int {
    let g = year % 19;
    let c = year / 100;
    let h = (c - c / 4 - (8 * c + 13) / 25 + 19 * g + 15) % 30;
    let late = h / 28;
    h - late * (1 - late * (29int / (h + 1)) * ((21 - g) / 11))
}

/// Easter Sunday as a day of March; a number above 31 stands for a day of April.
/// For the years from 0 on.
pub open spec fn easter_march_day(year: int) -> int {
    let c = year / 100;
    let i = easter_moon(year);
    i - (year + year / 4 + i + 2 - c + c / 4) % 7 + 28
}

/// The month of Easter Sunday.
pub open spec fn easter_month(year: int) -> int {
    if easter_march_day(year) > 31 {
        4
    } else {
        3
    }
}

/// The day of the month of Easter Sunday.
pub open spec fn easter_day(year: int) -> int {
    if easter_march_day(year) > 31 {
        easter_march_day(year) - 31
    } else {
        easter_march_day(year)
    }
}

/// The number from which the day of Easter is reckoned lies between 0 and 28.
pub proof fn lemma_easter_moon(year: int)
    requires
        0 <= year,
    ensures
        0 <= easter_moon(year) <= 28,
{
    let g = year % 19;
    let c = year / 100;
    let h = (c - c / 4 - (8 * c + 13) / 25 + 19 * g + 15) % 30;
    let late = h / 28;
    let a = 29int / (h + 1);
    let b = (21 - g) / 11;
    let i = easter_moon(year);
    assert(i == h - late * (1 - late * a * b));
    assert(0 <= b <= 1);
    if h < 28 {
        assert(late == 0);
        assert(late * (1 - late * a * b) == 0) by (nonlinear_arith)
            requires
                late == 0,
        ;
    } else {
        assert(late == 1);
        if h == 28 {
            assert(29int / 29 == 1);
        } else {
            assert(h == 29);
            assert(29int / 30 == 0);
        }
        assert(0 <= a <= 1);
        assert(late * (1 - late * a * b) == 1 - a * b) by (nonlinear_arith)
            requires
                late == 1,
        ;
        assert(0 <= a * b <= 1) by (nonlinear_arith)
            requires
                0 <= a <= 1,
                0 <= b <= 1,
        ;
        assert(h == 29 ==> a * b == 0) by (nonlinear_arith)
            requires
                h == 29 ==> a == 0,
        ;
    }
}

/// From the year 0 on, Easter Sunday falls between the 22nd of March and the 25th of
/// April, so the calendar has the day.
pub proof fn law_easter_on_calendar(year: int)
    requires
        0 <= year <= MAX_YEAR,
    ensures
        22 <= easter_march_day(year) <= 56,
        date_exists(year, easter_month(year), easter_day(year)),
{
    lemma_easter_moon(year);
}

/// Easter Sunday of the given year.  The reckoning is for the years from 0 on that
/// the calendar has; there is no date for any other.
pub fn get_easter_date(year: i32) -> (r: Option<Date>)
    ensures
        r == if 0 <= year <= MAX_YEAR {
            Some(
                Date {
                    year,
                    month: easter_month(year as int) as u32,
                    day: easter_day(year as int) as u32,
                },
            )
        } else {
            None
        },
{
    if year < 0 || year > MAX_YEAR {
        return None;
    }
    proof {
        lemma_easter_moon(year as int);
        law_easter_on_calendar(year as int);
    }
    let g = year % 19;
    let c = year / 100;
    let h = (c - c / 4 - ((8 * c + 13) / 25) + 19 * g + 15) % 30;
    let late = h / 28;
    let a = 29 / (h + 1);
    let b = (21 - g) / 11;
    assert(0 <= h < 30);
    assert(0 <= 29int / (h + 1) <= 29) by (nonlinear_arith)
        requires
            0 <= h < 30,
    ;
    assert(0 <= late <= 1 && 0 <= a <= 29 && 0 <= b <= 1);
    assert(0 <= late * a <= 29) by (nonlinear_arith)
        requires
            0 <= late <= 1,
            0 <= a <= 29,
    ;
    assert(0 <= late * a * b <= 29) by (nonlinear_arith)
        requires
            0 <= late * a <= 29,
            0 <= b <= 1,
    ;
    assert(-28 <= late * (1 - late * a * b) <= 1) by (nonlinear_arith)
        requires
            0 <= late <= 1,
            0 <= late * a * b <= 29,
    ;
    let i = h - late * (1 - late * a * b);
    let mut day: i32 = i - ((year + (year / 4) + i + 2 - c + (c / 4)) % 7) + 28;
    let mut month: u32 = 3;
    if day > 31 {
        month = month + 1;
        day = day - 31;
    }
    Some(Date { year, month, day: day as u32 })
}

} // verus!
