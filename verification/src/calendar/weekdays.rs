//! Finding the day that falls on a given day of the week.

use vstd::prelude::*;
use crate::calendar::date::{Date, Weekday};

verus! {

/// The first of `date` and the `tries - 1` days after it that falls on one of
/// `weekdays`.
pub open spec fn next_weekday(date: Date, weekdays: Seq<Weekday>, tries: nat) -> Option<Date>
    decreases tries,
{
    if tries == 0 {
        None
    } else if weekdays.contains(date.spec_weekday()) {
        Some(date)
    } else {
        match date.spec_plus(1) {
            Some(next) => next_weekday(next, weekdays, (tries - 1) as nat),
            None => None,
        }
    }
}

/// The last of the first `n` of a day of the week that a month has.
pub open spec fn last_weekday_within(year: int, month: int, weekday: Weekday, n: nat) -> Option<
    Date,
>
    decreases n,
{
    if n == 0 {
        None
    } else {
        match Date::spec_weekday_of_month(year, month, weekday, n as int) {
            Some(date) => Some(date),
            None => last_weekday_within(year, month, weekday, (n - 1) as nat),
        }
    }
}

/// Tells whether `day` is one of `weekdays`.
pub fn is_one_of(day: Weekday, weekdays: &Vec<Weekday>) -> (r: bool)
    ensures
        r == weekdays@.contains(day),
{
    let mut i: usize = 0;
    while i < weekdays.len()
        invariant
            i <= weekdays.len(),
            forall|j: int| 0 <= j < i ==> weekdays@[j] != day,
        decreases weekdays.len() - i,
    {
        if weekdays[i] == day {
            return true;
        }
        i = i + 1;
    }
    false
}

/// For dates from which the next day of the week can be sought.
pub trait NextWeekdayFromDate: Sized {
    /// True for the dates that the search can start from.
    spec fn searchable(&self) -> bool;

    /// What the search gives.
    spec fn spec_next_weekday_from(&self, weekdays: Seq<Weekday>) -> Option<Self>;

    /// The first day from this one on that falls on one of `weekdays`; this day
    /// itself if it does.  The search goes through one week; it finds nothing where
    /// `weekdays` is empty or the calendar ends before.
    fn next_weekday_from(&self, weekdays: &Vec<Weekday>) -> (r: Option<Self>)
        requires
            self.searchable(),
        ensures
            r == self.spec_next_weekday_from(weekdays@),
            r matches Some(found) ==> found.searchable(),
    ;
}

impl NextWeekdayFromDate for Date {
    open spec fn searchable(&self) -> bool {
        self.on_calendar()
    }

    open spec fn spec_next_weekday_from(&self, weekdays: Seq<Weekday>) -> Option<Date> {
        next_weekday(*self, weekdays, 7)
    }

    fn next_weekday_from(&self, weekdays: &Vec<Weekday>) -> (r: Option<Date>) {
        let mut current = *self;
        let mut tries: u8 = 7;
        while tries > 0
            invariant
                current.on_calendar(),
                tries <= 7,
                next_weekday(*self, weekdays@, 7) == next_weekday(current, weekdays@, tries as nat),
            decreases tries,
        {
            if is_one_of(current.weekday(), weekdays) {
                return Some(current);
            }
            match current.plus_days(1) {
                Some(next) => {
                    current = next;
                },
                None => {
                    return None;
                },
            }
            tries = tries - 1;
        }
        None
    }
}

/// For dates that can be made from the last of a day of the week in a month.
pub trait LastWeekdayOfMonth: Sized {
    /// What [`Self::last_weekday_of_month_opt`] gives.
    spec fn spec_last_weekday_of_month(year: int, month: int, weekday: Weekday) -> Option<Self>;

    /// The last day of a month that falls on the given day of the week, if the
    /// calendar has the month.
    fn last_weekday_of_month_opt(year: i32, month: u32, weekday: Weekday) -> (r: Option<Self>)
        ensures
            r == Self::spec_last_weekday_of_month(year as int, month as int, weekday),
    ;

    /// The last day of a month that falls on the given day of the week.
    fn last_weekday_of_month(year: i32, month: u32, weekday: Weekday) -> (r: Self)
        requires
            Self::spec_last_weekday_of_month(year as int, month as int, weekday) is Some,
        ensures
            Some(r) == Self::spec_last_weekday_of_month(year as int, month as int, weekday),
    ;
}

impl LastWeekdayOfMonth for Date {
    /// No month has a day of the week more than five times.
    open spec fn spec_last_weekday_of_month(year: int, month: int, weekday: Weekday) -> Option<
        Date,
    > {
        last_weekday_within(year, month, weekday, 5)
    }

    fn last_weekday_of_month_opt(year: i32, month: u32, weekday: Weekday) -> (r: Option<Date>)
        ensures
            r matches Some(found) ==> found.on_calendar(),
    {
        let mut n: u8 = 5;
        while n > 0
            invariant
                n <= 5,
                last_weekday_within(year as int, month as int, weekday, 5) == last_weekday_within(
                    year as int,
                    month as int,
                    weekday,
                    n as nat,
                ),
            decreases n,
        {
            if let Some(date) = Date::from_weekday_of_month_opt(year, month, weekday, n) {
                return Some(date);
            }
            n = n - 1;
        }
        None
    }

    fn last_weekday_of_month(year: i32, month: u32, weekday: Weekday) -> (r: Date)
        ensures
            r.on_calendar(),
    {
        match Date::last_weekday_of_month_opt(year, month, weekday) {
            Some(date) => date,
            None => vstd::pervasive::unreached(),
        }
    }
}

} // verus!
