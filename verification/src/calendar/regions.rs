//! The regions whose holidays are known.

use vstd::prelude::*;
use crate::calendar::date::{Date, Weekday, MAX_YEAR};
use crate::calendar::easter::{easter_day, easter_month, get_easter_date};
use crate::calendar::weekdays::{
    last_weekday_within, next_weekday, LastWeekdayOfMonth, NextWeekdayFromDate,
};

verus! {

/// The days from Monday to Friday.
pub open spec fn working_days() -> Seq<Weekday> {
    seq![Weekday::Mon, Weekday::Tue, Weekday::Wed, Weekday::Thu, Weekday::Fri]
}

/// The days from Monday to Friday.
pub fn weekdays() -> (r: Vec<Weekday>)
    ensures
        r@ == working_days(),
{
    let mut days: Vec<Weekday> = Vec::new();
    days.push(Weekday::Mon);
    days.push(Weekday::Tue);
    days.push(Weekday::Wed);
    days.push(Weekday::Thu);
    days.push(Weekday::Fri);
    assert(days@ =~= working_days());
    days
}

/// The dates among `entries`, in their order.
pub open spec fn present(entries: Seq<Option<Date>>) -> Seq<Date>
    decreases entries.len(),
{
    if entries.len() == 0 {
        Seq::empty()
    } else {
        match entries.last() {
            Some(date) => present(entries.drop_last()).push(date),
            None => present(entries.drop_last()),
        }
    }
}

/// Adds `entry` to `dates` if it is a date.
fn push_present(dates: &mut Vec<Date>, entry: Option<Date>, Ghost(entries): Ghost<
    Seq<Option<Date>>,
>)
    requires
        old(dates)@ == present(entries),
    ensures
        final(dates)@ == present(entries.push(entry)),
{
    proof {
        assert(entries.push(entry).drop_last() =~= entries);
    }
    if let Some(date) = entry {
        dates.push(date);
    }
}

/// For a region with its own holidays and its own first day of the week.
pub trait RegionMarker {
    /// The day with which a week begins in the region, if the region has a say.
    spec fn spec_starts_week_with() -> Option<Weekday>;

    /// True for the years whose holidays can be listed.
    spec fn has_calendar(year: int) -> bool;

    /// The holidays of a year.
    spec fn holidays(year: int) -> Seq<Date>;

    /// The day with which a week begins in the region, if the region has a say.
    fn starts_week_with() -> (r: Option<Weekday>)
        ensures
            r == Self::spec_starts_week_with(),
    ;

    /// The holidays of a year.
    fn list_holidays(year: i32) -> (r: Vec<Date>)
        requires
            Self::has_calendar(year as int),
        ensures
            r@ == Self::holidays(year as int),
    ;
}

/// England, whose public holidays are the bank holidays.  Where one falls on a
/// Saturday or Sunday, the next working day is a holiday in its place.
pub struct England {
    _private: bool,
}

impl England {
    /// The year of the Bank Holidays Act, before which there were no bank holidays.
    pub open spec fn first_year() -> int {
        1871
    }

    /// Easter Sunday of a year from 0 on that the calendar has.
    pub open spec fn easter(year: int) -> Option<Date> {
        if 0 <= year <= MAX_YEAR {
            Some(Date { year: year as i32, month: easter_month(year) as u32, day: easter_day(year) as u32 })
        } else {
            None
        }
    }

    /// The day that lies `days` days from Easter Sunday.
    pub open spec fn from_easter(year: int, days: int) -> Option<Date> {
        match England::easter(year) {
            Some(date) => date.spec_plus(days),
            None => None,
        }
    }

    /// The given day, or the next working day where it falls on a Saturday or Sunday.
    pub open spec fn observed(year: int, month: int, day: int) -> Option<Date> {
        next_weekday(Date { year: year as i32, month: month as u32, day: day as u32 }, working_days(), 7)
    }

    /// Christmas Day as it is observed.
    pub open spec fn christmas(year: int) -> Option<Date> {
        England::observed(year, 12, 25)
    }

    /// Boxing Day as it is observed: the first working day after Christmas Day as it
    /// is observed.
    pub open spec fn boxing_day(year: int) -> Option<Date> {
        match England::christmas(year) {
            Some(christmas) => match christmas.spec_plus(1) {
                Some(next) => next_weekday(next, working_days(), 7),
                None => None,
            },
            None => None,
        }
    }

    /// The bank holiday early in May: the first Monday of May from 1978 on, moved to
    /// the 8th of May in 1995 and in 2020.
    pub open spec fn early_may_bank_holiday(year: int) -> Option<Date> {
        if year == 1995 {
            Some(Date { year: 1995, month: 5, day: 8 })
        } else if year == 2020 {
            Some(Date { year: 2020, month: 5, day: 8 })
        } else if year >= 1978 {
            Date::spec_weekday_of_month(year, 5, Weekday::Mon, 1)
        } else {
            None
        }
    }

    /// The bank holiday of spring: the last Monday of May from 1965 on, moved in the
    /// three years of a jubilee; before, the first Monday from the 49th day after
    /// Easter Sunday on.
    pub open spec fn spring_bank_holiday(year: int) -> Option<Date> {
        if year == 2002 {
            Some(Date { year: 2002, month: 6, day: 4 })
        } else if year == 2012 {
            Some(Date { year: 2012, month: 6, day: 4 })
        } else if year == 2022 {
            Some(Date { year: 2022, month: 6, day: 2 })
        } else if year >= 1965 {
            last_weekday_within(year, 5, Weekday::Mon, 5)
        } else if year >= 1871 {
            match England::from_easter(year, 49) {
                Some(date) => next_weekday(date, seq![Weekday::Mon], 7),
                None => None,
            }
        } else {
            None
        }
    }

    /// The bank holiday of summer: the last Monday of August from 1965 on, but for
    /// 1968 and 1969; before, the first Monday of August.
    pub open spec fn summer_bank_holiday(year: int) -> Option<Date> {
        if year == 1968 {
            Some(Date { year: 1968, month: 9, day: 2 })
        } else if year == 1969 {
            Some(Date { year: 1969, month: 9, day: 1 })
        } else if year >= 1965 {
            last_weekday_within(year, 8, Weekday::Mon, 5)
        } else if year >= 1871 {
            Date::spec_weekday_of_month(year, 8, Weekday::Mon, 1)
        } else {
            None
        }
    }

    /// The holidays that were given once: for a coronation, a funeral and three
    /// jubilees.
    pub open spec fn special_holidays(year: int) -> Seq<Date> {
        if year == 2023 {
            seq![Date { year: 2023, month: 5, day: 8 }]
        } else if year == 2022 {
            seq![Date { year: 2022, month: 9, day: 19 }, Date { year: 2022, month: 6, day: 3 }]
        } else if year == 2012 {
            seq![Date { year: 2012, month: 6, day: 5 }]
        } else if year == 2002 {
            seq![Date { year: 2002, month: 6, day: 3 }]
        } else {
            Seq::empty()
        }
    }

    /// The holidays that come every year, each only where it is a date: New Year's
    /// Day, Good Friday, Easter Monday, the three bank holidays, Christmas Day and
    /// Boxing Day.
    pub open spec fn yearly_holidays(year: int) -> Seq<Option<Date>> {
        seq![
            England::observed(year, 1, 1),
            England::from_easter(year, -2),
            England::from_easter(year, 1),
            England::early_may_bank_holiday(year),
            England::spring_bank_holiday(year),
            England::summer_bank_holiday(year),
            England::christmas(year),
            England::boxing_day(year),
        ]
    }

    fn get_early_may_bank_holiday(year: i32) -> (r: Option<Date>)
        ensures
            r == England::early_may_bank_holiday(year as int),
    {
        if year == 1995 {
            Some(Date { year: 1995, month: 5, day: 8 })
        } else if year == 2020 {
            Some(Date { year: 2020, month: 5, day: 8 })
        } else if year >= 1978 {
            Date::from_weekday_of_month_opt(year, 5, Weekday::Mon, 1)
        } else {
            None
        }
    }

    fn get_spring_bank_holiday(year: i32) -> (r: Option<Date>)
        ensures
            r == England::spring_bank_holiday(year as int),
    {
        if year == 2002 {
            Some(Date { year: 2002, month: 6, day: 4 })
        } else if year == 2012 {
            Some(Date { year: 2012, month: 6, day: 4 })
        } else if year == 2022 {
            Some(Date { year: 2022, month: 6, day: 2 })
        } else if year >= 1965 {
            Date::last_weekday_of_month_opt(year, 5, Weekday::Mon)
        } else if year >= 1871 {
            let mut mondays: Vec<Weekday> = Vec::new();
            mondays.push(Weekday::Mon);
            assert(mondays@ =~= seq![Weekday::Mon]);
            match England::days_from_easter(year, 49) {
                Some(date) => date.next_weekday_from(&mondays),
                None => None,
            }
        } else {
            None
        }
    }

    fn get_summer_bank_holiday(year: i32) -> (r: Option<Date>)
        ensures
            r == England::summer_bank_holiday(year as int),
    {
        if year == 1968 {
            Some(Date { year: 1968, month: 9, day: 2 })
        } else if year == 1969 {
            Some(Date { year: 1969, month: 9, day: 1 })
        } else if year >= 1965 {
            Date::last_weekday_of_month_opt(year, 8, Weekday::Mon)
        } else if year >= 1871 {
            Date::from_weekday_of_month_opt(year, 8, Weekday::Mon, 1)
        } else {
            None
        }
    }

    fn get_special_holidays(year: i32) -> (r: Vec<Date>)
        ensures
            r@ == England::special_holidays(year as int),
    {
        let mut dates: Vec<Date> = Vec::new();
        if year == 2023 {
            dates.push(Date { year: 2023, month: 5, day: 8 });
        } else if year == 2022 {
            dates.push(Date { year: 2022, month: 9, day: 19 });
            dates.push(Date { year: 2022, month: 6, day: 3 });
        } else if year == 2012 {
            dates.push(Date { year: 2012, month: 6, day: 5 });
        } else if year == 2002 {
            dates.push(Date { year: 2002, month: 6, day: 3 });
        }
        assert(dates@ =~= England::special_holidays(year as int));
        dates
    }

    /// The day that lies `days` days from Easter Sunday.
    fn days_from_easter(year: i32, days: i64) -> (r: Option<Date>)
        ensures
            r == England::from_easter(year as int, days as int),
            r matches Some(date) ==> date.on_calendar(),
    {
        match get_easter_date(year) {
            Some(easter) => {
                proof {
                    crate::calendar::easter::law_easter_on_calendar(year as int);
                }
                easter.plus_days(days)
            },
            None => None,
        }
    }

    /// The given day of a year from 1871 on, or the next working day where it falls
    /// on a Saturday or Sunday.
    fn observe(year: i32, month: u32, day: u32, working: &Vec<Weekday>) -> (r: Option<Date>)
        requires
            1871 <= year <= MAX_YEAR,
            1 <= month <= 12,
            1 <= day <= 28,
            working@ == working_days(),
        ensures
            r == England::observed(year as int, month as int, day as int),
            r matches Some(date) ==> date.on_calendar(),
    {
        let date = Date { year, month, day };
        date.next_weekday_from(working)
    }
}

impl RegionMarker for England {
    /// A week begins on Monday.
    open spec fn spec_starts_week_with() -> Option<Weekday> {
        Some(Weekday::Mon)
    }

    /// The years that the calendar has.
    open spec fn has_calendar(year: int) -> bool {
        year <= MAX_YEAR
    }

    /// None before 1871; from then on those that come every year, and then those
    /// that were given once.
    open spec fn holidays(year: int) -> Seq<Date> {
        if year >= England::first_year() {
            present(England::yearly_holidays(year)) + England::special_holidays(year)
        } else {
            Seq::empty()
        }
    }

    fn starts_week_with() -> (r: Option<Weekday>) {
        Some(Weekday::Mon)
    }

    fn list_holidays(year: i32) -> (r: Vec<Date>) {
        let mut dates: Vec<Date> = Vec::new();
        if year < 1871 {
            return dates;
        }
        let working = weekdays();
        let christmas = England::observe(year, 12, 25, &working);
        let boxing_day = match christmas {
            Some(day) => match day.plus_days(1) {
                Some(next) => next.next_weekday_from(&working),
                None => None,
            },
            None => None,
        };
        let ghost all = England::yearly_holidays(year as int);
        let ghost mut done: Seq<Option<Date>> = Seq::empty();
        assert(present(done) =~= dates@);
        push_present(&mut dates, England::observe(year, 1, 1, &working), Ghost(done));
        proof {
            done = done.push(all[0]);
        }
        push_present(&mut dates, England::days_from_easter(year, -2), Ghost(done));
        proof {
            done = done.push(all[1]);
        }
        push_present(&mut dates, England::days_from_easter(year, 1), Ghost(done));
        proof {
            done = done.push(all[2]);
        }
        push_present(&mut dates, England::get_early_may_bank_holiday(year), Ghost(done));
        proof {
            done = done.push(all[3]);
        }
        push_present(&mut dates, England::get_spring_bank_holiday(year), Ghost(done));
        proof {
            done = done.push(all[4]);
        }
        push_present(&mut dates, England::get_summer_bank_holiday(year), Ghost(done));
        proof {
            done = done.push(all[5]);
        }
        push_present(&mut dates, christmas, Ghost(done));
        proof {
            done = done.push(all[6]);
        }
        push_present(&mut dates, boxing_day, Ghost(done));
        proof {
            done = done.push(all[7]);
            assert(done =~= all);
        }
        let mut special = England::get_special_holidays(year);
        dates.append(&mut special);
        dates
    }
}

} // verus!
