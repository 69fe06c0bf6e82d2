//! A day as it stands in a month of the calendar.

use vstd::prelude::*;
use vstd::utf8::*;
use crate::calendar::date::Date;
use crate::calendar::month::CalendarMonth;
use crate::calendar::regions::RegionMarker;
use crate::modifier::Modifier;

verus! {

/// For a day that can be shown in a month of the calendar.
pub trait DisplayCalendarDay {
    /// The day as a date.
    spec fn as_date(&self) -> Date;

    /// True for a day that the calendar has.
    spec fn showable(&self) -> bool;

    /// What is put round the day in `calendar`.  `today` is the day that is shown as
    /// today, if any.
    fn get_modifier<'a, Region: RegionMarker>(
        &self,
        calendar: &'a CalendarMonth<Region>,
        today: Option<Date>,
    ) -> (r: &'a Modifier)
        requires
            self.showable(),
        ensures
            r@ == calendar@.modifier_of(self.as_date(), today),
    ;

    /// The day as it is shown in `calendar`.
    fn to_display_on_calendar<Region: RegionMarker>(
        &self,
        calendar: &CalendarMonth<Region>,
        today: Option<Date>,
    ) -> (r: String)
        requires
            self.showable(),
            calendar@.still(),
        ensures
            encode_utf8(r@) == calendar@.day_shown(self.as_date(), today),
    ;

    /// The column and the week in which the day stands in `calendar`, if it lies in
    /// its month.
    fn calendar_col_row_of<Region: RegionMarker>(&self, calendar: &CalendarMonth<Region>) -> (r:
        Option<(u32, u32)>)
        requires
            self.showable(),
            calendar@.well_formed(),
        ensures
            match r {
                Some((column, week)) => calendar@.week_number(self.as_date()) == Some(week as int)
                    && column == calendar@.days_from_start_of_week(self.as_date()),
                None => calendar@.week_number(self.as_date()) is None,
            },
    ;
}

impl DisplayCalendarDay for Date {
    open spec fn as_date(&self) -> Date {
        *self
    }

    open spec fn showable(&self) -> bool {
        self.on_calendar()
    }

    fn get_modifier<'a, Region: RegionMarker>(
        &self,
        calendar: &'a CalendarMonth<Region>,
        today: Option<Date>,
    ) -> (r: &'a Modifier) {
        calendar.modifier_for(self, today)
    }

    fn to_display_on_calendar<Region: RegionMarker>(
        &self,
        calendar: &CalendarMonth<Region>,
        today: Option<Date>,
    ) -> (r: String) {
        calendar.shown_day(self, today)
    }

    fn calendar_col_row_of<Region: RegionMarker>(&self, calendar: &CalendarMonth<Region>) -> (r:
        Option<(u32, u32)>) {
        calendar.col_row_of(self)
    }
}

} // verus!
