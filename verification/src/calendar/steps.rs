//! Going through a range of dates in steps of so many days.

use core::ops::{Range, RangeInclusive};
use vstd::prelude::*;
use crate::calendar::date::Date;

verus! {

/// `RangeInclusive::start` of the standard library: the lower bound of the range.
pub assume_specification<Idx>[ RangeInclusive::<Idx>::start ](range: &RangeInclusive<Idx>) -> (r:
    &Idx)
    ensures
        *r == range@.start,
;

/// `RangeInclusive::end` of the standard library: the upper bound of the range.
pub assume_specification<Idx>[ RangeInclusive::<Idx>::end ](range: &RangeInclusive<Idx>) -> (r:
    &Idx)
    ensures
        *r == range@.end,
;

/// A walk from the start of a range of dates towards its end, in steps of a number of
/// days.
pub struct StepsOverRange {
    start: Date,
    end: Date,
    inclusive: bool,
    count: usize,
    duration: i64,
}

impl StepsOverRange {
    #[verifier::type_invariant]
    spec fn grounded(&self) -> bool {
        self.start.on_calendar()
    }

    /// The first date of the range.
    pub closed spec fn start(&self) -> Date {
        self.start
    }

    /// The date at which the range ends.
    pub closed spec fn end(&self) -> Date {
        self.end
    }

    /// True when the end belongs to the range.
    pub closed spec fn inclusive(&self) -> bool {
        self.inclusive
    }

    /// The number of steps taken so far.
    pub closed spec fn taken(&self) -> int {
        self.count as int
    }

    /// The number of days of a step.
    pub closed spec fn step(&self) -> int {
        self.duration as int
    }

    /// The date that the `k`-th step reaches, if it lies in the range.
    pub open spec fn item(&self, k: int) -> Option<Date> {
        if i64::MIN <= self.step() * k <= i64::MAX {
            match self.start().spec_plus(self.step() * k) {
                Some(date) => {
                    if !date.is_before(self.start()) && (date.is_before(self.end()) || (
                    self.inclusive() && date == self.end())) {
                        Some(date)
                    } else {
                        None
                    }
                },
                None => None,
            }
        } else {
            None
        }
    }

    /// A walk through the dates from `range.start` up to `range.end`, which does not
    /// belong to them.
    pub fn new(range: Range<Date>, duration: i64) -> (r: StepsOverRange)
        requires
            range.start.on_calendar(),
        ensures
            r.start() == range.start,
            r.end() == range.end,
            !r.inclusive(),
            r.taken() == 0,
            r.step() == duration,
    {
        StepsOverRange { start: range.start, end: range.end, inclusive: false, count: 0, duration }
    }

    /// A walk through the dates from `start` up to `end`, which belongs to them.
    pub fn new_inclusive(start: Date, end: Date, duration: i64) -> (r: StepsOverRange)
        requires
            start.on_calendar(),
        ensures
            r.start() == start,
            r.end() == end,
            r.inclusive(),
            r.taken() == 0,
            r.step() == duration,
    {
        StepsOverRange { start, end, inclusive: true, count: 0, duration }
    }

    /// Takes one step and returns the date that it reaches, if that date lies in the
    /// range.  The first step stays at the start.
    pub fn next(&mut self) -> (r: Option<Date>)
        requires
            old(self).taken() < usize::MAX,
        ensures
            r == old(self).item(old(self).taken()),
            final(self).taken() == old(self).taken() + 1,
            final(self).start() == old(self).start(),
            final(self).end() == old(self).end(),
            final(self).inclusive() == old(self).inclusive(),
            final(self).step() == old(self).step(),
    {
        proof {
            use_type_invariant(&*self);
        }
        let k = self.count;
        self.count = k + 1;
        assert(-0x8000_0000_0000_0000_0000_0000_0000_0000 <= self.duration * k
            <= 0x7fff_ffff_ffff_ffff_ffff_ffff_ffff_ffff) by (nonlinear_arith)
            requires
                -0x8000_0000_0000_0000 <= self.duration <= 0x7fff_ffff_ffff_ffff,
                0 <= k <= 0xffff_ffff_ffff_ffff,
        ;
        let days = (self.duration as i128) * (k as i128);
        if days < i64::MIN as i128 || days > i64::MAX as i128 {
            return None;
        }
        match self.start.plus_days(days as i64) {
            Some(date) => {
                if !date.before(&self.start) && (date.before(&self.end) || (self.inclusive && date
                    == self.end)) {
                    Some(date)
                } else {
                    None
                }
            },
            None => None,
        }
    }
}

/// For a range of dates that can be gone through in steps.
pub trait IterRangeByDuration: Sized {
    /// True when the range starts at a day of the calendar.
    spec fn startable(&self) -> bool;

    /// A walk through the range in steps of `duration` days.
    fn into_iter_by_duration(self, duration: i64) -> (r: StepsOverRange)
        requires
            self.startable(),
        ensures
            r.taken() == 0,
            r.step() == duration,
    ;
}

impl IterRangeByDuration for RangeInclusive<Date> {
    /// The range has to be as it was made: one that was gone through to its end does
    /// not hold its end any more.
    open spec fn startable(&self) -> bool {
        self@.start.on_calendar() && !self@.exhausted
    }

    fn into_iter_by_duration(self, duration: i64) -> (r: StepsOverRange)
        ensures
            r.start() == self@.start,
            r.end() == self@.end,
            r.inclusive(),
    {
        StepsOverRange::new_inclusive(*self.start(), *self.end(), duration)
    }
}

impl IterRangeByDuration for Range<Date> {
    open spec fn startable(&self) -> bool {
        self.start.on_calendar()
    }

    fn into_iter_by_duration(self, duration: i64) -> (r: StepsOverRange)
        ensures
            r.start() == self.start,
            r.end() == self.end,
            !r.inclusive(),
    {
        StepsOverRange::new(self, duration)
    }
}

} // verus!
