//! The holidays of a region.

use core::marker::PhantomData;
use vstd::prelude::*;
use crate::calendar::date::Date;
use crate::calendar::regions::RegionMarker;

verus! {

/// For what can list the holidays of a year.
pub trait HolidayList {
    /// True for the years whose holidays can be listed.
    spec fn listable(year: int) -> bool;

    /// The holidays of a year.
    spec fn spec_list(year: int) -> Seq<Date>;

    /// The holidays of a year.
    fn list(year: i32) -> (r: Vec<Date>)
        requires
            Self::listable(year as int),
        ensures
            r@ == Self::spec_list(year as int),
    ;
}

/// The holidays of the region `Region`.
pub struct Holidays<Region: RegionMarker> {
    region: PhantomData<Region>,
}

impl<Region: RegionMarker> HolidayList for Holidays<Region> {
    open spec fn listable(year: int) -> bool {
        Region::has_calendar(year)
    }

    open spec fn spec_list(year: int) -> Seq<Date> {
        Region::holidays(year)
    }

    fn list(year: i32) -> (r: Vec<Date>) {
        Region::list_holidays(year)
    }
}

} // verus!
