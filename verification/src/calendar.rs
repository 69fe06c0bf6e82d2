//! A month of the calendar, shown with modifiers: holidays stand out, and any day can
//! be given a look of its own.

pub mod date;
pub mod easter;
pub mod weekdays;
pub mod regions;
pub mod holidays;
pub mod steps;
pub mod month;
pub mod day;
