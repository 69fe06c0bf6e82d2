//! Terminal control sequences: parsing, composing and measuring them.
//!
//! A control sequence is read into an [`ANSIEscapeCode`], which one of the families
//! [`Intensity`], [`Colour`], [`Background`], [`Clear`] and [`MoveCursor`] gives a
//! meaning.  [`Modifier`] holds a modifier of any family, or several in a row, and
//! puts them round a text.  [`ModifiersInText`] finds the modifiers inside a text,
//! and [`RangeWithoutModifiers`] counts the places of a text with and without them.
//!
//! On top of these stand [`Lines`], which joins lines of text for printing, and
//! [`CalendarMonth`], which shows a month with its holidays.
//!
//! What holds of all of this, whatever the values, is proved in [`laws`],
//! [`roundtrip`], [`strip`], [`visible`] and [`range`].

pub mod background;
pub mod calendar;
pub mod clear;
pub mod colour;
pub mod cursor;
pub mod decimal;
pub mod error;
pub mod escape_code;
pub mod grammar;
pub mod intensity;
pub mod laws;
pub mod lines;
pub mod locality;
pub mod measure;
pub mod modifier;
pub mod palette;
pub mod range;
pub mod roundtrip;
pub mod search;
pub mod strip;
pub mod text;
pub mod traits;
pub mod visible;
pub mod wrap;

pub use background::Background;
pub use calendar::date::{Date, Weekday};
pub use calendar::day::DisplayCalendarDay;
pub use calendar::easter::get_easter_date;
pub use calendar::holidays::{HolidayList, Holidays};
pub use calendar::month::{CalendarMonth, ContainsDate};
pub use calendar::regions;
pub use calendar::regions::{England, RegionMarker};
pub use calendar::steps::{IterRangeByDuration, StepsOverRange};
pub use calendar::weekdays::{LastWeekdayOfMonth, NextWeekdayFromDate};
pub use clear::Clear;
pub use colour::Colour;
pub use cursor::MoveCursor;
pub use error::{Family, ModifierError};
pub use escape_code::{ANSIEscapeCode, DEFAULT_SEPARATOR};
pub use intensity::Intensity;
pub use lines::Lines;
pub use modifier::Modifier;
pub use range::RangeWithoutModifiers;
pub use search::{FindModifiers, LengthWithoutModifiers, ModifiersInText};
pub use traits::{HasLength, IntoANSIEscapeCode};
