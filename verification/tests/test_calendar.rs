use conch::calendar::date::{Date, Weekday};
use conch::calendar::day::DisplayCalendarDay;
use conch::calendar::month::{CalendarMonth, ContainsDate};
use conch::calendar::regions::England;
use conch::calendar::steps::{IterRangeByDuration, StepsOverRange};
use conch::{Lines, Modifier, MoveCursor};

fn date(year: i32, month: u32, day: u32) -> Date {
    Date::from_ymd_opt(year, month, day).unwrap()
}

fn month(year: i32, month: u32) -> CalendarMonth<England> {
    CalendarMonth::<England>::new(date(year, month, 1))
}

const BOLD_RED: &str = "\u{1b}[38;5;9m\u{1b}[1m";
const RESET: &str = "\u{1b}[22m\u{1b}[39m";

fn holiday(day: &str) -> String {
    format!("{}{}{}", BOLD_RED, day, RESET)
}

#[test]
fn calendar_no_modifiers_short_month() {
    let strings = month(2023, 2).to_lines(None);
    assert_eq!(
        strings,
        vec![
            "\u{1b}[1m M  T  W  T  F  S  S\u{1b}[22m",
            "       1  2  3  4 \u{1b}[38;5;9m\u{1b}[1m 5\u{1b}[22m\u{1b}[39m",
            " 6  7  8  9 10 11 \u{1b}[38;5;9m\u{1b}[1m12\u{1b}[22m\u{1b}[39m",
            "13 14 15 16 17 18 \u{1b}[38;5;9m\u{1b}[1m19\u{1b}[22m\u{1b}[39m",
            "20 21 22 23 24 25 \u{1b}[38;5;9m\u{1b}[1m26\u{1b}[22m\u{1b}[39m",
            "27 28               "
        ]
    );
}

#[test]
fn calendar_no_modifiers_long_month() {
    let strings = month(2023, 3).to_lines(None);
    assert_eq!(
        strings,
        vec![
            "\u{1b}[1m M  T  W  T  F  S  S\u{1b}[22m",
            "       1  2  3  4 \u{1b}[38;5;9m\u{1b}[1m 5\u{1b}[22m\u{1b}[39m",
            " 6  7  8  9 10 11 \u{1b}[38;5;9m\u{1b}[1m12\u{1b}[22m\u{1b}[39m",
            "13 14 15 16 17 18 \u{1b}[38;5;9m\u{1b}[1m19\u{1b}[22m\u{1b}[39m",
            "20 21 22 23 24 25 \u{1b}[38;5;9m\u{1b}[1m26\u{1b}[22m\u{1b}[39m",
            "27 28 29 30 31      "
        ]
    );
}

#[test]
fn calendar_no_modifiers_starts_monday_bank_holidays() {
    let strings = month(2023, 5).to_lines(None);
    assert_eq!(
        strings,
        vec![
            "\u{1b}[1m M  T  W  T  F  S  S\u{1b}[22m",
            "\u{1b}[38;5;9m\u{1b}[1m 1\u{1b}[22m\u{1b}[39m  2  3  4  5  6 \u{1b}[38;5;9m\u{1b}[1m 7\u{1b}[22m\u{1b}[39m",
            // The 8th was a holiday in 2023, for the coronation.
            "\u{1b}[38;5;9m\u{1b}[1m 8\u{1b}[22m\u{1b}[39m  9 10 11 12 13 \u{1b}[38;5;9m\u{1b}[1m14\u{1b}[22m\u{1b}[39m",
            "15 16 17 18 19 20 \u{1b}[38;5;9m\u{1b}[1m21\u{1b}[22m\u{1b}[39m",
            "22 23 24 25 26 27 \u{1b}[38;5;9m\u{1b}[1m28\u{1b}[22m\u{1b}[39m",
            "\u{1b}[38;5;9m\u{1b}[1m29\u{1b}[22m\u{1b}[39m 30 31            "
        ]
    );
}

#[test]
fn calendar_no_modifiers_ends_monday_bank_holidays() {
    let strings = month(2023, 12).to_lines(None);
    assert_eq!(
        strings,
        vec![
            "\u{1b}[1m M  T  W  T  F  S  S\u{1b}[22m",
            "             1  2 \u{1b}[38;5;9m\u{1b}[1m 3\u{1b}[22m\u{1b}[39m",
            " 4  5  6  7  8  9 \u{1b}[38;5;9m\u{1b}[1m10\u{1b}[22m\u{1b}[39m",
            "11 12 13 14 15 16 \u{1b}[38;5;9m\u{1b}[1m17\u{1b}[22m\u{1b}[39m",
            "18 19 20 21 22 23 \u{1b}[38;5;9m\u{1b}[1m24\u{1b}[22m\u{1b}[39m",
            "\u{1b}[38;5;9m\u{1b}[1m25\u{1b}[22m\u{1b}[39m \u{1b}[38;5;9m\u{1b}[1m26\u{1b}[22m\u{1b}[39m 27 28 29 30 \u{1b}[38;5;9m\u{1b}[1m31\u{1b}[22m\u{1b}[39m"
        ]
    );
}

#[test]
fn calendar_blue_weekdays_modifiers() {
    let strings =
        month(2023, 12).modify_weekdays(Modifier::colour("Blue").unwrap()).to_lines(None);
    assert_eq!(
        strings,
        vec![
            "\u{1b}[1m M  T  W  T  F  S  S\u{1b}[22m",
            "            \u{1b}[38;5;4m 1\u{1b}[39m \u{1b}[38;5;4m 2\u{1b}[39m \u{1b}[38;5;9m\u{1b}[1m 3\u{1b}[22m\u{1b}[39m",
            "\u{1b}[38;5;4m 4\u{1b}[39m \u{1b}[38;5;4m 5\u{1b}[39m \u{1b}[38;5;4m 6\u{1b}[39m \u{1b}[38;5;4m 7\u{1b}[39m \u{1b}[38;5;4m 8\u{1b}[39m \u{1b}[38;5;4m 9\u{1b}[39m \u{1b}[38;5;9m\u{1b}[1m10\u{1b}[22m\u{1b}[39m",
            "\u{1b}[38;5;4m11\u{1b}[39m \u{1b}[38;5;4m12\u{1b}[39m \u{1b}[38;5;4m13\u{1b}[39m \u{1b}[38;5;4m14\u{1b}[39m \u{1b}[38;5;4m15\u{1b}[39m \u{1b}[38;5;4m16\u{1b}[39m \u{1b}[38;5;9m\u{1b}[1m17\u{1b}[22m\u{1b}[39m",
            "\u{1b}[38;5;4m18\u{1b}[39m \u{1b}[38;5;4m19\u{1b}[39m \u{1b}[38;5;4m20\u{1b}[39m \u{1b}[38;5;4m21\u{1b}[39m \u{1b}[38;5;4m22\u{1b}[39m \u{1b}[38;5;4m23\u{1b}[39m \u{1b}[38;5;9m\u{1b}[1m24\u{1b}[22m\u{1b}[39m",
            "\u{1b}[38;5;9m\u{1b}[1m25\u{1b}[22m\u{1b}[39m \u{1b}[38;5;9m\u{1b}[1m26\u{1b}[22m\u{1b}[39m \u{1b}[38;5;4m27\u{1b}[39m \u{1b}[38;5;4m28\u{1b}[39m \u{1b}[38;5;4m29\u{1b}[39m \u{1b}[38;5;4m30\u{1b}[39m \u{1b}[38;5;9m\u{1b}[1m31\u{1b}[22m\u{1b}[39m"
        ]
    );
}

#[test]
fn calendar_blue_weekdays_modifiers_special_days() {
    let strings = month(2023, 12)
        .modify_weekdays(Modifier::colour("Blue").unwrap())
        .decorate_day(date(2023, 12, 1), Modifier::colour("BrightGreen").unwrap())
        .decorate_day(date(2023, 12, 30), Modifier::colour("BrightYellow").unwrap())
        .decorate_day(date(2023, 12, 15), Modifier::background("BrightYellow").unwrap())
        .to_lines(None);
    assert_eq!(
        strings,
        vec![
            "\u{1b}[1m M  T  W  T  F  S  S\u{1b}[22m",
            "            \u{1b}[38;5;10m 1\u{1b}[39m \u{1b}[38;5;4m 2\u{1b}[39m \u{1b}[38;5;9m\u{1b}[1m 3\u{1b}[22m\u{1b}[39m",
            "\u{1b}[38;5;4m 4\u{1b}[39m \u{1b}[38;5;4m 5\u{1b}[39m \u{1b}[38;5;4m 6\u{1b}[39m \u{1b}[38;5;4m 7\u{1b}[39m \u{1b}[38;5;4m 8\u{1b}[39m \u{1b}[38;5;4m 9\u{1b}[39m \u{1b}[38;5;9m\u{1b}[1m10\u{1b}[22m\u{1b}[39m",
            "\u{1b}[38;5;4m11\u{1b}[39m \u{1b}[38;5;4m12\u{1b}[39m \u{1b}[38;5;4m13\u{1b}[39m \u{1b}[38;5;4m14\u{1b}[39m \u{1b}[48;5;11m15\u{1b}[49m \u{1b}[38;5;4m16\u{1b}[39m \u{1b}[38;5;9m\u{1b}[1m17\u{1b}[22m\u{1b}[39m",
            "\u{1b}[38;5;4m18\u{1b}[39m \u{1b}[38;5;4m19\u{1b}[39m \u{1b}[38;5;4m20\u{1b}[39m \u{1b}[38;5;4m21\u{1b}[39m \u{1b}[38;5;4m22\u{1b}[39m \u{1b}[38;5;4m23\u{1b}[39m \u{1b}[38;5;9m\u{1b}[1m24\u{1b}[22m\u{1b}[39m",
            "\u{1b}[38;5;9m\u{1b}[1m25\u{1b}[22m\u{1b}[39m \u{1b}[38;5;9m\u{1b}[1m26\u{1b}[22m\u{1b}[39m \u{1b}[38;5;4m27\u{1b}[39m \u{1b}[38;5;4m28\u{1b}[39m \u{1b}[38;5;4m29\u{1b}[39m \u{1b}[38;5;11m30\u{1b}[39m \u{1b}[38;5;9m\u{1b}[1m31\u{1b}[22m\u{1b}[39m"
        ]
    );
}

#[test]
fn calendar_show_other_months() {
    let strings = month(2023, 11)
        .modify_weekdays(Modifier::colour("Blue").unwrap())
        .show_other_months(true)
        .to_lines(None);
    assert_eq!(
        strings,
        vec![
            "\u{1b}[1m M  T  W  T  F  S  S\u{1b}[22m",
            "\u{1b}[38;5;245m30\u{1b}[39m \u{1b}[38;5;245m31\u{1b}[39m \u{1b}[38;5;4m 1\u{1b}[39m \u{1b}[38;5;4m 2\u{1b}[39m \u{1b}[38;5;4m 3\u{1b}[39m \u{1b}[38;5;4m 4\u{1b}[39m \u{1b}[38;5;9m\u{1b}[1m 5\u{1b}[22m\u{1b}[39m",
            "\u{1b}[38;5;4m 6\u{1b}[39m \u{1b}[38;5;4m 7\u{1b}[39m \u{1b}[38;5;4m 8\u{1b}[39m \u{1b}[38;5;4m 9\u{1b}[39m \u{1b}[38;5;4m10\u{1b}[39m \u{1b}[38;5;4m11\u{1b}[39m \u{1b}[38;5;9m\u{1b}[1m12\u{1b}[22m\u{1b}[39m",
            "\u{1b}[38;5;4m13\u{1b}[39m \u{1b}[38;5;4m14\u{1b}[39m \u{1b}[38;5;4m15\u{1b}[39m \u{1b}[38;5;4m16\u{1b}[39m \u{1b}[38;5;4m17\u{1b}[39m \u{1b}[38;5;4m18\u{1b}[39m \u{1b}[38;5;9m\u{1b}[1m19\u{1b}[22m\u{1b}[39m",
            "\u{1b}[38;5;4m20\u{1b}[39m \u{1b}[38;5;4m21\u{1b}[39m \u{1b}[38;5;4m22\u{1b}[39m \u{1b}[38;5;4m23\u{1b}[39m \u{1b}[38;5;4m24\u{1b}[39m \u{1b}[38;5;4m25\u{1b}[39m \u{1b}[38;5;9m\u{1b}[1m26\u{1b}[22m\u{1b}[39m",
            "\u{1b}[38;5;4m27\u{1b}[39m \u{1b}[38;5;4m28\u{1b}[39m \u{1b}[38;5;4m29\u{1b}[39m \u{1b}[38;5;4m30\u{1b}[39m \u{1b}[38;5;245m 1\u{1b}[39m \u{1b}[38;5;245m 2\u{1b}[39m \u{1b}[38;5;245m 3\u{1b}[39m"
        ]
    );
}

#[test]
fn calendar_with_today() {
    let today = date(2023, 3, 3);
    let highlight = Modifier::colour("BrightBlue").unwrap() + Modifier::intensity("Bold").unwrap();
    let calendar = CalendarMonth::<England>::new(today).modify_today(Some(highlight));
    let lines = Lines::new(calendar.to_lines(Some(today)));
    assert_eq!(
        lines.to_string().as_str(),
        "\u{1b}[1m M  T  W  T  F  S  S\u{1b}[22m\n\
         \x20      1  2 \u{1b}[38;5;12m\u{1b}[1m 3\u{1b}[22m\u{1b}[39m  4 \u{1b}[38;5;9m\u{1b}[1m 5\u{1b}[22m\u{1b}[39m\n\
         \x206  7  8  9 10 11 \u{1b}[38;5;9m\u{1b}[1m12\u{1b}[22m\u{1b}[39m\n\
         13 14 15 16 17 18 \u{1b}[38;5;9m\u{1b}[1m19\u{1b}[22m\u{1b}[39m\n\
         20 21 22 23 24 25 \u{1b}[38;5;9m\u{1b}[1m26\u{1b}[22m\u{1b}[39m\n\
         27 28 29 30 31      "
    );
    // On another day the third looks like any other day.
    let rows = calendar.to_lines(Some(date(2023, 3, 4)));
    assert_eq!(
        rows[1],
        format!("       1  2  3 {} {}", "\u{1b}[38;5;12m\u{1b}[1m 4\u{1b}[22m\u{1b}[39m", holiday(" 5"))
    );
    let rows = calendar.to_lines(Some(date(2023, 4, 4)));
    assert_eq!(rows[1], format!("       1  2  3  4 {}", holiday(" 5")));
    let rows = calendar.to_lines(None);
    assert_eq!(rows[1], format!("       1  2  3  4 {}", holiday(" 5")));
}

#[test]
fn calendar_title() {
    let calendar = month(2023, 3);
    assert_eq!(calendar.title().as_str(), "\u{1b}[1m M  T  W  T  F  S  S\u{1b}[22m");
    let calendar = calendar.capitalize_title(false).modify_title(Modifier::Nothing);
    assert_eq!(calendar.title().as_str(), " m  t  w  t  f  s  s");
    let calendar = calendar.starts_week_with(Weekday::Sat).capitalize_title(true);
    assert_eq!(calendar.title().as_str(), " S  S  M  T  W  T  F");
    let rows = calendar.show_title(false).to_lines(None);
    assert_eq!(rows.len(), 5);
    assert_eq!(rows[0], format!("             1  2  3"));
}

#[test]
fn calendar_week_starting_on_another_day() {
    let rows = month(2023, 3).starts_week_with(Weekday::Wed).show_title(false).to_lines(None);
    assert_eq!(
        rows,
        vec![
            format!(" 1  2  3  4 {}  6  7", holiday(" 5")),
            format!(" 8  9 10 11 {} 13 14", holiday("12")),
            format!("15 16 17 18 {} 20 21", holiday("19")),
            format!("22 23 24 25 {} 27 28", holiday("26")),
            String::from("29 30 31            "),
        ]
    );
    let rows = month(2023, 10).starts_week_with(Weekday::Mon).show_title(false).to_lines(None);
    assert_eq!(rows.len(), 6);
    assert_eq!(rows[0], format!("                  {}", holiday(" 1")));
    assert_eq!(rows[5], "30 31               ");
}

#[test]
fn calendar_num_days_from_start_of_week() {
    let calendar = month(2023, 3).starts_week_with(Weekday::Thu);
    // The Friday of the first week of the year 2023.
    let friday = date(2023, 1, 6);
    assert_eq!(friday.weekday(), Weekday::Fri);
    assert_eq!(calendar.num_days_from_start_of_week(&friday), 1);
    assert_eq!(calendar.num_days_from_start_of_week(&date(2023, 1, 4)), 6);
    assert_eq!(calendar.num_days_from_start_of_week(&date(2023, 1, 5)), 0);
}

#[test]
fn calendar_week_number_of() {
    let calendar = month(2023, 3);
    assert_eq!(calendar.week_number_of(&date(2023, 3, 7)), Some(1));
    let calendar = calendar.starts_week_with(Weekday::Wed);
    assert_eq!(calendar.week_number_of(&date(2023, 3, 7)), Some(0));
    let calendar = calendar.starts_week_with(Weekday::Thu);
    assert_eq!(calendar.week_number_of(&date(2023, 3, 9)), Some(2));
    assert_eq!(calendar.week_number_of(&date(2023, 4, 1)), None);
    assert_eq!(date(2023, 3, 9).calendar_col_row_of(&calendar), Some((0, 2)));
    assert_eq!(date(2023, 3, 8).calendar_col_row_of(&calendar), Some((6, 1)));
    assert_eq!(date(2023, 4, 1).calendar_col_row_of(&calendar), None);
}

#[test]
fn calendar_weeks_count() {
    assert_eq!(month(2023, 2).weeks_count(), 5);
    assert_eq!(month(2023, 10).weeks_count(), 6);
    assert_eq!(month(2021, 2).weeks_count(), 4);
    // The count is made when the month is made and stays.
    assert_eq!(month(2021, 2).starts_week_with(Weekday::Tue).weeks_count(), 4);
    assert_eq!(month(2021, 2).starts_week_with(Weekday::Tue).show_title(false).to_lines(None).len(), 5);
}

#[test]
fn calendar_new_starts_at_the_first() {
    let calendar = CalendarMonth::<England>::new(date(2023, 5, 17));
    assert_eq!(calendar.date, date(2023, 5, 1));
    assert_eq!(calendar.week_starts_with, Weekday::Mon);
    assert!(calendar.contains(&date(2023, 5, 31)));
    assert!(ContainsDate::contains(&calendar, &date(2023, 5, 1)));
    assert!(!calendar.contains(&date(2023, 6, 1)));
    assert!(!calendar.contains(&date(2022, 5, 1)));
}

#[test]
fn calendar_decorate_day() {
    let green = Modifier::colour("BrightGreen").unwrap();
    let bold = Modifier::intensity("Bold").unwrap();
    let calendar = month(2023, 12)
        .decorate_day(date(2023, 12, 1), green.clone())
        .decorate_day(date(2024, 1, 1), green.clone())
        .decorate_day(date(2023, 12, 1), bold.clone());
    assert_eq!(calendar.decorated_days.len(), 1);
    assert_eq!(calendar.decorated_days[0].0, date(2023, 12, 1));
    assert_eq!(calendar.decorated_days[0].1, green.clone() + bold.clone());
    assert_eq!(
        date(2023, 12, 1).to_display_on_calendar(&calendar, None).as_str(),
        "\u{1b}[38;5;10m\u{1b}[1m 1\u{1b}[22m\u{1b}[39m"
    );
    assert_eq!(date(2023, 12, 1).get_modifier(&calendar, None), &(green + bold));
    assert_eq!(date(2023, 12, 4).get_modifier(&calendar, None), &Modifier::Nothing);
    assert_eq!(date(2024, 1, 1).to_display_on_calendar(&calendar, None).as_str(), "  ");
    // A holiday that is decorated shows its own look.
    let calendar = calendar.decorate_day(date(2023, 12, 25), Modifier::Nothing);
    assert_eq!(date(2023, 12, 25).to_display_on_calendar(&calendar, None).as_str(), "25");
}

#[test]
fn steps_simple_range() {
    let range = date(2023, 1, 1)..date(2023, 1, 5);
    let mut steps = range.into_iter_by_duration(1);
    let mut found = Vec::new();
    while let Some(day) = steps.next() {
        found.push(day);
    }
    assert_eq!(found, vec![date(2023, 1, 1), date(2023, 1, 2), date(2023, 1, 3), date(2023, 1, 4)]);
}

#[test]
fn steps_simple_range_inclusive() {
    let range = std::ops::RangeInclusive::new(date(2023, 1, 1), date(2023, 1, 5));
    let mut steps = range.into_iter_by_duration(1);
    let mut found = Vec::new();
    while let Some(day) = steps.next() {
        found.push(day);
    }
    assert_eq!(
        found,
        vec![
            date(2023, 1, 1),
            date(2023, 1, 2),
            date(2023, 1, 3),
            date(2023, 1, 4),
            date(2023, 1, 5)
        ]
    );
}

#[test]
fn steps_of_several_days() {
    let mut steps = StepsOverRange::new(date(2023, 1, 30)..date(2023, 2, 20), 7);
    assert_eq!(steps.next(), Some(date(2023, 1, 30)));
    assert_eq!(steps.next(), Some(date(2023, 2, 6)));
    assert_eq!(steps.next(), Some(date(2023, 2, 13)));
    assert_eq!(steps.next(), None);
    let mut back = StepsOverRange::new(date(2023, 1, 30)..date(2023, 2, 20), -1);
    assert_eq!(back.next(), Some(date(2023, 1, 30)));
    assert_eq!(back.next(), None);
    let mut empty = StepsOverRange::new(date(2023, 1, 30)..date(2023, 1, 30), 1);
    assert_eq!(empty.next(), None);
    let mut one = StepsOverRange::new_inclusive(date(2023, 1, 30), date(2023, 1, 30), 1);
    assert_eq!(one.next(), Some(date(2023, 1, 30)));
    assert_eq!(one.next(), None);
}

#[test]
fn calendar_is_still() {
    let calendar = month(2023, 3);
    assert!(calendar.is_still());
    assert!(calendar.is_well_formed());
    let up = Modifier::MoveCursor(MoveCursor::Up(1));
    assert!(!month(2023, 3).modify_title(up.clone()).is_still());
    assert!(!month(2023, 3).modify_weekdays(up.clone()).is_still());
    assert!(!month(2023, 3).modify_holidays(up.clone()).is_still());
    assert!(!month(2023, 3).modify_other_months(up.clone()).is_still());
    assert!(!month(2023, 3).modify_today(Some(up.clone())).is_still());
    assert!(!month(2023, 3).decorate_day(date(2023, 3, 1), up.clone()).is_still());
    assert!(month(2023, 3).decorate_day(date(2023, 4, 1), up).is_still());
    let lines = calendar.lines(None);
    assert_eq!(lines.lines, calendar.to_lines(None));
}
