//! One month of the calendar, as rows of text.

use core::marker::PhantomData;
use vstd::prelude::*;
use vstd::utf8::*;
use crate::calendar::date::{days_in_month, Date, Weekday};
use crate::calendar::holidays::{HolidayList, Holidays};
use crate::calendar::regions::RegionMarker;
use crate::colour::Colour;
use crate::intensity::Intensity;
use crate::modifier::{Modifier, ModifierView};
use crate::text::{push_ascii, push_text};
use crate::wrap::{lemma_still_can_wrap, lemma_still_combined};

verus! {

/// A month of the calendar of the region `Region`, and how it is shown.
pub struct CalendarMonth<Region: RegionMarker> {
    /// The first day of the month.
    pub date: Date,
    region: PhantomData<Region>,
    /// The holidays of the region that fall in the month.
    pub(crate) holidays: Vec<Date>,
    /// The number of weeks that the month touches, as it was when the month was
    /// made.
    pub(crate) weeks_count: u32,
    /// The day with which each week starts.
    pub week_starts_with: Weekday,
    /// Whether the row of the days of the week is shown.
    pub show_title: bool,
    /// Whether the days of the months before and after are shown in the first and
    /// the last week.
    pub show_other_months: bool,
    /// Whether the days of the week are shown in capitals.
    pub capitalize_title: bool,
    /// Is put round the row of the days of the week.
    pub title_modifier: Modifier,
    /// Is put round the days of the months before and after.
    pub other_month_modifier: Modifier,
    /// Is put round a day that is nothing special.
    pub weekday_modifier: Modifier,
    /// Is put round Sundays and holidays.
    pub holiday_modifier: Modifier,
    /// Is put round today, if there is one; else today looks like any other day.
    pub today_modifier: Option<Modifier>,
    /// The days that were given a look of their own.  No day stands twice.
    pub decorated_days: Vec<(Date, Modifier)>,
}

/// What a [`CalendarMonth`] holds, as plain values.
pub struct CalendarView {
    pub date: Date,
    pub holidays: Seq<Date>,
    pub weeks_count: u32,
    pub week_starts_with: Weekday,
    pub show_title: bool,
    pub show_other_months: bool,
    pub capitalize_title: bool,
    pub title_modifier: ModifierView,
    pub other_month_modifier: ModifierView,
    pub weekday_modifier: ModifierView,
    pub holiday_modifier: ModifierView,
    pub today_modifier: Option<ModifierView>,
    pub decorated_days: Seq<(Date, ModifierView)>,
}

/// The days with their looks, as plain values.
pub open spec fn looks(days: Seq<(Date, Modifier)>) -> Seq<(Date, ModifierView)> {
    Seq::new(days.len(), |i: int| (days[i].0, days[i].1@))
}

/// The dates of `dates` that lie in the given month, in their order.
pub open spec fn in_month(dates: Seq<Date>, year: int, month: int) -> Seq<Date>
    decreases dates.len(),
{
    if dates.len() == 0 {
        Seq::empty()
    } else if dates.last().year == year && dates.last().month == month {
        in_month(dates.drop_last(), year, month).push(dates.last())
    } else {
        in_month(dates.drop_last(), year, month)
    }
}

/// The number of days from the start of the week to the given day of the week.
pub open spec fn days_between(start: Weekday, day: Weekday) -> int {
    (7 + day.number() - start.number()) % 7
}

/// The number of weeks that a month touches whose first day lies `offset` days after
/// the start of a week.
pub open spec fn weeks_touched(days: int, offset: int) -> int {
    (days + offset + 6) / 7
}

/// A number below 100 in two places, with a blank in front where it has one digit.
pub open spec fn two_places(n: int) -> Seq<u8> {
    if n < 10 {
        seq![0x20u8, (0x30 + n) as u8]
    } else {
        seq![(0x30 + n / 10) as u8, (0x30 + n % 10) as u8]
    }
}

/// Two blanks: a day that is not shown.
pub open spec fn blank() -> Seq<u8> {
    seq![0x20u8, 0x20u8]
}

/// The letter for a day of the week in the title.
pub open spec fn title_letter(day: Weekday, capitals: bool) -> u8 {
    if capitals {
        day.spec_initial()
    } else {
        (day.spec_initial() + 0x20) as u8
    }
}

/// The first `n` days of the week in the title, from `start` on: each a blank and its
/// letter, with a blank between two of them.
pub open spec fn title_days(start: Weekday, capitals: bool, n: nat) -> Seq<u8>
    decreases n,
{
    if n == 0 {
        Seq::empty()
    } else {
        let day = seq![0x20u8, title_letter(Weekday::at(start.number() + n - 1), capitals)];
        if n == 1 {
            day
        } else {
            title_days(start, capitals, (n - 1) as nat).push(0x20u8) + day
        }
    }
}

impl CalendarView {
    /// True when `date` lies in the month.
    pub open spec fn contains(self, date: Date) -> bool {
        self.date.month == date.month && self.date.year == date.year
    }

    /// The number of days from the start of the week to `date`.
    pub open spec fn days_from_start_of_week(self, date: Date) -> int {
        days_between(self.week_starts_with, date.spec_weekday())
    }

    /// The number of the week of the month in which `date` lies, counted from 0, if
    /// it lies in the month.
    pub open spec fn week_number(self, date: Date) -> Option<int> {
        if self.contains(date) {
            Some((date.day + self.days_from_start_of_week(self.date) - 1) / 7)
        } else {
            None
        }
    }

    /// The number of weeks that the month touches.
    pub open spec fn weeks(self) -> int {
        weeks_touched(
            days_in_month(self.date.year as int, self.date.month as int),
            self.days_from_start_of_week(self.date),
        )
    }

    /// Where the look of `date` stands among the first `n` of the days that were
    /// given one, if it stands there.
    pub open spec fn position(self, date: Date, n: nat) -> Option<int>
        decreases n,
    {
        if n == 0 {
            None
        } else {
            match self.position(date, (n - 1) as nat) {
                Some(k) => Some(k),
                None => if n <= self.decorated_days.len() && self.decorated_days[n - 1].0 == date {
                    Some(n - 1)
                } else {
                    None
                },
            }
        }
    }

    /// The look that was given to `date`, if one was.
    pub open spec fn decoration(self, date: Date) -> Option<ModifierView> {
        match self.position(date, self.decorated_days.len()) {
            Some(k) => Some(self.decorated_days[k].1),
            None => None,
        }
    }

    /// The days with their looks after `date` was given the look `modifier`: where
    /// the day lies outside the month nothing changes; where it has a look already,
    /// `modifier` is put after that; else the day is added with `modifier` as its
    /// look.
    pub open spec fn decorated(self, date: Date, modifier: ModifierView) -> Seq<
        (Date, ModifierView),
    > {
        if !self.contains(date) {
            self.decorated_days
        } else {
            match self.position(date, self.decorated_days.len()) {
                Some(k) => self.decorated_days.update(
                    k,
                    (date, self.decorated_days[k].1.combined(modifier)),
                ),
                None => self.decorated_days.push((date, modifier)),
            }
        }
    }

    /// What is put round `date`: the modifier for today where `date` is today and
    /// there is one; else that for other months where `date` lies outside the month;
    /// else its own look where it was given one; else that for holidays where it is a
    /// Sunday or a holiday; else that for any day.
    pub open spec fn modifier_of(self, date: Date, today: Option<Date>) -> ModifierView {
        if today == Some(date) && self.today_modifier is Some {
            self.today_modifier->0
        } else if !self.contains(date) {
            self.other_month_modifier
        } else if self.decoration(date) is Some {
            self.decoration(date)->0
        } else if date.spec_weekday() == Weekday::Sun || self.holidays.contains(date) {
            self.holiday_modifier
        } else {
            self.weekday_modifier
        }
    }

    /// A day as it is shown: two blanks where it lies outside the month and other
    /// months are not shown; else its number in two places, with its modifier round
    /// it.
    pub open spec fn day_shown(self, date: Date, today: Option<Date>) -> Seq<u8> {
        if !self.show_other_months && !self.contains(date) {
            blank()
        } else {
            self.modifier_of(date, today).wrapped(two_places(date.day as int))
        }
    }

    /// The day in the given week and column, if the calendar has it.
    pub open spec fn day_at(self, week: int, column: int) -> Option<Date> {
        self.date.spec_plus(7 * week + column - self.days_from_start_of_week(self.date))
    }

    /// What stands in the given week and column: the day as it is shown, or two
    /// blanks where the calendar has no such day.
    pub open spec fn cell(self, week: int, column: int, today: Option<Date>) -> Seq<u8> {
        match self.day_at(week, column) {
            Some(date) => self.day_shown(date, today),
            None => blank(),
        }
    }

    /// The first `n` days of a week as they are shown, with a blank between two of
    /// them.
    pub open spec fn week_shown(self, week: int, n: nat, today: Option<Date>) -> Seq<u8>
        decreases n,
    {
        if n == 0 {
            Seq::empty()
        } else if n == 1 {
            self.cell(week, 0, today)
        } else {
            self.week_shown(week, (n - 1) as nat, today).push(0x20u8) + self.cell(
                week,
                n - 1,
                today,
            )
        }
    }

    /// The row of the days of the week, with its modifier round it.
    pub open spec fn title(self) -> Seq<u8> {
        self.title_modifier.wrapped(title_days(self.week_starts_with, self.capitalize_title, 7))
    }

    /// The first `n` weeks as they are shown.
    pub open spec fn weeks_shown(self, n: nat, today: Option<Date>) -> Seq<Seq<u8>>
        decreases n,
    {
        if n == 0 {
            Seq::empty()
        } else {
            self.weeks_shown((n - 1) as nat, today).push(self.week_shown(n - 1, 7, today))
        }
    }

    /// The month as it is shown: the title, where it is wanted, and a row for each
    /// week that the month touches.
    pub open spec fn rows(self, today: Option<Date>) -> Seq<Seq<u8>> {
        let weeks = self.weeks_shown(self.weeks() as nat, today);
        if self.show_title {
            seq![self.title()] + weeks
        } else {
            weeks
        }
    }

    /// True when none of the modifiers moves the cursor.
    pub open spec fn still(self) -> bool {
        &&& !self.title_modifier.moves_cursor()
        &&& !self.other_month_modifier.moves_cursor()
        &&& !self.weekday_modifier.moves_cursor()
        &&& !self.holiday_modifier.moves_cursor()
        &&& self.today_modifier matches Some(m) ==> !m.moves_cursor()
        &&& forall|i: int|
            0 <= i < self.decorated_days.len() ==> !(#[trigger] self.decorated_days[i]).1.moves_cursor()
    }

    /// True when the month starts at the first day of a month that the calendar has.
    pub open spec fn well_formed(self) -> bool {
        &&& self.date.on_calendar()
        &&& self.date.day == 1
    }
}

impl<Region: RegionMarker> View for CalendarMonth<Region> {
    type V = CalendarView;

    closed spec fn view(&self) -> CalendarView {
        CalendarView {
            date: self.date,
            holidays: self.holidays@,
            weeks_count: self.weeks_count,
            week_starts_with: self.week_starts_with,
            show_title: self.show_title,
            show_other_months: self.show_other_months,
            capitalize_title: self.capitalize_title,
            title_modifier: self.title_modifier@,
            other_month_modifier: self.other_month_modifier@,
            weekday_modifier: self.weekday_modifier@,
            holiday_modifier: self.holiday_modifier@,
            today_modifier: match self.today_modifier {
                Some(m) => Some(m@),
                None => None,
            },
            decorated_days: looks(self.decorated_days@),
        }
    }
}

/// Writes a number below 100 in two places.
pub fn push_two_places(out: &mut String, n: u32)
    requires
        n < 100,
    ensures
        encode_utf8(final(out)@) == encode_utf8(old(out)@) + two_places(n as int),
{
    if n < 10 {
        push_ascii(out, 0x20);
        push_ascii(out, 0x30 + n as u8);
    } else {
        push_ascii(out, 0x30 + (n / 10) as u8);
        push_ascii(out, 0x30 + (n % 10) as u8);
    }
    proof {
        assert(encode_utf8(out@) =~= encode_utf8(old(out)@) + two_places(n as int));
    }
}

/// The number of days from the start of the week to the given day of the week.
pub fn count_days_between(start: Weekday, day: Weekday) -> (r: u32)
    ensures
        r == days_between(start, day),
        r < 7,
{
    (7 + day.num_days_from_monday() - start.num_days_from_monday()) % 7
}


/// The look of a day that is nothing special, as a month is made with.
pub open spec fn default_weekday_modifier() -> ModifierView {
    ModifierView::Nothing
}

/// The look of the title, as a month is made with: bold.
pub open spec fn default_title_modifier() -> ModifierView {
    ModifierView::Intensity(Intensity::Bold)
}

/// The look of Sundays and holidays, as a month is made with: bright red and bold.
pub open spec fn default_holiday_modifier() -> ModifierView {
    ModifierView::Combo(
        seq![ModifierView::Colour(Colour::Palette(9)), ModifierView::Intensity(Intensity::Bold)],
    )
}

/// The look of the days of other months, as a month is made with: a grey.
pub open spec fn default_other_month_modifier() -> ModifierView {
    ModifierView::Colour(Colour::Palette(245))
}

/// The dates of `dates` that lie in the month of `first`.
fn keep_in_month(dates: Vec<Date>, first: &Date) -> (r: Vec<Date>)
    ensures
        r@ == in_month(dates@, first.year as int, first.month as int),
{
    let mut kept: Vec<Date> = Vec::new();
    let mut i: usize = 0;
    assert(dates@.subrange(0, 0) =~= Seq::<Date>::empty());
    while i < dates.len()
        invariant
            i <= dates.len(),
            kept@ == in_month(dates@.subrange(0, i as int), first.year as int, first.month as int),
        decreases dates.len() - i,
    {
        let date = dates[i];
        proof {
            let upto = dates@.subrange(0, i + 1);
            assert(upto.drop_last() =~= dates@.subrange(0, i as int));
            assert(upto.last() == date);
        }
        if date.year == first.year && date.month == first.month {
            kept.push(date);
        }
        i = i + 1;
    }
    assert(dates@.subrange(0, dates.len() as int) =~= dates@);
    kept
}

impl<Region: RegionMarker> CalendarMonth<Region> {
    /// The month in which `month` lies, shown as the region has it: with its
    /// holidays, its first day of the week or else Monday, a bold title, holidays in
    /// bright red and bold, and the days of other months left out.
    pub fn new(month: Date) -> (r: Self)
        requires
            month.on_calendar(),
            Region::has_calendar(month.year as int),
        ensures
            r@ == (CalendarView {
                date: Date { year: month.year, month: month.month, day: 1 },
                holidays: in_month(
                    Region::holidays(month.year as int),
                    month.year as int,
                    month.month as int,
                ),
                weeks_count: r@.weeks() as u32,
                week_starts_with: match Region::spec_starts_week_with() {
                    Some(day) => day,
                    None => Weekday::Mon,
                },
                show_title: true,
                show_other_months: false,
                capitalize_title: true,
                title_modifier: default_title_modifier(),
                other_month_modifier: default_other_month_modifier(),
                weekday_modifier: default_weekday_modifier(),
                holiday_modifier: default_holiday_modifier(),
                today_modifier: None,
                decorated_days: Seq::empty(),
            }),
            r@.well_formed(),
            r@.still(),
    {
        let date = month.first_of_month();
        let week_starts_with = match Region::starts_week_with() {
            Some(day) => day,
            None => Weekday::Mon,
        };
        let holidays = keep_in_month(Holidays::<Region>::list(date.year), &date);
        let offset = count_days_between(week_starts_with, date.weekday());
        let weeks_count = (date.days_of_month() + offset + 6) / 7;
        let holiday_modifier = Modifier::Colour(Colour::Palette(9)) + Modifier::Intensity(
            Intensity::Bold,
        );
        let decorated_days: Vec<(Date, Modifier)> = Vec::new();
        proof {
            let red = ModifierView::Colour(Colour::Palette(9));
            let bold = ModifierView::Intensity(Intensity::Bold);
            lemma_still_combined(red, bold);
            assert(red.combined(bold)->Combo_0 =~= default_holiday_modifier()->Combo_0);
            assert(looks(decorated_days@) =~= Seq::<(Date, ModifierView)>::empty());
        }
        CalendarMonth {
            date,
            region: PhantomData,
            holidays,
            weeks_count,
            week_starts_with,
            show_title: true,
            show_other_months: false,
            capitalize_title: true,
            title_modifier: Modifier::Intensity(Intensity::Bold),
            other_month_modifier: Modifier::Colour(Colour::Palette(245)),
            weekday_modifier: Modifier::Nothing,
            holiday_modifier,
            today_modifier: None,
            decorated_days,
        }
    }

    /// Sets what is put round the title.
    pub fn modify_title(self, value: Modifier) -> (r: Self)
        ensures
            r@ == (CalendarView { title_modifier: value@, ..self@ }),
    {
        let mut month = self;
        month.title_modifier = value;
        month
    }

    /// Sets what is put round a day that is nothing special.
    pub fn modify_weekdays(self, value: Modifier) -> (r: Self)
        ensures
            r@ == (CalendarView { weekday_modifier: value@, ..self@ }),
    {
        let mut month = self;
        month.weekday_modifier = value;
        month
    }

    /// Sets what is put round Sundays and holidays.
    pub fn modify_holidays(self, value: Modifier) -> (r: Self)
        ensures
            r@ == (CalendarView { holiday_modifier: value@, ..self@ }),
    {
        let mut month = self;
        month.holiday_modifier = value;
        month
    }

    /// Sets what is put round today, or that today looks like any other day.
    pub fn modify_today(self, value: Option<Modifier>) -> (r: Self)
        ensures
            r@ == (CalendarView {
                today_modifier: match value {
                    Some(m) => Some(m@),
                    None => None,
                },
                ..self@
            }),
    {
        let mut month = self;
        month.today_modifier = value;
        month
    }

    /// Sets what is put round the days of the months before and after.
    pub fn modify_other_months(self, value: Modifier) -> (r: Self)
        ensures
            r@ == (CalendarView { other_month_modifier: value@, ..self@ }),
    {
        let mut month = self;
        month.other_month_modifier = value;
        month
    }

    /// Sets the day with which each week starts.  The number of weeks that was
    /// counted when the month was made stays as it is.
    pub fn starts_week_with(self, value: Weekday) -> (r: Self)
        ensures
            r@ == (CalendarView { week_starts_with: value, ..self@ }),
    {
        let mut month = self;
        month.week_starts_with = value;
        month
    }

    /// Sets whether the days of the week are shown in capitals.
    pub fn capitalize_title(self, value: bool) -> (r: Self)
        ensures
            r@ == (CalendarView { capitalize_title: value, ..self@ }),
    {
        let mut month = self;
        month.capitalize_title = value;
        month
    }

    /// Sets whether the row of the days of the week is shown.
    pub fn show_title(self, value: bool) -> (r: Self)
        ensures
            r@ == (CalendarView { show_title: value, ..self@ }),
    {
        let mut month = self;
        month.show_title = value;
        month
    }

    /// Sets whether the days of the months before and after are shown.
    pub fn show_other_months(self, value: bool) -> (r: Self)
        ensures
            r@ == (CalendarView { show_other_months: value, ..self@ }),
    {
        let mut month = self;
        month.show_other_months = value;
        month
    }

    /// Tells whether `date` lies in the month.
    pub fn contains(&self, date: &Date) -> (r: bool)
        ensures
            r == self@.contains(*date),
    {
        self.date.month == date.month && self.date.year == date.year
    }

    /// Finds where the look of `date` stands.
    fn position_of(&self, date: &Date) -> (r: Option<usize>)
        ensures
            match r {
                Some(k) => self@.position(*date, self@.decorated_days.len()) == Some(k as int) && k
                    < self.decorated_days.len() && self.decorated_days@[k as int].0 == *date,
                None => self@.position(*date, self@.decorated_days.len()) is None,
            },
    {
        let mut i: usize = 0;
        while i < self.decorated_days.len()
            invariant
                i <= self.decorated_days.len(),
                self@.decorated_days.len() == self.decorated_days.len(),
                self@.position(*date, i as nat) is None,
            decreases self.decorated_days.len() - i,
        {
            if self.decorated_days[i].0 == *date {
                proof {
                    self@.lemma_position_stays(*date, (i + 1) as nat, self@.decorated_days.len());
                }
                return Some(i);
            }
            i = i + 1;
        }
        None
    }

    /// Gives `date` a look of its own, if it lies in the month.  Where it has a look
    /// already, `modifier` is put after that.
    pub fn decorate_day(self, date: Date, modifier: Modifier) -> (r: Self)
        ensures
            r@ == (CalendarView { decorated_days: self@.decorated(date, modifier@), ..self@ }),
    {
        if !self.contains(&date) {
            return self;
        }
        let found = self.position_of(&date);
        let mut month = self;
        match found {
            Some(k) => {
                let (day, look) = month.decorated_days.remove(k);
                let ghost before = look@;
                let joined = look + modifier;
                month.decorated_days.insert(k, (day, joined));
                proof {
                    assert(looks(month.decorated_days@) =~= self@.decorated_days.update(
                        k as int,
                        (date, before.combined(modifier@)),
                    ));
                }
            },
            None => {
                let ghost look = modifier@;
                month.decorated_days.push((date, modifier));
                proof {
                    assert(looks(month.decorated_days@) =~= self@.decorated_days.push((date, look)));
                }
            },
        }
        month
    }

    /// The number of days from the start of the week to `date`.
    pub fn num_days_from_start_of_week(&self, date: &Date) -> (r: u32)
        requires
            date.on_calendar(),
        ensures
            r == self@.days_from_start_of_week(*date),
            r < 7,
    {
        count_days_between(self.week_starts_with, date.weekday())
    }

    /// The number of the week of the month in which `date` lies, counted from 0, if
    /// it lies in the month.
    pub fn week_number_of(&self, date: &Date) -> (r: Option<u32>)
        requires
            self@.well_formed(),
            date.on_calendar(),
        ensures
            match r {
                Some(week) => self@.week_number(*date) == Some(week as int),
                None => self@.week_number(*date) is None,
            },
    {
        if self.contains(date) {
            let first = Date { year: self.date.year, month: self.date.month, day: 1 };
            let offset = self.num_days_from_start_of_week(&first);
            Some((date.day + offset - 1) / 7)
        } else {
            None
        }
    }

    /// The number of weeks that the month touches, as it was counted when the month
    /// was made.
    pub fn weeks_count(&self) -> (r: u32)
        ensures
            r == self@.weeks_count,
    {
        self.weeks_count
    }
}

impl CalendarView {
    /// Where a look is found among the first days, it is found among more of them at
    /// the same place.
    pub proof fn lemma_position_stays(self, date: Date, n: nat, m: nat)
        requires
            self.position(date, n) is Some,
            n <= m,
        ensures
            self.position(date, m) == self.position(date, n),
        decreases m,
    {
        if n < m {
            self.lemma_position_stays(date, n, (m - 1) as nat);
        }
    }
}


/// Tells whether `date` is one of `dates`.
pub fn has_date(dates: &Vec<Date>, date: &Date) -> (r: bool)
    ensures
        r == dates@.contains(*date),
{
    let mut i: usize = 0;
    while i < dates.len()
        invariant
            i <= dates.len(),
            forall|j: int| 0 <= j < i ==> dates@[j] != *date,
        decreases dates.len() - i,
    {
        if dates[i] == *date {
            return true;
        }
        i = i + 1;
    }
    false
}

impl CalendarView {
    /// Where no modifier moves the cursor, what is put round a day does not either.
    pub proof fn lemma_modifier_of_still(self, date: Date, today: Option<Date>)
        requires
            self.still(),
        ensures
            !self.modifier_of(date, today).moves_cursor(),
    {
        if let Some(k) = self.position(date, self.decorated_days.len()) {
            self.lemma_position_inside(date, self.decorated_days.len());
            assert(!self.decorated_days[k].1.moves_cursor());
        }
    }

    /// A look that is found stands among the days that were given one.
    pub proof fn lemma_position_inside(self, date: Date, n: nat)
        requires
            self.position(date, n) is Some,
        ensures
            0 <= self.position(date, n)->0 < n,
            self.position(date, n)->0 < self.decorated_days.len(),
            self.decorated_days[self.position(date, n)->0].0 == date,
        decreases n,
    {
        if n > 0 && self.position(date, (n - 1) as nat) is Some {
            self.lemma_position_inside(date, (n - 1) as nat);
        }
    }

    /// Where no modifier moves the cursor and `modifier` does not, no modifier does
    /// after a day was given `modifier` as its look.
    pub proof fn law_decorated_still(self, date: Date, modifier: ModifierView)
        requires
            self.still(),
            !modifier.moves_cursor(),
        ensures
            (CalendarView { decorated_days: self.decorated(date, modifier), ..self }).still(),
    {
        let after = self.decorated(date, modifier);
        if self.contains(date) {
            match self.position(date, self.decorated_days.len()) {
                Some(k) => {
                    self.lemma_position_inside(date, self.decorated_days.len());
                    lemma_still_combined(self.decorated_days[k].1, modifier);
                    assert forall|i: int| 0 <= i < after.len() implies !(#[trigger] after[i]).1.moves_cursor() by {
                        if i != k {
                            assert(after[i] == self.decorated_days[i]);
                        }
                    }
                },
                None => {
                    assert forall|i: int| 0 <= i < after.len() implies !(#[trigger] after[i]).1.moves_cursor() by {
                        if i < self.decorated_days.len() {
                            assert(after[i] == self.decorated_days[i]);
                        }
                    }
                },
            }
        }
    }
}

impl<Region: RegionMarker> CalendarMonth<Region> {
    /// What is put round `date`.
    pub fn modifier_for<'a>(&'a self, date: &Date, today: Option<Date>) -> (r: &'a Modifier)
        requires
            date.on_calendar(),
        ensures
            r@ == self@.modifier_of(*date, today),
    {
        if let Some(now) = today {
            if now == *date {
                if let Some(m) = &self.today_modifier {
                    return m;
                }
            }
        }
        if !self.contains(date) {
            return &self.other_month_modifier;
        }
        if let Some(k) = self.position_of(date) {
            return &self.decorated_days[k].1;
        }
        if date.weekday() == Weekday::Sun || has_date(&self.holidays, date) {
            return &self.holiday_modifier;
        }
        &self.weekday_modifier
    }

    /// A day as it is shown.
    pub fn shown_day(&self, date: &Date, today: Option<Date>) -> (r: String)
        requires
            date.on_calendar(),
            self@.still(),
        ensures
            encode_utf8(r@) == self@.day_shown(*date, today),
    {
        let mut number = String::new();
        if !self.show_other_months && !self.contains(date) {
            push_ascii(&mut number, 0x20);
            push_ascii(&mut number, 0x20);
            assert(encode_utf8(number@) =~= blank());
            number
        } else {
            let modifier = self.modifier_for(date, today);
            push_two_places(&mut number, date.day);
            proof {
                assert(encode_utf8(number@) =~= two_places(date.day as int));
                self@.lemma_modifier_of_still(*date, today);
                lemma_still_can_wrap(modifier@, two_places(date.day as int), None);
            }
            modifier.wraps(number.as_str())
        }
    }

    /// The row of the days of the week.
    pub fn title(&self) -> (r: String)
        requires
            self@.still(),
        ensures
            encode_utf8(r@) == self@.title(),
    {
        let mut text = String::new();
        let mut day = self.week_starts_with;
        let mut k: u8 = 0;
        assert(encode_utf8(text@) =~= title_days(self.week_starts_with, self.capitalize_title, 0));
        while k < 7
            invariant
                k <= 7,
                day == Weekday::at(self.week_starts_with.number() + k),
                encode_utf8(text@) == title_days(
                    self.week_starts_with,
                    self.capitalize_title,
                    k as nat,
                ),
            decreases 7 - k,
        {
            let ghost before = encode_utf8(text@);
            if k > 0 {
                push_ascii(&mut text, 0x20);
            }
            push_ascii(&mut text, 0x20);
            let letter = if self.capitalize_title {
                day.initial()
            } else {
                day.initial() + 0x20
            };
            push_ascii(&mut text, letter);
            proof {
                let cell = seq![0x20u8, title_letter(day, self.capitalize_title)];
                if k > 0 {
                    assert(encode_utf8(text@) =~= before.push(0x20u8) + cell);
                } else {
                    assert(encode_utf8(text@) =~= cell);
                }
            }
            day = day.succ();
            k = k + 1;
        }
        proof {
            lemma_still_can_wrap(self@.title_modifier, encode_utf8(text@), None);
        }
        self.title_modifier.wraps(text.as_str())
    }

    /// One week as it is shown.
    pub fn shown_week(&self, week: u32, today: Option<Date>) -> (r: String)
        requires
            self@.well_formed(),
            self@.still(),
            week < 6,
        ensures
            encode_utf8(r@) == self@.week_shown(week as int, 7, today),
    {
        let offset = self.num_days_from_start_of_week(&self.date);
        let mut row = String::new();
        let mut column: u32 = 0;
        assert(encode_utf8(row@) =~= self@.week_shown(week as int, 0, today));
        while column < 7
            invariant
                column <= 7,
                week < 6,
                self@.well_formed(),
                self@.still(),
                offset == self@.days_from_start_of_week(self.date),
                self.date == self@.date,
                encode_utf8(row@) == self@.week_shown(week as int, column as nat, today),
            decreases 7 - column,
        {
            let ghost before = encode_utf8(row@);
            if column > 0 {
                push_ascii(&mut row, 0x20);
            }
            let days: i64 = 7 * (week as i64) + (column as i64) - (offset as i64);
            match self.date.plus_days(days) {
                Some(date) => {
                    let shown = self.shown_day(&date, today);
                    push_text(&mut row, shown.as_str());
                },
                None => {
                    push_ascii(&mut row, 0x20);
                    push_ascii(&mut row, 0x20);
                },
            }
            proof {
                let cell = self@.cell(week as int, column as int, today);
                if column > 0 {
                    assert(encode_utf8(row@) =~= before.push(0x20u8) + cell);
                } else {
                    assert(encode_utf8(row@) =~= cell);
                }
            }
            column = column + 1;
        }
        row
    }

    /// The month as it is shown, row by row.  `today` is the day that is shown as
    /// today, if any.
    pub fn to_lines(&self, today: Option<Date>) -> (r: Vec<String>)
        requires
            self@.well_formed(),
            self@.still(),
        ensures
            crate::lines::texts_of(r@) == self@.rows(today),
    {
        let mut rows: Vec<String> = Vec::new();
        if self.show_title {
            rows.push(self.title());
        }
        let ghost head = crate::lines::texts_of(rows@);
        let offset = self.num_days_from_start_of_week(&self.date);
        let weeks = (self.date.days_of_month() + offset + 6) / 7;
        let mut week: u32 = 0;
        proof {
            if self.show_title {
                assert(head =~= seq![self@.title()]);
            } else {
                assert(head =~= Seq::<Seq<u8>>::empty());
            }
            assert(head + self@.weeks_shown(0, today) =~= head);
        }
        while week < weeks
            invariant
                week <= weeks <= 6,
                self@.well_formed(),
                self@.still(),
                weeks == self@.weeks(),
                crate::lines::texts_of(rows@) == head + self@.weeks_shown(week as nat, today),
            decreases weeks - week,
        {
            let ghost sofar = crate::lines::texts_of(rows@);
            let row = self.shown_week(week, today);
            let ghost shown = encode_utf8(row@);
            rows.push(row);
            proof {
                assert(crate::lines::texts_of(rows@) =~= sofar.push(shown));
                assert(head + self@.weeks_shown(week as nat, today).push(shown) =~= sofar.push(
                    shown,
                ));
            }
            week = week + 1;
        }
        rows
    }

    /// The column and the week in which `date` stands, if it lies in the month.
    pub fn col_row_of(&self, date: &Date) -> (r: Option<(u32, u32)>)
        requires
            self@.well_formed(),
            date.on_calendar(),
        ensures
            match r {
                Some((column, week)) => self@.week_number(*date) == Some(week as int) && column
                    == self@.days_from_start_of_week(*date),
                None => self@.week_number(*date) is None,
            },
    {
        match self.week_number_of(date) {
            Some(week) => Some((self.num_days_from_start_of_week(date), week)),
            None => None,
        }
    }
}

/// For what holds dates.
pub trait ContainsDate {
    /// True when `date` lies in `self`.
    spec fn spec_contains(&self, date: Date) -> bool;

    /// Tells whether `date` lies in `self`.
    fn contains(&self, date: &Date) -> (r: bool)
        ensures
            r == self.spec_contains(*date),
    ;
}

impl<Region: RegionMarker> ContainsDate for CalendarMonth<Region> {
    open spec fn spec_contains(&self, date: Date) -> bool {
        self@.contains(date)
    }

    fn contains(&self, date: &Date) -> (r: bool) {
        self.date.month == date.month && self.date.year == date.year
    }
}


impl<Region: RegionMarker> CalendarMonth<Region> {
    /// The month as it is shown, as lines that can be given a title, a prefix and a
    /// look of their own.
    pub fn lines(&self, today: Option<Date>) -> (r: crate::lines::Lines)
        requires
            self@.well_formed(),
            self@.still(),
        ensures
            r@ == (crate::lines::LinesView {
                title: None,
                lines: self@.rows(today),
                title_prefix: None,
                prefix: Seq::empty(),
                title_modifier: None,
                lines_modifier: ModifierView::Nothing,
                spacing: 1,
            }),
    {
        crate::lines::Lines::new(self.to_lines(today))
    }
}


impl<Region: RegionMarker> CalendarMonth<Region> {
    /// Tells whether none of the modifiers moves the cursor.
    pub fn is_still(&self) -> (r: bool)
        ensures
            r == self@.still(),
    {
        if self.title_modifier.moves_cursor() || self.other_month_modifier.moves_cursor()
            || self.weekday_modifier.moves_cursor() || self.holiday_modifier.moves_cursor() {
            return false;
        }
        if let Some(m) = &self.today_modifier {
            if m.moves_cursor() {
                return false;
            }
        }
        let mut i: usize = 0;
        while i < self.decorated_days.len()
            invariant
                i <= self.decorated_days.len(),
                self@.decorated_days.len() == self.decorated_days.len(),
                forall|j: int| 0 <= j < i ==> !(#[trigger] self@.decorated_days[j]).1.moves_cursor(),
            decreases self.decorated_days.len() - i,
        {
            if self.decorated_days[i].1.moves_cursor() {
                assert(self@.decorated_days[i as int].1.moves_cursor());
                return false;
            }
            i = i + 1;
        }
        true
    }

    /// Tells whether the month starts at the first day of a month that the calendar
    /// has.
    pub fn is_well_formed(&self) -> (r: bool)
        ensures
            r == self@.well_formed(),
    {
        self.date.day == 1 && Date::from_ymd_opt(self.date.year, self.date.month, self.date.day).is_some()
    }
}

} // verus!
