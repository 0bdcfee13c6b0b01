//! A calendar: years, months, weekdays, and the events that a user keeps.
use vstd::prelude::*;
use vstd::string::StringExecFns;

verus! {

/// What can go wrong in the calendar.
#[derive(Debug, PartialEq, Eq)]
pub enum CalError {
    /// No month has this number.
    MonthRange(u32),
    /// No weekday has this number.
    WeekdayRange(u32),
}

#[derive(Debug, Clone, Copy, PartialEq, Eq, Structural)]
pub enum Month {
    Jan,
    Feb,
    Mar,
    Apr,
    May,
    Jun,
    Jul,
    Aug,
    Sep,
    Oct,
    Nov,
    Dec,
}

#[derive(Debug, Clone, Copy, PartialEq, Eq, Structural)]
pub enum Weekday {
    Sun,
    Mon,
    Tue,
    Wed,
    Thu,
    Fri,
    Sat,
}

/// A year of the Gregorian calendar.
#[derive(Debug, Clone, Copy, PartialEq, Eq, Structural)]
pub struct Year(pub i32);

/// A year is a leap year if 4 divides it, unless 100 divides it and 400 does
/// not.
pub open spec fn leap_year(y: int) -> bool {
    y % 4 == 0 && (y % 100 != 0 || y % 400 == 0)
}

impl Year {
    pub fn is_leap(&self) -> (leap: bool)
        ensures
            leap == leap_year(self.0 as int),
    {
        let y = self.0;
        proof {
            // A remainder that rounds toward zero is zero where the
            // remainder that never goes below zero is.
            let n = y as int;
            assert(((-n) % 4 == 0) == (n % 4 == 0));
            assert(((-n) % 100 == 0) == (n % 100 == 0));
            assert(((-n) % 400 == 0) == (n % 400 == 0));
        }
        let by4 = y % 4 == 0;
        let by100 = y % 100 == 0;
        let by400 = y % 400 == 0;
        by4 && (!by100 || by400)
    }
}

impl Weekday {
    /// The number of the day in the week, from 0 for Sunday to 6 for
    /// Saturday.
    pub open spec fn number(self) -> int {
        match self {
            Weekday::Sun => 0,
            Weekday::Mon => 1,
            Weekday::Tue => 2,
            Weekday::Wed => 3,
            Weekday::Thu => 4,
            Weekday::Fri => 5,
            Weekday::Sat => 6,
        }
    }

    /// The weekday with this number.
    pub fn from_number(u: u32) -> (r: Result<Weekday, CalError>)
        ensures
            match r {
                Ok(w) => w.number() == u,
                Err(e) => u > 6 && e == CalError::WeekdayRange(u),
            },
    {
        Ok(
            match u {
                0 => Weekday::Sun,
                1 => Weekday::Mon,
                2 => Weekday::Tue,
                3 => Weekday::Wed,
                4 => Weekday::Thu,
                5 => Weekday::Fri,
                6 => Weekday::Sat,
                x => {
                    return Err(CalError::WeekdayRange(x));
                },
            },
        )
    }

    /// The number of the day in the week.
    pub fn index(&self) -> (n: u32)
        ensures
            n == self.number(),
    {
        match self {
            Weekday::Sun => 0,
            Weekday::Mon => 1,
            Weekday::Tue => 2,
            Weekday::Wed => 3,
            Weekday::Thu => 4,
            Weekday::Fri => 5,
            Weekday::Sat => 6,
        }
    }
}

impl Month {
    /// The number of the month in the year, from 1 for January to 12 for
    /// December.
    pub open spec fn number(self) -> int {
        match self {
            Month::Jan => 1,
            Month::Feb => 2,
            Month::Mar => 3,
            Month::Apr => 4,
            Month::May => 5,
            Month::Jun => 6,
            Month::Jul => 7,
            Month::Aug => 8,
            Month::Sep => 9,
            Month::Oct => 10,
            Month::Nov => 11,
            Month::Dec => 12,
        }
    }

    /// The month with this number; December for a number that no month has.
    pub open spec fn of_number(n: int) -> Month {
        if n == 1 {
            Month::Jan
        } else if n == 2 {
            Month::Feb
        } else if n == 3 {
            Month::Mar
        } else if n == 4 {
            Month::Apr
        } else if n == 5 {
            Month::May
        } else if n == 6 {
            Month::Jun
        } else if n == 7 {
            Month::Jul
        } else if n == 8 {
            Month::Aug
        } else if n == 9 {
            Month::Sep
        } else if n == 10 {
            Month::Oct
        } else if n == 11 {
            Month::Nov
        } else {
            Month::Dec
        }
    }

    /// The month after this one; after December comes January.
    pub open spec fn after(self) -> Month {
        Month::of_number(self.number() % 12 + 1)
    }

    /// The month before this one; before January comes December.
    pub open spec fn before(self) -> Month {
        Month::of_number((self.number() + 10) % 12 + 1)
    }

    /// The number of days of the month in a year that is a leap year or is
    /// not.
    pub open spec fn days(self, leap: bool) -> int {
        match self {
            Month::Feb => if leap {
                29
            } else {
                28
            },
            Month::Apr | Month::Jun | Month::Sep | Month::Nov => 30,
            _ => 31,
        }
    }

    /// The month with this number.
    pub fn from_number(u: u32) -> (r: Result<Month, CalError>)
        ensures
            match r {
                Ok(m) => m.number() == u,
                Err(e) => !(1 <= u <= 12) && e == CalError::MonthRange(u),
            },
    {
        Ok(
            match u {
                1 => Month::Jan,
                2 => Month::Feb,
                3 => Month::Mar,
                4 => Month::Apr,
                5 => Month::May,
                6 => Month::Jun,
                7 => Month::Jul,
                8 => Month::Aug,
                9 => Month::Sep,
                10 => Month::Oct,
                11 => Month::Nov,
                12 => Month::Dec,
                x => {
                    return Err(CalError::MonthRange(x));
                },
            },
        )
    }

    /// The month after this one.
    pub fn next(&self) -> (m: Month)
        ensures
            m == self.after(),
    {
        match self {
            Month::Dec => Month::Jan,
            Month::Jan => Month::Feb,
            Month::Feb => Month::Mar,
            Month::Mar => Month::Apr,
            Month::Apr => Month::May,
            Month::May => Month::Jun,
            Month::Jun => Month::Jul,
            Month::Jul => Month::Aug,
            Month::Aug => Month::Sep,
            Month::Sep => Month::Oct,
            Month::Oct => Month::Nov,
            Month::Nov => Month::Dec,
        }
    }

    /// The month before this one.
    pub fn prev(&self) -> (m: Month)
        ensures
            m == self.before(),
    {
        match self {
            Month::Feb => Month::Jan,
            Month::Mar => Month::Feb,
            Month::Apr => Month::Mar,
            Month::May => Month::Apr,
            Month::Jun => Month::May,
            Month::Jul => Month::Jun,
            Month::Aug => Month::Jul,
            Month::Sep => Month::Aug,
            Month::Oct => Month::Sep,
            Month::Nov => Month::Oct,
            Month::Dec => Month::Nov,
            Month::Jan => Month::Dec,
        }
    }

    /// The number of days of the month in `year`.
    pub fn day_count(&self, year: &Year) -> (d: u32)
        ensures
            d == self.days(leap_year(year.0 as int)),
    {
        match self {
            Month::Jan => 31,
            Month::Feb => if year.is_leap() {
                29
            } else {
                28
            },
            Month::Mar => 31,
            Month::Apr => 30,
            Month::May => 31,
            Month::Jun => 30,
            Month::Jul => 31,
            Month::Aug => 31,
            Month::Sep => 30,
            Month::Oct => 31,
            Month::Nov => 30,
            Month::Dec => 31,
        }
    }
}

/// A month is known by its number.
pub proof fn lemma_month_by_number(m: Month)
    ensures
        1 <= m.number() <= 12,
        Month::of_number(m.number()) == m,
{
}

/// Something to remember: on one day, on a day of some months of every year,
/// or on some weekdays of some months.
#[derive(Debug)]
pub enum Event {
    Single { description: String, year: Year, month: Month, day: u32 },
    Yearly { description: String, months: Vec<Month>, day: u32 },
    YearlyByWeekday { description: String, months: Vec<Month>, days: Vec<Weekday> },
}

/// What a user keeps: the events, and the names of the months and of the
/// weekdays.
#[derive(Debug)]
pub struct UserData {
    pub events: Vec<Event>,
    pub months: [String; 12],
    pub weekdays: [String; 7],
}

/// A day, and the data of the user whose calendar shows it.
#[derive(Debug)]
pub struct Date {
    pub year: Year,
    pub month: Month,
    pub day: u32,
    /// The weekday on which the month began.
    pub first_of_month: Weekday,
    pub user_data: UserData,
}

/// Whether `e` falls on day `day` of `month` in `year`. An event by weekday
/// falls on the days whose number leaves the number of one of its weekdays
/// when divided by 7.
pub open spec fn event_on(e: Event, year: Year, month: Month, day: u32) -> bool {
    match e {
        Event::Single { description, year: y, month: m, day: d } => y == year && m == month && d
            == day,
        Event::Yearly { description, months, day: d } => months@.contains(month) && d == day,
        Event::YearlyByWeekday { description, months, days } => months@.contains(month) && exists|
            k: int,
        |
            0 <= k < days@.len() && (#[trigger] days@[k]).number() == day % 7,
    }
}

/// Whether `month` is among `months`.
fn has_month(months: &Vec<Month>, month: Month) -> (found: bool)
    ensures
        found == months@.contains(month),
{
    let mut i: usize = 0;
    while i < months.len()
        invariant
            i <= months.len(),
            forall|k: int| 0 <= k < i ==> months@[k] != month,
        decreases months.len() - i,
    {
        if months[i] == month {
            return true;
        }
        i += 1;
    }
    false
}

/// Whether a weekday with this number is among `days`.
fn has_weekday(days: &Vec<Weekday>, number: u32) -> (found: bool)
    ensures
        found == exists|k: int| 0 <= k < days@.len() && (#[trigger] days@[k]).number() == number,
{
    let mut i: usize = 0;
    while i < days.len()
        invariant
            i <= days.len(),
            forall|k: int| 0 <= k < i ==> (#[trigger] days@[k]).number() != number,
        decreases days.len() - i,
    {
        if days[i].index() == number {
            return true;
        }
        i += 1;
    }
    false
}

impl Event {
    /// Whether the event falls on day `day` of `month` in `year`.
    pub fn falls_on(&self, year: Year, month: Month, day: u32) -> (on: bool)
        ensures
            on == event_on(*self, year, month, day),
    {
        match self {
            Event::Single { description: _, year: y, month: m, day: d } => *y == year && *m
                == month && *d == day,
            Event::Yearly { description: _, months, day: d } => has_month(months, month) && *d
                == day,
            Event::YearlyByWeekday { description: _, months, days } => has_month(months, month)
                && has_weekday(days, day % 7),
        }
    }
}

impl Date {
    /// The events that fall on day `check_day` of this date's month and
    /// year, in the order in which the user keeps them.
    pub fn get_events(&self, check_day: u32) -> (found: Vec<&Event>)
        ensures
            found@.map_values(|e: &Event| *e) == self.user_data.events@.filter(
                |e: Event| event_on(e, self.year, self.month, check_day),
            ),
    {
        let ghost pred = |e: Event| event_on(e, self.year, self.month, check_day);
        let ghost all = self.user_data.events@;
        let mut found: Vec<&Event> = Vec::new();
        let mut i: usize = 0;
        proof {
            reveal(Seq::filter);
            assert(all.take(0) =~= Seq::empty());
            assert(found@.map_values(|e: &Event| *e) =~= all.take(0).filter(pred));
        }
        while i < self.user_data.events.len()
            invariant
                i <= self.user_data.events.len(),
                all == self.user_data.events@,
                pred == |e: Event| event_on(e, self.year, self.month, check_day),
                found@.map_values(|e: &Event| *e) == all.take(i as int).filter(pred),
            decreases self.user_data.events.len() - i,
        {
            let e = &self.user_data.events[i];
            let ghost before = found@.map_values(|e: &Event| *e);
            proof {
                reveal(Seq::filter);
                assert(all.take(i as int + 1).drop_last() =~= all.take(i as int));
            }
            if e.falls_on(self.year, self.month, check_day) {
                found.push(e);
                assert(found@.map_values(|e: &Event| *e) =~= before.push(*e));
            }
            i += 1;
        }
        assert(all.take(i as int) =~= all);
        found
    }

    /// Keeps one more event, after the others.
    pub fn add_event(&mut self, e: Event)
        ensures
            final(self).user_data.events@ == old(self).user_data.events@.push(e),
            final(self).year == old(self).year,
            final(self).month == old(self).month,
            final(self).day == old(self).day,
            final(self).first_of_month == old(self).first_of_month,
            final(self).user_data.months == old(self).user_data.months,
            final(self).user_data.weekdays == old(self).user_data.weekdays,
    {
        self.user_data.events.push(e);
    }

    /// Takes event `idx` out and returns it; the last event takes its place.
    pub fn remove_event(&mut self, idx: usize) -> (e: Event)
        requires
            idx < old(self).user_data.events@.len(),
        ensures
            e == old(self).user_data.events@[idx as int],
            final(self).user_data.events@ == old(self).user_data.events@.update(
                idx as int,
                old(self).user_data.events@.last(),
            ).drop_last(),
            final(self).year == old(self).year,
            final(self).month == old(self).month,
            final(self).day == old(self).day,
            final(self).first_of_month == old(self).first_of_month,
            final(self).user_data.months == old(self).user_data.months,
            final(self).user_data.weekdays == old(self).user_data.weekdays,
    {
        self.user_data.events.swap_remove(idx)
    }

    /// The user's name for this date's month.
    pub fn month_string(&self) -> (name: &str)
        ensures
            name@ == self.user_data.months@[self.month.number() - 1]@,
    {
        match self.month {
            Month::Jan => self.user_data.months[0].as_str(),
            Month::Feb => self.user_data.months[1].as_str(),
            Month::Mar => self.user_data.months[2].as_str(),
            Month::Apr => self.user_data.months[3].as_str(),
            Month::May => self.user_data.months[4].as_str(),
            Month::Jun => self.user_data.months[5].as_str(),
            Month::Jul => self.user_data.months[6].as_str(),
            Month::Aug => self.user_data.months[7].as_str(),
            Month::Sep => self.user_data.months[8].as_str(),
            Month::Oct => self.user_data.months[9].as_str(),
            Month::Nov => self.user_data.months[10].as_str(),
            Month::Dec => self.user_data.months[11].as_str(),
        }
    }

    /// The user's name for a weekday.
    pub fn weekday_string(&self, w: &Weekday) -> (name: &str)
        ensures
            name@ == self.user_data.weekdays@[w.number()]@,
    {
        match w {
            Weekday::Sun => self.user_data.weekdays[0].as_str(),
            Weekday::Mon => self.user_data.weekdays[1].as_str(),
            Weekday::Tue => self.user_data.weekdays[2].as_str(),
            Weekday::Wed => self.user_data.weekdays[3].as_str(),
            Weekday::Thu => self.user_data.weekdays[4].as_str(),
            Weekday::Fri => self.user_data.weekdays[5].as_str(),
            Weekday::Sat => self.user_data.weekdays[6].as_str(),
        }
    }

    /// The user's names for the weekdays, from Sunday.
    pub fn weekday_strings(&self) -> (names: &[String; 7])
        ensures
            *names == self.user_data.weekdays,
    {
        &self.user_data.weekdays
    }
}

/// The month after the month before is the month itself, and so is the month
/// before the month after.
pub proof fn lemma_month_round(m: Month)
    ensures
        m.before().after() == m,
        m.after().before() == m,
{
}

/// The character of a digit.
pub open spec fn digit_char(d: int) -> char {
    if d == 0 {
        '0'
    } else if d == 1 {
        '1'
    } else if d == 2 {
        '2'
    } else if d == 3 {
        '3'
    } else if d == 4 {
        '4'
    } else if d == 5 {
        '5'
    } else if d == 6 {
        '6'
    } else if d == 7 {
        '7'
    } else if d == 8 {
        '8'
    } else {
        '9'
    }
}

/// A number in decimal digits, without leading zeros.
pub open spec fn decimal_text(n: nat) -> Seq<char>
    decreases n,
{
    if n < 10 {
        seq![digit_char(n as int)]
    } else {
        decimal_text(n / 10).push(digit_char((n % 10) as int))
    }
}

/// One digit as a text.
fn digit(d: u32) -> (s: &'static str)
    requires
        d < 10,
    ensures
        s@ == seq![digit_char(d as int)],
{
    proof {
        reveal_strlit("0");
        reveal_strlit("1");
        reveal_strlit("2");
        reveal_strlit("3");
        reveal_strlit("4");
        reveal_strlit("5");
        reveal_strlit("6");
        reveal_strlit("7");
        reveal_strlit("8");
        reveal_strlit("9");
    }
    let s = match d {
        0 => "0",
        1 => "1",
        2 => "2",
        3 => "3",
        4 => "4",
        5 => "5",
        6 => "6",
        7 => "7",
        8 => "8",
        _ => "9",
    };
    assert(s@ =~= seq![digit_char(d as int)]);
    s
}

/// A number in decimal digits.
pub fn decimal(n: u32) -> (s: String)
    ensures
        s@ == decimal_text(n as nat),
    decreases n,
{
    if n < 10 {
        String::from_str(digit(n))
    } else {
        let mut s = decimal(n / 10);
        s.append(digit(n % 10));
        assert(s@ =~= decimal_text(n as nat));
        s
    }
}

/// The first `n` of `names`, with `, ` between two of them.
pub open spec fn joined(names: Seq<Seq<char>>, n: int) -> Seq<char>
    decreases n,
{
    if n <= 0 {
        Seq::empty()
    } else {
        joined(names, n - 1) + (if n > 1 {
            seq![',', ' ']
        } else {
            Seq::empty()
        }) + names[n - 1]
    }
}

/// The user's names for `days`.
pub open spec fn weekday_names(days: Seq<Weekday>, names: Seq<String>) -> Seq<Seq<char>> {
    days.map_values(|w: Weekday| names[w.number()]@)
}

/// The line of an event: when it falls, ` | `, and what it is. An event of
/// one day shows the number of the day, an event by weekday the user's names
/// for its weekdays.
pub open spec fn event_line(e: Event, weekdays: Seq<String>) -> Seq<char> {
    match e {
        Event::Single { description, year, month, day } => decimal_text(day as nat) + seq![
            ' ',
            '|',
            ' ',
        ] + description@ + seq!['\n'],
        Event::Yearly { description, months, day } => decimal_text(day as nat) + seq![
            ' ',
            '|',
            ' ',
        ] + description@ + seq!['\n'],
        Event::YearlyByWeekday { description, months, days } => joined(
            weekday_names(days@, weekdays),
            days@.len() as int,
        ) + seq![' ', '|', ' '] + description@ + seq!['\n'],
    }
}

impl Event {
    /// The line of the event in the calendar of `ctx`.
    pub fn format(&self, ctx: &Date) -> (line: String)
        ensures
            line@ == event_line(*self, ctx.user_data.weekdays@),
    {
        proof {
            reveal_strlit(" | ");
            reveal_strlit("\n");
            reveal_strlit(", ");
            assert(" | "@ =~= seq![' ', '|', ' ']);
            assert("\n"@ =~= seq!['\n']);
            assert(", "@ =~= seq![',', ' ']);
        }
        let (mut line, description) = match self {
            Event::Single { description, year: _, month: _, day } => (decimal(*day), description),
            Event::Yearly { description, months: _, day } => (decimal(*day), description),
            Event::YearlyByWeekday { description, months: _, days } => {
                let ghost names = weekday_names(days@, ctx.user_data.weekdays@);
                let mut ws = String::new();
                let mut i: usize = 0;
                while i < days.len()
                    invariant
                        i <= days.len(),
                        names == weekday_names(days@, ctx.user_data.weekdays@),
                        ws@ == joined(names, i as int),
                        ", "@ == seq![',', ' '],
                    decreases days.len() - i,
                {
                    let ghost before = ws@;
                    if i > 0 {
                        ws.append(", ");
                    }
                    ws.append(ctx.weekday_string(&days[i]));
                    proof {
                        let sep = if i > 0 {
                            seq![',', ' ']
                        } else {
                            Seq::<char>::empty()
                        };
                        assert(ws@ =~= before + sep + names[i as int]);
                    }
                    i += 1;
                }
                (ws, description)
            },
        };
        let ghost when = line@;
        line.append(" | ");
        line.append(description.as_str());
        line.append("\n");
        assert(line@ =~= when + seq![' ', '|', ' '] + description@ + seq!['\n']);
        line
    }
}

/// What a cell of the calendar shows.
#[derive(Debug, Clone, Copy, PartialEq, Eq, Structural)]
pub enum CellKind {
    /// A day of the month before.
    Before,
    /// A day of the month.
    Plain,
    /// The day of the date.
    Today,
    /// A day of the month after.
    After,
}

/// One cell of the calendar.
#[derive(Debug, Clone, Copy, PartialEq, Eq, Structural)]
pub struct Cell {
    pub day: u32,
    pub kind: CellKind,
    /// Whether an event falls on the day. Days of other months are never
    /// marked.
    pub marked: bool,
    /// Whether the row ends behind this cell.
    pub ends_week: bool,
}

impl Date {
    /// Whether an event falls on day `day` of this date's month and year.
    pub open spec fn marked(self, day: u32) -> bool {
        self.user_data.events@.filter(|e: Event| event_on(e, self.year, self.month, day)).len()
            > 0
    }

    /// How many days of the month before the calendar shows: as many as
    /// there are weekdays before the one on which the month began.
    pub open spec fn shown_before(self) -> int {
        self.first_of_month.number()
    }

    /// The number of days of this date's month.
    pub open spec fn month_days(self) -> int {
        self.month.days(leap_year(self.year.0 as int))
    }

    /// The number of days of the month before, in this date's year.
    pub open spec fn days_before(self) -> int {
        self.month.before().days(leap_year(self.year.0 as int))
    }

    /// How many days of the month after the calendar shows: as many as fill
    /// the last row, and a whole row where the month ends a row.
    pub open spec fn shown_after(self) -> int {
        7 - (self.shown_before() + self.month_days()) % 7
    }

    /// The cell at place `i` among the days of the month before. The days
    /// shown run up to the last day but one of that month.
    pub open spec fn cell_before(self, i: int) -> Cell {
        Cell {
            day: (self.days_before() - (self.shown_before() - i)) as u32,
            kind: CellKind::Before,
            marked: false,
            ends_week: false,
        }
    }

    /// The cell of day `i + 1` of the month.
    pub open spec fn cell_of(self, i: int) -> Cell {
        Cell {
            day: (i + 1) as u32,
            kind: if self.day == i + 1 {
                CellKind::Today
            } else {
                CellKind::Plain
            },
            marked: self.marked((i + 1) as u32),
            ends_week: (self.shown_before() + i + 1) % 7 == 0,
        }
    }

    /// The cell of day `i + 1` of the month after.
    pub open spec fn cell_after(self, i: int) -> Cell {
        Cell { day: (i + 1) as u32, kind: CellKind::After, marked: false, ends_week: false }
    }

    /// The cells of the calendar: the last days of the month before, the
    /// days of the month, and the first days of the month after.
    pub open spec fn cells_spec(self) -> Seq<Cell> {
        Seq::new(self.shown_before() as nat, |i: int| self.cell_before(i)) + Seq::new(
            self.month_days() as nat,
            |i: int| self.cell_of(i),
        ) + Seq::new(self.shown_after() as nat, |i: int| self.cell_after(i))
    }

    /// The cells of the calendar, row by row.
    pub fn cells(&self) -> (cells: Vec<Cell>)
        ensures
            cells@ == self.cells_spec(),
    {
        let prev_month = self.month.prev();
        let prev_month_count = prev_month.day_count(&self.year);
        let prev_appear_count = self.first_of_month.index();
        let this_month_count = self.month.day_count(&self.year);
        let ghost before = Seq::new(self.shown_before() as nat, |i: int| self.cell_before(i));
        let ghost month = Seq::new(self.month_days() as nat, |i: int| self.cell_of(i));
        let ghost after = Seq::new(self.shown_after() as nat, |i: int| self.cell_after(i));
        let mut cells: Vec<Cell> = Vec::new();
        let mut i: u32 = 0;
        while i < prev_appear_count
            invariant
                i <= prev_appear_count == self.shown_before() <= 6,
                28 <= prev_month_count == self.days_before(),
                before == Seq::new(self.shown_before() as nat, |i: int| self.cell_before(i)),
                cells@ == before.take(i as int),
            decreases prev_appear_count - i,
        {
            let day = prev_month_count - (prev_appear_count - i);
            cells.push(Cell { day, kind: CellKind::Before, marked: false, ends_week: false });
            assert(cells@ =~= before.take(i as int + 1));
            i += 1;
        }
        assert(before.take(i as int) =~= before);
        let mut dtot = prev_appear_count;
        let mut day: u32 = 1;
        while day <= this_month_count
            invariant
                1 <= day <= this_month_count + 1,
                this_month_count == self.month_days() <= 31,
                prev_appear_count == self.shown_before() <= 6,
                dtot == prev_appear_count + day - 1,
                month == Seq::new(self.month_days() as nat, |i: int| self.cell_of(i)),
                cells@ == before + month.take(day as int - 1),
            decreases this_month_count + 1 - day,
        {
            dtot += 1;
            let marked = self.get_events(day).len() > 0;
            let kind = if self.day == day {
                CellKind::Today
            } else {
                CellKind::Plain
            };
            cells.push(Cell { day, kind, marked, ends_week: dtot % 7 == 0 });
            assert(cells@ =~= before + month.take(day as int));
            day += 1;
        }
        assert(month.take(day as int - 1) =~= month);
        let next = 7 - (dtot % 7);
        let mut day: u32 = 1;
        while day <= next
            invariant
                1 <= day <= next + 1,
                next == self.shown_after() <= 7,
                after == Seq::new(self.shown_after() as nat, |i: int| self.cell_after(i)),
                cells@ == before + month + after.take(day as int - 1),
            decreases next + 1 - day,
        {
            cells.push(Cell { day, kind: CellKind::After, marked: false, ends_week: false });
            assert(cells@ =~= before + month + after.take(day as int));
            day += 1;
        }
        assert(after.take(day as int - 1) =~= after);
        cells
    }

    /// The events that fall on the day of the date, in the order in which
    /// the user keeps them.
    pub fn todays_events(&self) -> (found: Vec<&Event>)
        ensures
            found@.map_values(|e: &Event| *e) == self.user_data.events@.filter(
                |e: Event| event_on(e, self.year, self.month, self.day),
            ),
    {
        self.get_events(self.day)
    }
}

} // verus!
