use rot::cal::{decimal, CalError, Cell, CellKind, Date, Event, Month, UserData, Weekday, Year};

fn date(year: i32, month: Month, day: u32, events: Vec<Event>) -> Date {
    let months = [
        "January", "February", "March", "April", "May", "June", "July", "August", "September",
        "October", "November", "December",
    ]
    .map(|s| s.to_string());
    let weekdays = ["sun", "mon", "tue", "wed", "thu", "fri", "sat"].map(|s| s.to_string());
    Date {
        year: Year(year),
        month,
        day,
        first_of_month: Weekday::Sat,
        user_data: UserData { events, months, weekdays },
    }
}

#[test]
fn leap_years() {
    assert!(Year(2024).is_leap());
    assert!(Year(2000).is_leap());
    assert!(!Year(1900).is_leap());
    assert!(!Year(2023).is_leap());
    assert!(Year(0).is_leap());
    assert!(Year(-4).is_leap());
    assert!(!Year(-1).is_leap());
    assert!(!Year(-100).is_leap());
    assert!(Year(-400).is_leap());
}

#[test]
fn months_go_round() {
    assert_eq!(Month::Jan.next(), Month::Feb);
    assert_eq!(Month::Dec.next(), Month::Jan);
    assert_eq!(Month::Jan.prev(), Month::Dec);
    assert_eq!(Month::Jul.prev(), Month::Jun);
    let mut m = Month::Jan;
    for _ in 0..12 {
        assert_eq!(m.next().prev(), m);
        m = m.next();
    }
    assert_eq!(m, Month::Jan);
}

#[test]
fn days_of_months() {
    assert_eq!(Month::Feb.day_count(&Year(2024)), 29);
    assert_eq!(Month::Feb.day_count(&Year(2023)), 28);
    assert_eq!(Month::Feb.day_count(&Year(1900)), 28);
    assert_eq!(Month::Apr.day_count(&Year(2024)), 30);
    assert_eq!(Month::Dec.day_count(&Year(2024)), 31);
    let mut total = 0;
    let mut m = Month::Jan;
    for _ in 0..12 {
        total += m.day_count(&Year(2023));
        m = m.next();
    }
    assert_eq!(total, 365);
}

#[test]
fn months_by_number() {
    assert_eq!(Month::from_number(1), Ok(Month::Jan));
    assert_eq!(Month::from_number(12), Ok(Month::Dec));
    assert_eq!(Month::from_number(0), Err(CalError::MonthRange(0)));
    assert_eq!(Month::from_number(13), Err(CalError::MonthRange(13)));
}

#[test]
fn weekday_numbers() {
    assert_eq!(Weekday::Sun.index(), 0);
    assert_eq!(Weekday::Wed.index(), 3);
    assert_eq!(Weekday::Sat.index(), 6);
    assert_eq!(Weekday::from_number(0), Ok(Weekday::Sun));
    assert_eq!(Weekday::from_number(6), Ok(Weekday::Sat));
    assert_eq!(Weekday::from_number(7), Err(CalError::WeekdayRange(7)));
}

#[test]
fn events_of_a_day() {
    let events = vec![
        Event::Single { description: "exam".to_string(), year: Year(2024), month: Month::Jun, day: 25 },
        Event::Single { description: "last year".to_string(), year: Year(2023), month: Month::Jun, day: 25 },
        Event::Yearly { description: "birthday".to_string(), months: vec![Month::Jan, Month::Jun], day: 25 },
        Event::Yearly { description: "other".to_string(), months: vec![Month::Jun], day: 26 },
        Event::YearlyByWeekday {
            description: "market".to_string(),
            months: vec![Month::Jun],
            days: vec![Weekday::Mon, Weekday::Thu],
        },
    ];
    let d = date(2024, Month::Jun, 25, events);
    // 25 leaves 4 when divided by 7: Thursday's number.
    let found: Vec<String> = d
        .get_events(25)
        .iter()
        .map(|e| match e {
            Event::Single { description, .. } => description.clone(),
            Event::Yearly { description, .. } => description.clone(),
            Event::YearlyByWeekday { description, .. } => description.clone(),
        })
        .collect();
    assert_eq!(found, vec!["exam", "birthday", "market"]);
    assert_eq!(d.get_events(26).len(), 1);
    assert_eq!(d.get_events(1).len(), 1);
    assert!(d.get_events(2).is_empty());
}

#[test]
fn events_come_and_go() {
    let mut d = date(2024, Month::Jun, 25, vec![]);
    for name in ["a", "b", "c"] {
        d.add_event(Event::Yearly { description: name.to_string(), months: vec![], day: 1 });
    }
    let gone = d.remove_event(0);
    assert!(matches!(gone, Event::Yearly { description, .. } if description == "a"));
    assert_eq!(d.user_data.events.len(), 2);
    assert!(matches!(&d.user_data.events[0], Event::Yearly { description, .. } if description == "c"));
    assert!(matches!(&d.user_data.events[1], Event::Yearly { description, .. } if description == "b"));
}

#[test]
fn names_of_months_and_weekdays() {
    let d = date(2024, Month::Jun, 25, vec![]);
    assert_eq!(d.month_string(), "June");
    assert_eq!(date(2024, Month::Jan, 1, vec![]).month_string(), "January");
    assert_eq!(date(2024, Month::Dec, 1, vec![]).month_string(), "December");
    assert_eq!(d.weekday_string(&Weekday::Sun), "sun");
    assert_eq!(d.weekday_string(&Weekday::Sat), "sat");
    assert_eq!(d.weekday_strings()[2], "tue");
}

#[test]
fn numbers_in_decimal() {
    assert_eq!(decimal(0), "0");
    assert_eq!(decimal(7), "7");
    assert_eq!(decimal(10), "10");
    assert_eq!(decimal(1905), "1905");
    assert_eq!(decimal(u32::MAX), "4294967295");
}

#[test]
fn lines_of_events() {
    let d = date(2024, Month::Jun, 25, vec![]);
    let single =
        Event::Single { description: "exam".to_string(), year: Year(2024), month: Month::Jun, day: 25 };
    assert_eq!(single.format(&d), "25 | exam\n");
    let yearly = Event::Yearly { description: "birthday".to_string(), months: vec![], day: 3 };
    assert_eq!(yearly.format(&d), "3 | birthday\n");
    let weekly = Event::YearlyByWeekday {
        description: "market".to_string(),
        months: vec![],
        days: vec![Weekday::Mon, Weekday::Thu, Weekday::Sun],
    };
    assert_eq!(weekly.format(&d), "mon, thu, sun | market\n");
    let never = Event::YearlyByWeekday { description: "x".to_string(), months: vec![], days: vec![] };
    assert_eq!(never.format(&d), " | x\n");
}

#[test]
fn cells_of_june_2024() {
    // June 2024 began on a Saturday: six days of May are shown.
    let events = vec![Event::Yearly {
        description: "birthday".to_string(),
        months: vec![Month::Jun],
        day: 2,
    }];
    let d = date(2024, Month::Jun, 25, events);
    let cells = d.cells();
    // 6 before, 30 of the month, 6 after.
    assert_eq!(cells.len(), 42);
    let before: Vec<u32> = cells[..6].iter().map(|c| c.day).collect();
    assert_eq!(before, vec![25, 26, 27, 28, 29, 30]);
    assert!(cells[..6].iter().all(|c| c.kind == CellKind::Before && !c.marked && !c.ends_week));
    assert_eq!(
        cells[6],
        Cell { day: 1, kind: CellKind::Plain, marked: false, ends_week: true }
    );
    assert_eq!(
        cells[7],
        Cell { day: 2, kind: CellKind::Plain, marked: true, ends_week: false }
    );
    assert_eq!(
        cells[30],
        Cell { day: 25, kind: CellKind::Today, marked: false, ends_week: false }
    );
    assert_eq!(
        cells[35],
        Cell { day: 30, kind: CellKind::Plain, marked: false, ends_week: false }
    );
    let after: Vec<u32> = cells[36..].iter().map(|c| c.day).collect();
    assert_eq!(after, vec![1, 2, 3, 4, 5, 6]);
    assert!(cells[36..].iter().all(|c| c.kind == CellKind::After));
    assert_eq!(d.todays_events().len(), 0);
}

#[test]
fn cells_of_a_month_that_ends_a_row() {
    // February 2026 began on a Sunday and has 28 days: no day before, and a
    // whole row after.
    let mut d = date(2026, Month::Feb, 28, vec![]);
    d.first_of_month = Weekday::Sun;
    let cells = d.cells();
    assert_eq!(cells.len(), 35);
    assert_eq!(cells[0].day, 1);
    assert_eq!(
        cells[27],
        Cell { day: 28, kind: CellKind::Today, marked: false, ends_week: true }
    );
    let after: Vec<u32> = cells[28..].iter().map(|c| c.day).collect();
    assert_eq!(after, vec![1, 2, 3, 4, 5, 6, 7]);
}
