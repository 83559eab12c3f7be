use calendar_notice::calendar::{CalendarDateTime, Error, Event};

fn date_text(y: &str, m: &str, d: &str, wd: char, clock: &str) -> String {
    // <year>年<month>月<day>日 <weekday>曜日 <hh:mm:ss>
    format!(
        "{}\u{5e74}{}\u{6708}{}\u{65e5} {}\u{66dc}\u{65e5} {}",
        y, m, d, wd, clock
    )
}

#[test]
fn reads_a_japanese_date() {
    let s = date_text("2023", "8", "1", '\u{706b}', "12:00:00");
    let d = Event::parse_japanese_date(&s).unwrap();
    assert_eq!(
        d,
        CalendarDateTime { year: 2023, month: 8, day: 1, hour: 12, minute: 0, second: 0 }
    );
}

#[test]
fn reads_two_digit_month_and_day() {
    let s = date_text("2023", "12", "31", '\u{65e5}', "23:59:59");
    let d = Event::parse_japanese_date(&s).unwrap();
    assert_eq!(
        d,
        CalendarDateTime { year: 2023, month: 12, day: 31, hour: 23, minute: 59, second: 59 }
    );
}

#[test]
fn rejects_out_of_range_components() {
    let month_13 = date_text("2023", "13", "1", '\u{6708}', "12:00:00");
    assert!(Event::parse_japanese_date(&month_13).is_err());
    let feb_30 = date_text("2023", "2", "30", '\u{6c34}', "12:00:00");
    assert!(Event::parse_japanese_date(&feb_30).is_err());
    let hour_24 = date_text("2023", "8", "1", '\u{91d1}', "24:00:00");
    assert!(Event::parse_japanese_date(&hour_24).is_err());
}

#[test]
fn leap_day_exists_only_in_leap_years() {
    let leap = date_text("2024", "2", "29", '\u{6728}', "09:30:00");
    assert!(Event::parse_japanese_date(&leap).is_ok());
    let not_leap = date_text("2023", "2", "29", '\u{6728}', "09:30:00");
    assert!(Event::parse_japanese_date(&not_leap).is_err());
    let century = date_text("1900", "2", "29", '\u{571f}', "09:30:00");
    assert!(Event::parse_japanese_date(&century).is_err());
    let quad_century = date_text("2000", "2", "29", '\u{571f}', "09:30:00");
    assert!(Event::parse_japanese_date(&quad_century).is_ok());
}

#[test]
fn rejects_text_without_a_date() {
    let r = Event::parse_japanese_date("next tuesday at noon");
    assert!(matches!(r, Err(Error::ParseError(_))));
}

#[test]
fn reads_one_listed_event() {
    let line = format!("id-1|||Morning sync|||{}", date_text("2023", "8", "1", '\u{706b}', "12:00:00"));
    let ev = Event::parse_event(&line).unwrap();
    assert_eq!(ev.id, "id-1");
    assert_eq!(ev.title, "Morning sync");
    assert_eq!(ev.start_time.year, 2023);
    assert_eq!(ev.start_time.hour, 12);
}

#[test]
fn rejects_wrong_part_counts() {
    assert!(Event::parse_event("only-an-id").is_err());
    assert!(Event::parse_event("id|||title").is_err());
    let four = format!(
        "id|||title|||{}|||extra",
        date_text("2023", "8", "1", '\u{706b}', "12:00:00")
    );
    assert!(Event::parse_event(&four).is_err());
}

#[test]
fn splits_a_listing_into_events() {
    let one = format!("a|||First|||{}", date_text("2023", "8", "1", '\u{706b}', "09:00:00"));
    let two = format!("b|||Second|||{}", date_text("2023", "8", "2", '\u{6c34}', "10:30:00"));
    let listing = format!("{}###{}", one, two);
    let events = Event::parse_events_output(&listing).unwrap();
    assert_eq!(events.len(), 2);
    assert_eq!(events[0].id, "a");
    assert_eq!(events[0].title, "First");
    assert_eq!(events[1].id, "b");
    assert_eq!(events[1].start_time.minute, 30);
}

#[test]
fn trailing_separator_adds_no_event() {
    let one = format!("a|||First|||{}", date_text("2023", "8", "1", '\u{706b}', "09:00:00"));
    let listing = format!("{}###", one);
    let events = Event::parse_events_output(&listing).unwrap();
    assert_eq!(events.len(), 1);
    assert!(Event::parse_events_output("").unwrap().is_empty());
}

#[test]
fn one_malformed_chunk_fails_the_read() {
    let one = format!("a|||First|||{}", date_text("2023", "8", "1", '\u{706b}', "09:00:00"));
    let listing = format!("{}###not-an-event", one);
    assert!(Event::parse_events_output(&listing).is_err());
}
