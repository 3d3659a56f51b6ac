use eink_daemon::agenda::{
    calendar_query, coming_event, day_at, format_countdown, hours_text, insert_by_start,
    next_event, occurrence_on, reschedule, same_time, start_on_day, time_range_query, today_in,
    upcoming_events, OutOfRange,
};
use eink_daemon::calendar::{parse_event, CalendarEvent};
use eink_daemon::clock::{Moment, WallTime, Zone, LAST_SECOND};

fn berlin() -> Zone {
    Zone::parse("Europe/Berlin").unwrap()
}

fn at(secs: i64) -> Moment {
    Moment::new(secs, 0).unwrap()
}

fn text(summary: &str, start: &str, end: &str, recurring: bool) -> String {
    format!(
        "SUMMARY:{}\nDTSTART;TZID=Europe/Berlin:{}\nDTEND;TZID=Europe/Berlin:{}\n{}",
        summary,
        start,
        end,
        if recurring { "RRULE:FREQ=DAILY\n" } else { "" }
    )
}

fn event(summary: &str, start: &str, end: &str, recurring: bool) -> CalendarEvent {
    parse_event(&text(summary, start, end, recurring)).unwrap()
}

#[test]
fn countdown_texts() {
    assert_eq!(format_countdown(i64::MIN), "now");
    assert_eq!(format_countdown(-5), "now");
    assert_eq!(format_countdown(0), "now");
    assert_eq!(format_countdown(1), "in 1m");
    assert_eq!(format_countdown(59), "in 59m");
    assert_eq!(format_countdown(60), "in 1h");
    assert_eq!(format_countdown(61), "in 1h1m");
    assert_eq!(format_countdown(119), "in 1h59m");
    assert_eq!(format_countdown(120), "in 2h");
    assert_eq!(format_countdown(1439), "in 23h59m");
    assert_eq!(format_countdown(i64::MAX), "in 153722867280912930h7m");
}

#[test]
fn countdown_texts_differ() {
    let mut seen: Vec<String> = Vec::new();
    for minutes in 0..1500 {
        let told = format_countdown(minutes);
        assert!(!seen.contains(&told));
        seen.push(told);
    }
}

#[test]
fn query_for_a_day() {
    assert_eq!(
        calendar_query(at(1_705_309_200)),
        "(occur-in-time-range? (make-time \"20240115T090000Z\") (make-time \"20240116T090000Z\"))"
    );
    assert_eq!(
        time_range_query("a", "b"),
        "(occur-in-time-range? (make-time \"a\") (make-time \"b\"))"
    );
}

#[test]
fn days_of_wall_clocks() {
    assert_eq!(today_in(&berlin(), at(1_705_309_200)), Ok(19_737));
    // 23:30 UTC is the next day in Berlin.
    assert_eq!(today_in(&berlin(), at(19_737 * 86_400 + 84_600)), Ok(19_738));
    assert_eq!(day_at(at(0), -1), Ok(-1));
    assert_eq!(today_in(&berlin(), at(LAST_SECOND)), Err(OutOfRange));
    assert_eq!(day_at(at(LAST_SECOND), 1), Err(OutOfRange));
}

#[test]
fn time_of_day_on_another_day() {
    assert_eq!(
        same_time(Moment::new(1_705_309_200, 9).unwrap(), 3_600, 1),
        WallTime { secs: 86_400 + 36_000, nanos: 9 }
    );
}

#[test]
fn single_events_stay_where_they_are() {
    let placed = occurrence_on(event("a", "20240115T100000", "20240115T113000", false), &berlin(), 20_000);
    let placed = placed.unwrap().unwrap();
    assert_eq!(placed.start.at.secs, 1_705_309_200);
    assert_eq!(placed.end.at.secs, 1_705_314_600);
}

#[test]
fn recurring_events_move_to_today() {
    // 2024-07-15 is day 19919; the wall clock shows the same time in summer.
    let moved = occurrence_on(event("a", "20240115T100000", "20240115T113000", true), &berlin(), 19_919);
    let moved = moved.unwrap().unwrap();
    assert_eq!(moved.start.at.secs, 1_721_030_400);
    assert_eq!(moved.end.at.secs, 1_721_030_400 + 5_400);
    assert_eq!(moved.summary, "a");
    assert!(moved.recurring);
    assert_eq!(moved.start.zone.name(), "Europe/Berlin");
}

#[test]
fn recurring_events_in_a_skipped_hour_do_not_take_place() {
    // 2024-03-31 is day 19813.
    let skipped = event("a", "20240115T023000", "20240115T030000", true);
    assert_eq!(start_on_day(&skipped, &berlin(), 19_813), None);
    assert!(occurrence_on(skipped, &berlin(), 19_813).unwrap().is_none());
}

#[test]
fn recurring_events_out_of_range() {
    let long = "SUMMARY:a\nRRULE:x\n\
DTSTART;TZID=UTC:-262143 01 01T000000\nDTEND;TZID=UTC:+262142 12 31T000000\n";
    let long = parse_event(long).unwrap();
    assert_eq!(occurrence_on(long, &berlin(), 19_737).unwrap_err(), OutOfRange);
    let texts = vec![long_text()];
    assert_eq!(upcoming_events(&texts, &berlin(), at(1_705_309_200)).unwrap_err(), OutOfRange);
}

fn long_text() -> String {
    "SUMMARY:a\nRRULE:x\nDTSTART;TZID=UTC:-262143 01 01T000000\nDTEND;TZID=UTC:+262142 12 31T000000\n"
        .to_string()
}

#[test]
fn rescheduling_keeps_the_length() {
    let e = event("a", "20240115T100000", "20240116T003001", true);
    let length = e.end.at.since(e.start.at);
    let moved = reschedule(e, Moment::new(1_721_030_400, 5).unwrap());
    assert_eq!(moved.start.at, Moment::new(1_721_030_400, 5).unwrap());
    assert_eq!(moved.end.at.since(moved.start.at), length);
}

#[test]
fn only_events_after_now_are_coming() {
    let e = || event("a", "20240115T100000", "20240115T113000", false);
    assert!(coming_event(e(), &berlin(), 19_737, at(1_705_309_199)).unwrap().is_some());
    assert!(coming_event(e(), &berlin(), 19_737, at(1_705_309_200)).unwrap().is_none());
    assert!(coming_event(e(), &berlin(), 19_737, at(1_705_309_201)).unwrap().is_none());
}

#[test]
fn insertion_is_stable() {
    let mut list: Vec<CalendarEvent> = Vec::new();
    for (name, start) in [("b", "20240115T110000"), ("a", "20240115T100000"), ("b2", "20240115T110000"), ("c", "20240115T120000"), ("a2", "20240115T100000")] {
        insert_by_start(&mut list, event(name, start, start, false));
    }
    let names: Vec<&str> = list.iter().map(|e| e.summary.as_str()).collect();
    assert_eq!(names, vec!["a", "a2", "b", "b2", "c"]);
}

#[test]
fn upcoming_events_in_order() {
    let texts = vec![
        text("late", "20240115T180000", "20240115T190000", false),
        text("past", "20240115T080000", "20240115T083000", false),
        "no event".to_string(),
        text("daily", "20230601T120000", "20230601T121500", true),
        text("soon", "20240115T103000", "20240115T110000", false),
        text("daily past", "20230601T090000", "20230601T091500", true),
    ];
    // 09:00 UTC is 10:00 in Berlin.
    let list = upcoming_events(&texts, &berlin(), at(1_705_309_200)).unwrap();
    let names: Vec<&str> = list.iter().map(|e| e.summary.as_str()).collect();
    assert_eq!(names, vec!["soon", "daily", "late"]);
    let next = next_event(&list, &berlin(), at(1_705_309_200));
    assert_eq!(next.name, "soon");
    assert_eq!(next.time, "10:30-11:00");
    assert_eq!(next.countdown, "in 30m");
}

#[test]
fn upcoming_events_without_a_day() {
    assert_eq!(upcoming_events(&[], &berlin(), at(LAST_SECOND)).unwrap_err(), OutOfRange);
    assert!(upcoming_events(&[], &berlin(), at(0)).unwrap().is_empty());
}

#[test]
fn no_upcoming_event() {
    let next = next_event(&[], &berlin(), at(0));
    assert_eq!(next.name, "No upcoming events");
    assert_eq!(next.time, "");
    assert_eq!(next.countdown, "");
}

#[test]
fn next_event_in_the_local_zone() {
    let texts = vec!["SUMMARY:Call\nDTSTART;TZID=America/New_York:20240115T100000\nDTEND;TZID=America/New_York:20240115T110500\n".to_string()];
    let now = Moment::new(1_705_309_200, 1).unwrap();
    let list = upcoming_events(&texts, &berlin(), now).unwrap();
    let next = next_event(&list, &berlin(), now);
    assert_eq!(next.time, "16:00-17:05");
    assert_eq!(next.countdown, "in 5h59m");
}

#[test]
fn hours_without_leading_zero() {
    assert_eq!(hours_text(at(32_700), 0, at(36_000), -3_600), "9:05-9:00");
    assert_eq!(hours_text(at(0), 0, at(86_399), 0), "0:00-23:59");
    assert_eq!(hours_text(at(0), -60, at(0), 86_399), "23:59-23:59");
}

#[test]
fn hours_at_the_end_of_time() {
    assert_eq!(hours_text(at(LAST_SECOND), 3_600, at(LAST_SECOND), 0), "0:59-23:59");
}

#[test]
fn given_hours_are_shown() {
    let events = vec![event("a", "20240115T093000", "20240115T104500", false)];
    let next = next_event(&events, &berlin(), at(1_705_300_000));
    assert_eq!(next.time, "9:30-10:45");
}
