use eink_daemon::agenda::calendar_query;
use eink_daemon::calendar::{assemble_event, parse_event, resolve, scan_event, ZonedText};
use eink_daemon::clock::Moment;

const MEETING: &str = "BEGIN:VEVENT\r\n\
UID:1\r\n\
DTSTART;TZID=Europe/Berlin:20240115T100000\r\n\
DTEND;TZID=Europe/Berlin:20240115T113000\r\n\
SUMMARY:Stand-up\r\n\
END:VEVENT\r\n";

#[test]
fn reads_an_event() {
    let event = parse_event(MEETING).unwrap();
    assert_eq!(event.summary, "Stand-up");
    assert_eq!(event.start.at.secs, 1_705_309_200);
    assert_eq!(event.start.at.nanos, 0);
    assert_eq!(event.start.zone.name(), "Europe/Berlin");
    assert_eq!(event.end.at.secs, 1_705_314_600);
    assert!(!event.recurring);
}

#[test]
fn recurrence_rule_marks_the_event() {
    let text = format!("RRULE:FREQ=DAILY\n{}", MEETING);
    assert!(parse_event(&text).unwrap().recurring);
    let text = format!("X-RRULE:FREQ=DAILY\n{}", MEETING);
    assert!(!parse_event(&text).unwrap().recurring);
}

#[test]
fn start_and_end_may_differ_in_zone() {
    let text = "SUMMARY:Flight\n\
DTSTART;TZID=Europe/Berlin:20240115T100000\n\
DTEND;TZID=America/New_York:20240115T100000";
    let event = parse_event(text).unwrap();
    assert_eq!(event.start.at.secs, 1_705_309_200);
    assert_eq!(event.end.at.secs, 1_705_330_800);
    assert_eq!(event.end.zone.name(), "America/New_York");
}

#[test]
fn every_part_is_needed() {
    for part in ["SUMMARY:Stand-up\r\n", "DTSTART;TZID=Europe/Berlin:20240115T100000\r\n", "DTEND;TZID=Europe/Berlin:20240115T113000\r\n"] {
        assert!(MEETING.contains(part));
        assert!(parse_event(&MEETING.replace(part, "")).is_none());
    }
    assert!(parse_event("").is_none());
}

#[test]
fn times_without_a_zone_are_not_taken() {
    assert!(parse_event(&MEETING.replace("DTSTART;TZID=Europe/Berlin", "DTSTART")).is_none());
    let text = format!("{}DTSTART:20240116T100000\r\n", MEETING);
    assert_eq!(parse_event(&text).unwrap().start.at.secs, 1_705_309_200);
}

#[test]
fn unreadable_times_and_zones() {
    assert!(parse_event(&MEETING.replace("20240115T100000", "20240115T100000Z")).is_none());
    assert!(parse_event(&MEETING.replace("20240115T100000", "20240132T100000")).is_none());
    assert!(parse_event(&MEETING.replace("20240115T113000", "20240115")).is_none());
    assert!(parse_event(&MEETING.replace("Europe/Berlin", "Custom Zone")).is_none());
    assert!(parse_event(&MEETING.replace("20240115T100000", "20240331T023000")).is_none());
    assert!(parse_event(&MEETING.replace("20240115T113000", "20241027T023000")).is_none());
}

#[test]
fn times_that_come_never_or_twice_are_not_taken() {
    for (time, taken) in [
        ("20240331T015959", true),
        ("20240331T020000", false),
        ("20240331T025959", false),
        ("20240331T030000", true),
        ("20241027T015959", true),
        ("20241027T020000", false),
        ("20241027T025959", false),
        ("20241027T030000", true),
    ] {
        assert_eq!(parse_event(&MEETING.replace("20240115T100000", time)).is_some(), taken);
        assert_eq!(parse_event(&MEETING.replace("20240115T113000", time)).is_some(), taken);
    }
}

#[test]
fn leap_second_is_read() {
    let text = MEETING.replace("20240115T113000", "20240115T113060");
    let event = parse_event(&text).unwrap();
    assert_eq!(event.end.at.secs, 1_705_314_659);
    assert_eq!(event.end.at.nanos, 1_000_000_000);
}

#[test]
fn last_line_prevails() {
    let text = format!("{}SUMMARY:Other\nSUMMARY:Third", MEETING);
    assert_eq!(parse_event(&text).unwrap().summary, "Third");
    let text = format!("{}DTSTART;TZID=UTC:20240115T110000", MEETING);
    let event = parse_event(&text).unwrap();
    assert_eq!(event.start.at.secs, 1_705_316_400);
    assert_eq!(event.start.zone.name(), "UTC");
}

#[test]
fn other_lines_make_no_difference() {
    let text = MEETING.replace("UID:1\r\n", "UID:1\r\nLOCATION:Room\r\nX:SUMMARY:no\r\n");
    assert_eq!(parse_event(&text).unwrap().summary, "Stand-up");
}

#[test]
fn order_of_lines_makes_no_difference() {
    let text = "DTEND;TZID=Europe/Berlin:20240115T113000\n\
SUMMARY:Stand-up\n\
DTSTART;TZID=Europe/Berlin:20240115T100000\n";
    let event = parse_event(text).unwrap();
    assert_eq!(event.summary, "Stand-up");
    assert_eq!(event.start.at.secs, 1_705_309_200);
    assert_eq!(event.end.at.secs, 1_705_314_600);
}

#[test]
fn line_endings() {
    let unix = MEETING.replace("\r\n", "\n");
    assert_eq!(parse_event(&unix).unwrap().summary, "Stand-up");
    assert_eq!(scan_event("SUMMARY:a\r").summary, Some("a\r".to_string()));
    assert_eq!(scan_event("SUMMARY:a\r\n").summary, Some("a".to_string()));
    assert_eq!(scan_event("SUMMARY:a\r\r\n").summary, Some("a\r".to_string()));
    assert_eq!(scan_event("\n\nSUMMARY:\n").summary, Some(String::new()));
}

#[test]
fn repeated_property_name_is_dropped() {
    assert_eq!(scan_event("SUMMARY:SUMMARY:x SUMMARY:").summary, Some("x SUMMARY:".to_string()));
    assert_eq!(scan_event(" SUMMARY:x").summary, None);
    assert_eq!(scan_event("SUMMARY:caf\u{e9} \u{1f389}").summary, Some("caf\u{e9} \u{1f389}".to_string()));
}

#[test]
fn zone_parameter_anywhere_on_the_line() {
    let found = scan_event("DTSTART;VALUE=DATE-TIME;TZID=Asia/Tokyo;X=1:2024:1");
    let start = found.start.unwrap();
    assert_eq!(start.zone, "Asia/Tokyo;X=1");
    assert_eq!(start.time, "2024:1");
    assert!(scan_event("DTSTART;TZID=Asia/Tokyo").start.is_none());
    assert!(scan_event("DTSTART:TZI").start.is_none());
    assert_eq!(scan_event("DTENDTZID=:").end.unwrap().zone, "");
}

#[test]
fn resolves_zoned_text() {
    let given = ZonedText { zone: "UTC".to_string(), time: "20240115T090000".to_string() };
    let found = resolve(&given).unwrap();
    assert_eq!(found.at.secs, 1_705_309_200);
    assert_eq!(found.zone.name(), "UTC");
}

#[test]
fn times_in_digits_are_read_back() {
    // From the year 0 to the year 9999.
    let mut secs: i64 = -62_167_219_200;
    while secs <= 253_402_300_799 {
        let query = calendar_query(Moment::new(secs, 0).unwrap());
        let stamp = query.split('"').nth(1).unwrap().strip_suffix('Z').unwrap();
        assert_eq!(stamp.len(), 15);
        let given = ZonedText { zone: "UTC".to_string(), time: stamp.to_string() };
        let found = resolve(&given).unwrap().at;
        assert_eq!((found.secs, found.nanos), (secs, 0));
        secs += 17_345_677;
    }
    let given = ZonedText { zone: "UTC".to_string(), time: "99991231T235960".to_string() };
    let found = resolve(&given).unwrap().at;
    assert_eq!((found.secs, found.nanos), (253_402_300_799, 1_000_000_000));
}

#[test]
fn assembles_only_whole_events() {
    let zoned = || resolve(&ZonedText { zone: "UTC".to_string(), time: "20240115T090000".to_string() });
    let event = assemble_event(Some("a".to_string()), zoned(), zoned(), true).unwrap();
    assert_eq!(event.summary, "a");
    assert!(event.recurring);
    assert!(assemble_event(None, zoned(), zoned(), true).is_none());
    assert!(assemble_event(Some("a".to_string()), None, zoned(), true).is_none());
    assert!(assemble_event(Some("a".to_string()), zoned(), None, true).is_none());
}
