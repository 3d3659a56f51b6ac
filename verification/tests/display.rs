use eink_daemon::agenda::{NextEvent, OutOfRange};
use eink_daemon::clock::{Moment, Zone, LAST_SECOND};
use eink_daemon::display::{panel_content, payload_for, status_line, time_of_day, Payload};
use eink_daemon::notify::Notification;

fn payload(name: &str) -> Payload {
    Payload {
        event_name: name.to_string(),
        event_time: "9:00-9:30".to_string(),
        event_countdown: "in 5m".to_string(),
        notif_app: "org.mail".to_string(),
        notif_text: "Hello".to_string(),
    }
}

fn mail() -> Notification {
    Notification {
        app_name: "Mail".to_string(),
        desktop_entry: "org.mail".to_string(),
        summary: "Hello".to_string(),
        body: "World".to_string(),
    }
}

#[test]
fn json_of_the_payload() {
    assert_eq!(
        payload("Stand-up").to_json(),
        "{\"event_countdown\":\"in 5m\",\"event_name\":\"Stand-up\",\"event_time\":\"9:00-9:30\",\"notif_app\":\"org.mail\",\"notif_text\":\"Hello\"}"
    );
}

#[test]
fn json_escapes() {
    let json = payload("\"\\/\u{8}\u{c}\n\r\t\u{0}\u{1f}\u{7f}\u{e9}\u{1f389}").to_json();
    assert!(json.contains(
        "\"event_name\":\"\\\"\\\\/\\b\\f\\n\\r\\t\\u0000\\u001f\u{7f}\u{e9}\u{1f389}\""
    ));
}

#[test]
fn json_reads_back() {
    for name in ["", "a\"b", "\\", "\\\"", "\u{1}x", "line\nfeed", "\",\"event_time\":\""] {
        let value: serde_json::Value = serde_json::from_str(&payload(name).to_json()).unwrap();
        assert_eq!(value["event_name"].as_str(), Some(name));
        assert_eq!(value["event_time"].as_str(), Some("9:00-9:30"));
        assert_eq!(value["event_countdown"].as_str(), Some("in 5m"));
        assert_eq!(value["notif_app"].as_str(), Some("org.mail"));
        assert_eq!(value["notif_text"].as_str(), Some("Hello"));
    }
}

#[test]
fn payload_from_parts() {
    let next = || NextEvent {
        name: "n".to_string(),
        time: "t".to_string(),
        countdown: "c".to_string(),
    };
    let with = payload_for(next(), Some(&mail()));
    assert_eq!(with.event_name, "n");
    assert_eq!(with.event_time, "t");
    assert_eq!(with.event_countdown, "c");
    assert_eq!(with.notif_app, "org.mail");
    assert_eq!(with.notif_text, "Hello");
    let without = payload_for(next(), None);
    assert_eq!(without.notif_app, "");
    assert_eq!(without.notif_text, "");
}

#[test]
fn content_of_the_panel() {
    let zone = Zone::parse("Europe/Berlin").unwrap();
    let now = Moment::new(1_705_309_200, 0).unwrap();
    let texts = vec![
        "SUMMARY:Lunch\nDTSTART;TZID=Europe/Berlin:20240115T123000\nDTEND;TZID=Europe/Berlin:20240115T133000"
            .to_string(),
    ];
    let content = panel_content(&texts, &zone, now, Some(&mail())).unwrap();
    assert_eq!(content.event_name, "Lunch");
    assert_eq!(content.event_time, "12:30-13:30");
    assert_eq!(content.event_countdown, "in 2h30m");
    assert_eq!(content.notif_app, "org.mail");
    let empty = panel_content(&[], &zone, now, None).unwrap();
    assert_eq!(empty.event_name, "No upcoming events");
    assert_eq!(empty.event_time, "");
    let late = Moment::new(LAST_SECOND, 0).unwrap();
    assert_eq!(panel_content(&[], &zone, late, None).unwrap_err(), OutOfRange);
}

#[test]
fn status_lines() {
    let zone = Zone::parse("Europe/Berlin").unwrap();
    let now = Moment::new(1_705_309_205, 999_999_999).unwrap();
    assert_eq!(time_of_day(now, &zone), "10:00:05");
    let leap = Moment::new(1_483_228_799, 1_000_000_000).unwrap();
    assert_eq!(time_of_day(leap, &zone), "00:59:60");
    assert_eq!(status_line("10:00:05", "{}"), "[10:00:05] -> {}");
}
