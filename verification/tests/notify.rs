use eink_daemon::clock::{Moment, FIRST_SECOND, LAST_SECOND};
use eink_daemon::config::NotificationConfig;
use eink_daemon::notify::{
    filtered_line, is_notify_call, judge, log_line, log_line_at, monitor_step, notification_of,
    parse_notify_body, passes_filter, shown_line, update_latest, Hint, MonitorStep, Notification,
    NotifyCall,
};
use std::collections::HashMap;
use zbus::zvariant::serialized::Context;
use zbus::zvariant::{to_bytes, Endian, Fd, Value};

fn notification(app: &str, desktop: &str) -> Notification {
    Notification {
        app_name: app.to_string(),
        desktop_entry: desktop.to_string(),
        summary: "Hello".to_string(),
        body: "World".to_string(),
    }
}

fn filter(mode: &str, apps: &[&str]) -> NotificationConfig {
    NotificationConfig {
        log_path: String::new(),
        filter_mode: mode.to_string(),
        filter_apps: apps.iter().map(|a| a.to_string()).collect(),
    }
}

const SIGNATURE: &str = "susssasa{sv}i";

fn body(endian: Endian, hints: HashMap<&str, Value<'_>>) -> Vec<u8> {
    let call = ("Mail", 0u32, "icon", "Hello", "World", vec!["default"], hints, -1i32);
    to_bytes(Context::new_dbus(endian, 0), &call).unwrap().bytes().to_vec()
}

#[test]
fn app_id_prefers_the_desktop_entry() {
    assert_eq!(notification("Mail", "org.mail").app_id(), "org.mail");
    assert_eq!(notification("Mail", "").app_id(), "Mail");
    assert_eq!(notification("", "").app_id(), "");
}

#[test]
fn filter_matches_name_or_desktop_entry() {
    let n = notification("Mail", "org.Mail");
    let list = |apps: &[&str]| apps.iter().map(|a| a.to_string()).collect::<Vec<String>>();
    assert!(n.matches_filter(&list(&["x", "mail"])));
    assert!(n.matches_filter(&list(&["ORG.MAIL"])));
    assert!(!n.matches_filter(&list(&["mai", "mail2"])));
    assert!(!n.matches_filter(&[]));
    assert!(!notification("\u{c4}pp", "").matches_filter(&list(&["\u{e4}pp"])));
    assert!(notification("Mail", "").matches_filter(&list(&[""])));
}

#[test]
fn filter_modes() {
    let n = notification("Mail", "");
    assert!(!passes_filter(&filter("blacklist", &["mail"]), &n));
    assert!(passes_filter(&filter("blacklist", &["chat"]), &n));
    assert!(passes_filter(&filter("whitelist", &["mail"]), &n));
    assert!(!passes_filter(&filter("whitelist", &["chat"]), &n));
    assert!(!passes_filter(&filter("Whitelist", &["mail"]), &n));
    assert!(passes_filter(&filter("", &[]), &n));
    assert!(passes_filter(&NotificationConfig::default(), &n));
    assert!(!passes_filter(&filter("whitelist", &[]), &n));
}

#[test]
fn longer_lists() {
    let n = notification("Mail", "");
    assert!(!n.matches_filter(&["a".to_string()]));
    assert!(n.matches_filter(&["a".to_string(), "MAIL".to_string()]));
}

#[test]
fn lines_of_text() {
    let n = notification("Mail", "org.mail");
    assert_eq!(
        log_line("2024-01-15 10:00:00", &n),
        "[2024-01-15 10:00:00] app_name=\"Mail\" desktop_entry=\"org.mail\" summary=\"Hello\" body=\"World\"\n"
    );
    assert_eq!(shown_line(&n), "[notif] org.mail | Hello | World");
    assert_eq!(filtered_line(&n), "[notif] FILTERED: org.mail | Hello");
}

#[test]
fn log_lines_are_stamped_with_local_time() {
    let n = notification("Mail", "org.mail");
    let rest = "] app_name=\"Mail\" desktop_entry=\"org.mail\" summary=\"Hello\" body=\"World\"\n";
    let stamped = |secs: i64, nanos: u32, offset: i32, stamp: &str| {
        let at = Moment::new(secs, nanos).unwrap();
        assert_eq!(log_line_at(at, offset, &n), format!("[{}{}", stamp, rest));
    };
    stamped(1_705_309_200, 999_999_999, 3_600, "2024-01-15 10:00:00");
    stamped(1_705_309_200, 0, 0, "2024-01-15 09:00:00");
    stamped(1_705_309_200, 0, -36_000, "2024-01-14 23:00:00");
    stamped(1_705_309_205, 0, 86_399, "2024-01-16 09:00:04");
    stamped(1_483_228_799, 1_500_000_000, 0, "2016-12-31 23:59:60");
    stamped(951_825_599, 0, 1, "2000-02-29 12:00:00");
    stamped(4_107_542_400, 0, 0, "2100-03-01 00:00:00");
    stamped(-62_167_219_200, 0, 0, "0000-01-01 00:00:00");
    stamped(-62_167_219_200, 0, -1, "-0001-12-31 23:59:59");
    stamped(253_402_300_799, 0, 1, "+10000-01-01 00:00:00");
    stamped(FIRST_SECOND, 0, -86_399, "-262144-12-31 00:00:01");
    stamped(LAST_SECOND, 0, 1, "+262143-01-01 00:00:00");
}

#[test]
fn reads_a_notify_call() {
    let hints = HashMap::from([
        ("urgency", Value::from(1u8)),
        ("desktop-entry", Value::from("org.mail")),
        ("image-data", Value::from(vec![1u8, 2, 3])),
    ]);
    let bytes = body(Endian::Little, hints);
    let n = parse_notify_body(SIGNATURE, &bytes, b'l', &[]).unwrap();
    assert_eq!(n.app_name, "Mail");
    assert_eq!(n.desktop_entry, "org.mail");
    assert_eq!(n.summary, "Hello");
    assert_eq!(n.body, "World");
}

#[test]
fn reads_both_byte_orders() {
    let bytes = body(Endian::Big, HashMap::from([("desktop-entry", Value::from("d"))]));
    assert_eq!(parse_notify_body(SIGNATURE, &bytes, b'B', &[]).unwrap().desktop_entry, "d");
    assert!(parse_notify_body(SIGNATURE, &bytes, b'x', &[]).is_none());
    assert!(parse_notify_body(SIGNATURE, &bytes, b'l', &[]).is_none());
}

#[test]
fn desktop_entry_must_be_a_string() {
    let bytes = body(Endian::Little, HashMap::from([("desktop-entry", Value::from(7u32))]));
    assert_eq!(parse_notify_body(SIGNATURE, &bytes, b'l', &[]).unwrap().desktop_entry, "");
    let bytes = body(Endian::Little, HashMap::new());
    assert_eq!(parse_notify_body(SIGNATURE, &bytes, b'l', &[]).unwrap().desktop_entry, "");
}

#[test]
fn other_bodies_are_not_read() {
    let bytes = body(Endian::Little, HashMap::new());
    assert!(parse_notify_body("s", &bytes, b'l', &[]).is_none());
    assert!(parse_notify_body("not a signature", &bytes, b'l', &[]).is_none());
    assert!(parse_notify_body(SIGNATURE, &bytes[..10], b'l', &[]).is_none());
    assert!(parse_notify_body(SIGNATURE, &[], b'l', &[]).is_none());
    assert!(parse_notify_body("(susssasa{sv}i)", &bytes, b'l', &[]).is_some());
}

#[test]
fn reads_the_body_of_a_message() {
    let hints = HashMap::from([("desktop-entry", Value::from("org.mail"))]);
    let call = ("Mail", 0u32, "icon", "Hello", "World", vec!["default"], hints, -1i32);
    let message = zbus::message::Message::method_call("/org/freedesktop/Notifications", "Notify")
        .unwrap()
        .interface("org.freedesktop.Notifications")
        .unwrap()
        .build(&call)
        .unwrap();
    let body = message.body();
    let endian = zbus::message::EndianSig::from(body.data().context().endian()) as u8;
    let signature = body.signature().to_string();
    let n = parse_notify_body(&signature, body.data().bytes(), endian, body.data().fds()).unwrap();
    assert_eq!(n.app_id(), "org.mail");
    assert_eq!(n.body, "World");
}

#[test]
fn hints_are_found_by_name() {
    let hint = |name: &str, text: Option<&str>| Hint {
        name: name.to_string(),
        text: text.map(|t| t.to_string()),
    };
    let call = |hints: Vec<Hint>| NotifyCall {
        app_name: "a".to_string(),
        summary: "s".to_string(),
        body: "b".to_string(),
        hints,
    };
    let found = notification_of(call(vec![hint("x", Some("1")), hint("desktop-entry", Some("2"))]));
    assert_eq!(found.desktop_entry, "2");
    assert_eq!(found.app_name, "a");
    assert_eq!(notification_of(call(vec![hint("x", Some("1"))])).desktop_entry, "");
    assert_eq!(notification_of(call(vec![hint("desktop-entry", None)])).desktop_entry, "");
}

#[test]
fn only_notify_calls_are_handled() {
    let interface = "org.freedesktop.Notifications";
    assert!(is_notify_call(Some("Notify"), Some(interface)));
    assert!(!is_notify_call(Some("notify"), Some(interface)));
    assert!(!is_notify_call(Some("Notify"), Some("org.freedesktop.DBus")));
    assert!(!is_notify_call(None, Some(interface)));
    assert!(!is_notify_call(Some("Notify"), None));
}

#[test]
fn monitor_steps() {
    let interface = Some("org.freedesktop.Notifications");
    let bytes = body(Endian::Little, HashMap::new());
    let open = filter("blacklist", &[]);
    let closed = filter("blacklist", &["mail"]);
    let step = monitor_step(&open, Some("Notify"), interface, SIGNATURE, &bytes, b'l', &[]);
    assert!(matches!(step, MonitorStep::Show(n) if n.summary == "Hello"));
    let step = monitor_step(&closed, Some("Notify"), interface, SIGNATURE, &bytes, b'l', &[]);
    assert!(matches!(step, MonitorStep::Hide(n) if n.summary == "Hello"));
    let step = monitor_step(&open, Some("Notify"), interface, SIGNATURE, &bytes[..4], b'l', &[]);
    assert!(matches!(step, MonitorStep::Unreadable));
    let step = monitor_step(&open, Some("Close"), interface, SIGNATURE, &bytes, b'l', &[]);
    assert!(matches!(step, MonitorStep::Skip));
}

#[test]
fn latest_notification_is_the_last_shown() {
    let open = filter("blacklist", &["chat"]);
    let mut latest: Option<Notification> = None;
    update_latest(&mut latest, &judge(&open, None));
    assert!(latest.is_none());
    update_latest(&mut latest, &judge(&open, Some(notification("Mail", ""))));
    update_latest(&mut latest, &judge(&open, Some(notification("Chat", ""))));
    update_latest(&mut latest, &MonitorStep::Skip);
    assert_eq!(latest.unwrap().app_name, "Mail");
}

#[test]
fn reads_hints_that_hold_descriptors() {
    let stderr = std::io::stderr();
    let hints = HashMap::from([
        ("desktop-entry", Value::from("org.mail")),
        ("sound-handle", Value::from(Fd::from(&stderr))),
    ]);
    let call = ("Mail", 0u32, "icon", "Hello", "World", vec!["default"], hints, -1i32);
    let message = zbus::message::Message::method_call("/org/freedesktop/Notifications", "Notify")
        .unwrap()
        .interface("org.freedesktop.Notifications")
        .unwrap()
        .build(&call)
        .unwrap();
    let body = message.body();
    let endian = zbus::message::EndianSig::from(body.data().context().endian()) as u8;
    let signature = body.signature().to_string();
    let bytes = body.data().bytes();
    assert_eq!(body.data().fds().len(), 1);
    let n = parse_notify_body(&signature, bytes, endian, body.data().fds()).unwrap();
    assert_eq!(n.desktop_entry, "org.mail");
    assert_eq!(n.summary, "Hello");
    let open = filter("blacklist", &[]);
    let interface = Some("org.freedesktop.Notifications");
    let step =
        monitor_step(&open, Some("Notify"), interface, &signature, bytes, endian, body.data().fds());
    assert!(matches!(step, MonitorStep::Show(n) if n.app_id() == "org.mail"));
    // Without the descriptor that the hint refers to, the arguments cannot be read.
    assert!(parse_notify_body(&signature, bytes, endian, &[]).is_none());
}

#[test]
fn desktop_entry_may_be_a_descriptor() {
    let stderr = std::io::stderr();
    let hints = HashMap::from([("desktop-entry", Value::from(Fd::from(&stderr)))]);
    let call = ("Mail", 0u32, "icon", "Hello", "World", vec!["default"], hints, -1i32);
    let data = to_bytes(Context::new_dbus(Endian::Little, 0), &call).unwrap();
    let n = parse_notify_body(SIGNATURE, data.bytes(), b'l', data.fds()).unwrap();
    assert_eq!(n.desktop_entry, "");
    assert_eq!(n.app_id(), "Mail");
}
