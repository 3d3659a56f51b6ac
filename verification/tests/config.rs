use eink_daemon::config::{
    config_path, default_filter_mode, default_log_path, expand_tilde, CalendarConfig,
    DisplayConfig, NotificationConfig,
};

#[test]
fn defaults() {
    let config = NotificationConfig::default();
    assert_eq!(config.log_path, "~/.local/share/eink-daemon/notifications.log");
    assert_eq!(config.filter_mode, "blacklist");
    assert!(config.filter_apps.is_empty());
    assert_eq!(default_log_path(), config.log_path);
    assert_eq!(default_filter_mode(), config.filter_mode);
}

#[test]
fn tilde_expansion() {
    assert_eq!(expand_tilde("~/a/b.log", Some("/home/u")), "/home/u/a/b.log");
    assert_eq!(expand_tilde("~/a", Some("/home/u/")), "/home/u/a");
    assert_eq!(expand_tilde("~/a", Some("")), "a");
    assert_eq!(expand_tilde("~/", Some("/home/u")), "/home/u/");
    assert_eq!(expand_tilde("~//etc/x", Some("/home/u")), "/etc/x");
    assert_eq!(expand_tilde("~/a", None), "~/a");
    assert_eq!(expand_tilde("~", Some("/home/u")), "~");
    assert_eq!(expand_tilde("~bob/a", Some("/home/u")), "~bob/a");
    assert_eq!(expand_tilde("/var/~/a", Some("/home/u")), "/var/~/a");
    assert_eq!(expand_tilde("", Some("/home/u")), "");
    assert_eq!(expand_tilde("~/\u{e9}", Some("/h\u{f6}me")), "/h\u{f6}me/\u{e9}");
}

#[test]
fn tilde_expansion_joins_like_a_path() {
    for home in ["/home/u", "/home/u/", "", "rel", "/"] {
        for rest in ["a", "a/b", "", "/abs", "./x", "../y"] {
            let path = format!("~/{}", rest);
            let joined = std::path::PathBuf::from(home).join(rest);
            assert_eq!(expand_tilde(&path, Some(home)), joined.to_str().unwrap());
        }
    }
}

#[test]
fn settings_file() {
    assert_eq!(config_path("/home/u"), "/home/u/.config/eink-daemon/config.toml");
}

#[test]
fn panel_address() {
    let display = DisplayConfig { host: "192.168.1.5".to_string(), port: 8080 };
    assert_eq!(display.url(), "http://192.168.1.5:8080/");
    let display = DisplayConfig { host: "panel".to_string(), port: 0 };
    assert_eq!(display.url(), "http://panel:0/");
    let display = DisplayConfig { host: "panel".to_string(), port: 65535 };
    assert_eq!(display.url(), "http://panel:65535/");
}

#[test]
fn local_zone_or_message() {
    let calendar = CalendarConfig { uid: "x".to_string(), timezone: "Europe/Berlin".to_string() };
    assert_eq!(calendar.local_zone().unwrap().name(), "Europe/Berlin");
    let calendar = CalendarConfig { uid: "x".to_string(), timezone: "Nowhere".to_string() };
    assert_eq!(calendar.local_zone().unwrap_err(), "Invalid timezone: Nowhere");
}
