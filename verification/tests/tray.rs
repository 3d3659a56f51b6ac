use eink_daemon::tray::{MenuAction, MenuValue, TrayIcon, TrayMenu};

#[test]
fn icon_properties() {
    let icon = TrayIcon;
    assert_eq!(icon.icon_name(), "audio-subwoofer-symbolic");
    assert_eq!(icon.category(), "SystemServices");
    assert_eq!(icon.id(), "eink-daemon");
    assert_eq!(icon.title(), "eink-daemon");
    assert_eq!(icon.version(), 3);
    assert_eq!(icon.text_direction(), "ltr");
    assert_eq!(icon.status(), "normal");
    assert_eq!(icon.menu(), "/Menu");
    assert_eq!(icon.activate(1, 2), "Someone clicked the tray icon!");
}

#[test]
fn menu_items() {
    let layout = TrayMenu.get_layout(0, -1, vec![]);
    assert_eq!(layout.revision, 1);
    assert_eq!(layout.root_id, 0);
    assert!(layout.root_properties.is_empty());
    assert_eq!(layout.items.len(), 3);
    assert!(layout.items.iter().all(|item| item.children.is_empty()));
    assert_eq!(layout.items[0].id, 1);
    assert_eq!(layout.items[0].properties.len(), 2);
    assert_eq!(layout.items[0].properties[0].0, "label");
    assert!(matches!(&layout.items[0].properties[0].1, MenuValue::Text(t) if t == "eInk Display"));
    assert_eq!(layout.items[0].properties[1].0, "enabled");
    assert!(matches!(layout.items[0].properties[1].1, MenuValue::Flag(false)));
    assert_eq!(layout.items[1].id, 2);
    assert_eq!(layout.items[1].properties.len(), 1);
    assert_eq!(layout.items[1].properties[0].0, "type");
    assert!(matches!(&layout.items[1].properties[0].1, MenuValue::Text(t) if t == "separator"));
    assert_eq!(layout.items[2].id, 3);
    assert_eq!(layout.items[2].properties.len(), 1);
    assert_eq!(layout.items[2].properties[0].0, "label");
    assert!(matches!(&layout.items[2].properties[0].1, MenuValue::Text(t) if t == "Quit"));
}

#[test]
fn only_a_click_on_quit_quits() {
    assert_eq!(TrayMenu.event(3, "clicked"), MenuAction::Quit);
    assert_eq!(TrayMenu.event(3, "hovered"), MenuAction::Ignore);
    assert_eq!(TrayMenu.event(1, "clicked"), MenuAction::Ignore);
    assert_eq!(TrayMenu.event(-3, "clicked"), MenuAction::Ignore);
}
