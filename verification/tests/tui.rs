use apple_battery_guard::battery::BatteryStatus;
use apple_battery_guard::tui::{capacity_color, dashboard_step, dashboard, is_quit_key, status_color, Color, Key};

#[test]
fn capacity_colors() {
    assert_eq!(capacity_color(0), Color::Red);
    assert_eq!(capacity_color(20), Color::Red);
    assert_eq!(capacity_color(21), Color::LightRed);
    assert_eq!(capacity_color(40), Color::LightRed);
    assert_eq!(capacity_color(60), Color::Yellow);
    assert_eq!(capacity_color(80), Color::Green);
    assert_eq!(capacity_color(81), Color::LightGreen);
    assert_eq!(capacity_color(255), Color::LightGreen);
}

#[test]
fn status_colors() {
    assert_eq!(status_color("Charging"), Color::Green);
    assert_eq!(status_color("Discharging"), Color::Yellow);
    assert_eq!(status_color("Full"), Color::Cyan);
    assert_eq!(status_color("Not charging"), Color::Gray);
    assert_eq!(status_color("Unknown"), Color::White);
    assert_eq!(status_color("charging"), Color::White);
}

#[test]
fn dashboard_with_and_without_battery() {
    let s = BatteryStatus {
        capacity: 75,
        status: "Discharging".to_string(),
        charge_control_end_threshold: Some(80),
    };
    let d = dashboard(Some(&s));
    assert_eq!(d.capacity, 75);
    assert_eq!(d.gauge_color, Color::Green);
    assert_eq!(d.gauge_label, "75%");
    let line = d.info.unwrap();
    assert_eq!(line.status, "Discharging");
    assert_eq!(line.status_color, Color::Yellow);
    assert_eq!(line.threshold, "80%");

    let s2 = BatteryStatus {
        capacity: 10,
        status: "Charging".to_string(),
        charge_control_end_threshold: None,
    };
    assert_eq!(dashboard(Some(&s2)).info.unwrap().threshold, "não suportado");

    let none = dashboard(None);
    assert_eq!(none.capacity, 0);
    assert_eq!(none.gauge_color, Color::DarkGray);
    assert_eq!(none.gauge_label, "0%");
    assert!(none.info.is_none());
}

#[test]
fn quit_keys() {
    assert!(is_quit_key(Key::Char('q')));
    assert!(is_quit_key(Key::Char('Q')));
    assert!(is_quit_key(Key::Esc));
    assert!(!is_quit_key(Key::Char('x')));
    assert!(!is_quit_key(Key::Other));
}

#[test]
fn dashboard_refresh_and_quit() {
    assert_eq!(dashboard_step(None, None), (true, false));
    assert_eq!(dashboard_step(Some(4999), None), (false, false));
    assert_eq!(dashboard_step(Some(5000), None), (true, false));
    assert_eq!(dashboard_step(Some(10), Some(Key::Esc)), (false, true));
    assert_eq!(dashboard_step(Some(10), Some(Key::Char('x'))), (false, false));
}
