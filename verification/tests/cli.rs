use apple_battery_guard::battery::BatteryStatus;
use apple_battery_guard::cli::{daemon_status_report, parse_status_json, status_report};
use apple_battery_guard::daemon::{format_status_json, DaemonState};

#[test]
fn parse_status_json_normal() {
    let json = r#"{"capacity":75,"status":"Discharging","threshold":80,"last_poll":1000000,"error":null}"#;
    let result = parse_status_json(json).unwrap();
    assert_eq!(result.0, 75);
    assert_eq!(result.1, "Discharging");
    assert_eq!(result.2, 80);
}

#[test]
fn parse_status_json_null_capacity_returns_none() {
    let json = r#"{"capacity":null,"status":null,"threshold":null,"last_poll":0,"error":null}"#;
    assert!(parse_status_json(json).is_none());
}

#[test]
fn parse_status_json_escaped_status() {
    let json = r#"{"capacity":50,"status":"Not \"charging\"","threshold":80,"last_poll":0,"error":null}"#;
    let result = parse_status_json(json).unwrap();
    assert_eq!(result.1, r#"Not "charging""#);
}

#[test]
fn parse_status_json_edge_cases() {
    // whitespace after the key, leading zeros, other escapes kept
    let json = r#"{"capacity": 007,"status":"a\nb\\c","threshold":	100}"#;
    let result = parse_status_json(json).unwrap();
    assert_eq!(result, (7, r"a\nb\c".to_string(), 100));
    // over 255
    assert!(parse_status_json(r#"{"capacity":256,"status":"x","threshold":1}"#).is_none());
    // no closing quote
    assert!(parse_status_json(r#"{"capacity":1,"threshold":1,"status":"x"#).is_none());
    // the status ends at the first unescaped quote
    assert_eq!(
        parse_status_json(r#"{"capacity":1,"status":"x,"threshold":1"#),
        Some((1, "x,".to_string(), 1))
    );
    // missing key
    assert!(parse_status_json(r#"{"capacity":1,"status":"x"}"#).is_none());
}

#[test]
fn status_report_reads_back() {
    let statuses = ["Charging", "Not \"charging\"", "back\\slash", "", "\"threshold\":9", "d\""];
    for st in statuses {
        let state = DaemonState {
            last_status: Some(BatteryStatus {
                capacity: 42,
                status: st.to_string(),
                charge_control_end_threshold: Some(80),
            }),
            last_applied_threshold: Some(90),
            last_poll_ts: 1_700_000_000,
            error: Some("oops \"x\"".to_string()),
        };
        let json = format_status_json(&state);
        assert_eq!(parse_status_json(&json), Some((42, st.to_string(), 90)));
    }
    let empty = DaemonState::default();
    assert_eq!(parse_status_json(&format_status_json(&empty)), None);
}

#[test]
fn status_report_lines() {
    let s = BatteryStatus {
        capacity: 75,
        status: "Discharging".to_string(),
        charge_control_end_threshold: Some(80),
    };
    assert_eq!(status_report(&s), "Bateria:   75%\nEstado:    Discharging\nThreshold: 80%\n");
    let s2 = BatteryStatus {
        capacity: 5,
        status: "Charging".to_string(),
        charge_control_end_threshold: None,
    };
    assert_eq!(
        status_report(&s2),
        "Bateria:   5%\nEstado:    Charging\nThreshold: não suportado pelo kernel\n"
    );
    let json = r#"{"capacity":75,"status":"Discharging","threshold":80,"last_poll":1,"error":null}"#;
    assert_eq!(
        daemon_status_report(Some(json)).unwrap(),
        "Bateria:   75%\nEstado:    Discharging\nThreshold: 80%\n"
    );
    assert!(daemon_status_report(None).is_none());
    assert!(daemon_status_report(Some(r#"{"capacity":null}"#)).is_none());
}
