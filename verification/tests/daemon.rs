use apple_battery_guard::battery::{BatteryError, BatteryStatus};
use apple_battery_guard::config::{Config, Weekday};
use apple_battery_guard::daemon::{
    apply_threshold, daemon_step, effective_threshold, DaemonAction, DaemonEvent, format_status_json, handle_request,
    is_full_charge_day, DaemonError, DaemonState,
};

fn status(capacity: u8, st: &str, threshold: Option<u8>) -> BatteryStatus {
    BatteryStatus {
        capacity,
        status: st.to_string(),
        charge_control_end_threshold: threshold,
    }
}

const DAY: u64 = 86400;

#[test]
fn epoch_was_a_thursday() {
    let mut cfg = Config::default();
    cfg.full_charge.weekday = Weekday::Thursday;
    assert!(is_full_charge_day(&cfg, 0));
    assert!(is_full_charge_day(&cfg, DAY - 1));
    assert!(!is_full_charge_day(&cfg, DAY));
    cfg.full_charge.weekday = Weekday::Friday;
    assert!(is_full_charge_day(&cfg, DAY));
    // 2024-01-07 was a Sunday
    cfg.full_charge.weekday = Weekday::Sunday;
    assert!(is_full_charge_day(&cfg, 1_704_585_600));
}

#[test]
fn effective_threshold_normal() {
    let cfg = Config::default();
    assert_eq!(effective_threshold(&cfg, 0), 80);
}

#[test]
fn effective_threshold_full_charge_day() {
    let mut cfg = Config::default();
    cfg.full_charge.weekday = Weekday::Thursday;
    assert_eq!(effective_threshold(&cfg, 0), 80);
    cfg.full_charge.enabled = true;
    assert_eq!(effective_threshold(&cfg, 0), 100);
    assert_eq!(effective_threshold(&cfg, DAY), 80);
    assert_eq!(effective_threshold(&cfg, 7 * DAY), 100);
}

#[test]
fn full_charge_day_once_a_week() {
    let mut cfg = Config::default();
    cfg.full_charge.weekday = Weekday::Tuesday;
    for start in [0u64, 12345, 1_700_000_000] {
        let n = (0..7).filter(|k| is_full_charge_day(&cfg, start + k * DAY)).count();
        assert_eq!(n, 1);
    }
}

#[test]
fn apply_threshold_writes_only_when_needed() {
    let cfg = Config::default();
    let mut state = DaemonState::default();
    let w = apply_threshold(&cfg, 50, Ok(status(60, "Charging", Some(100))), true, &mut state);
    assert_eq!(w, Some(80));
    assert_eq!(state.last_applied_threshold, Some(80));
    assert_eq!(state.last_poll_ts, 50);
    assert_eq!(state.last_status.as_ref().unwrap().capacity, 60);
    assert!(state.error.is_none());
    let w = apply_threshold(&cfg, 80, Ok(status(61, "Charging", Some(80))), true, &mut state);
    assert_eq!(w, None);
    let w = apply_threshold(&cfg, 90, Ok(status(61, "Charging", None)), false, &mut state);
    assert_eq!(w, None);
    assert_eq!(state.last_poll_ts, 90);
}

#[test]
fn apply_threshold_records_errors() {
    let cfg = Config::default();
    let mut state = DaemonState::default();
    apply_threshold(&cfg, 10, Ok(status(60, "Charging", Some(80))), true, &mut state);
    let w = apply_threshold(
        &cfg,
        20,
        Err(BatteryError::NotFound("/sys/x/capacity".to_string())),
        true,
        &mut state,
    );
    assert_eq!(w, None);
    assert_eq!(state.error.as_deref(), Some("sysfs path not found: /sys/x/capacity"));
    assert_eq!(state.last_poll_ts, 10);
    assert_eq!(state.last_applied_threshold, Some(80));
}

#[test]
fn format_status_json_empty_state() {
    let s = DaemonState::default();
    assert_eq!(
        format_status_json(&s),
        r#"{"capacity":null,"status":null,"threshold":null,"last_poll":0,"error":null}"#
    );
}

#[test]
fn format_status_json_with_data() {
    let s = DaemonState {
        last_status: Some(status(75, "Discharging", Some(80))),
        last_applied_threshold: Some(80),
        last_poll_ts: 1000000,
        error: None,
    };
    assert_eq!(
        format_status_json(&s),
        r#"{"capacity":75,"status":"Discharging","threshold":80,"last_poll":1000000,"error":null}"#
    );
}

#[test]
fn format_status_json_escapes_special_chars_in_status() {
    let s = DaemonState {
        last_status: Some(status(5, "a\"b\\c", None)),
        last_applied_threshold: None,
        last_poll_ts: 18446744073709551615,
        error: Some("x\"y".to_string()),
    };
    assert_eq!(
        format_status_json(&s),
        r#"{"capacity":5,"status":"a\"b\\c","threshold":null,"last_poll":18446744073709551615,"error":"x\"y"}"#
    );
}

#[test]
fn socket_requests() {
    let s = DaemonState::default();
    assert_eq!(handle_request("ping\n", &s), r#"{"pong":true}"#);
    assert_eq!(handle_request("  status \n", &s), format_status_json(&s));
    assert_eq!(
        handle_request("reboot\n", &s),
        r#"{"error":"unknown command: reboot"}"#
    );
    assert_eq!(handle_request("", &s), r#"{"error":"unknown command: "}"#);
}

#[test]
fn daemon_error_messages() {
    assert_eq!(
        DaemonError::Socket("bind: denied".to_string()).message(),
        "socket error: bind: denied"
    );
    assert_eq!(
        DaemonError::Battery(BatteryError::Io("x".to_string())).message(),
        "battery error: I/O error: x"
    );
}

#[test]
fn effective_threshold_full_charge_day_disabled() {
    let mut cfg = Config::default();
    cfg.full_charge.enabled = false;
    cfg.full_charge.weekday = Weekday::Thursday;
    cfg.battery.charge_end_threshold = 70;
    assert_eq!(effective_threshold(&cfg, 0), 70);
    assert!(is_full_charge_day(&cfg, 0));
}

#[test]
fn daemon_flow() {
    let mut cfg = Config::default();
    cfg.daemon.interval_secs = 45;
    assert_eq!(daemon_step(&cfg, DaemonEvent::Started), DaemonAction::PollThenReady);
    assert_eq!(daemon_step(&cfg, DaemonEvent::Polled { running: true }), DaemonAction::Sleep(45));
    assert_eq!(daemon_step(&cfg, DaemonEvent::Polled { running: false }), DaemonAction::Stop);
    assert_eq!(
        daemon_step(&cfg, DaemonEvent::Woke { running: true }),
        DaemonAction::PollThenWatchdog
    );
    assert_eq!(daemon_step(&cfg, DaemonEvent::Woke { running: false }), DaemonAction::Stop);
}
