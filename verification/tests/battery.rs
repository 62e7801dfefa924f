use apple_battery_guard::battery::{
    AttrRead, Battery, BatteryError, PowerSupplyEntry, PowerSupplyListing, SYSFS_POWER_SUPPLY,
};

const BASE: &str = "/tmp/abg-sysfs";

fn entry(name: &str, type_attr: Option<&str>) -> PowerSupplyEntry {
    PowerSupplyEntry {
        name: name.to_string(),
        type_attr: type_attr.map(|t| t.to_string()),
    }
}

/// A battery directory as sysfs shows it: `type` is "Battery\n".
fn fake_battery(name: &str) -> PowerSupplyEntry {
    entry(name, Some("Battery\n"))
}

fn text(s: &str) -> AttrRead {
    AttrRead::Text(s.to_string())
}

fn detect_bat0() -> Battery {
    Battery::detect_in(BASE, PowerSupplyListing::Entries(vec![fake_battery("BAT0")])).unwrap()
}

#[test]
fn detect_finds_battery() {
    let bat = Battery::detect_in(BASE, PowerSupplyListing::Entries(vec![fake_battery("BAT0")]))
        .unwrap();
    assert_eq!(bat.name, "BAT0");
}

#[test]
fn detect_ignores_non_battery_entries() {
    let result = Battery::detect_in(
        BASE,
        PowerSupplyListing::Entries(vec![entry("AC0", Some("Mains\n"))]),
    );
    assert!(matches!(result, Err(BatteryError::NotFound(_))));
}

#[test]
fn detect_prefers_bat0_over_bat1() {
    let bat = Battery::detect_in(
        BASE,
        PowerSupplyListing::Entries(vec![fake_battery("BAT1"), fake_battery("BAT0")]),
    )
    .unwrap();
    assert_eq!(bat.name, "BAT0");
}

#[test]
fn status_reads_all_fields() {
    let bat = detect_bat0();
    let s = bat.status(text("82\n"), text("Charging\n"), text("80\n")).unwrap();
    assert_eq!(s.capacity, 82);
    assert_eq!(s.status, "Charging");
    assert_eq!(s.charge_control_end_threshold, Some(80));
}

#[test]
fn status_without_threshold_support() {
    let bat = detect_bat0();
    let s = bat.status(text("55\n"), text("Discharging\n"), AttrRead::Missing).unwrap();
    assert_eq!(s.charge_control_end_threshold, None);
}

#[test]
fn set_threshold_writes_value() {
    let bat = Battery::detect_in(BASE, PowerSupplyListing::Entries(vec![fake_battery("BAT0")]))
        .unwrap();
    let write = bat.set_charge_threshold(80, true).unwrap();
    assert_eq!(write.path, "/tmp/abg-sysfs/BAT0/charge_control_end_threshold");
    assert_eq!(write.contents.trim(), "80");
}

#[test]
fn set_threshold_rejects_zero() {
    let bat = detect_bat0();
    let err = bat.set_charge_threshold(0, true).unwrap_err();
    assert!(matches!(err, BatteryError::ThresholdOutOfRange(0)));
}

#[test]
fn set_threshold_rejects_above_100() {
    let bat = detect_bat0();
    let err = bat.set_charge_threshold(101, true).unwrap_err();
    assert!(matches!(err, BatteryError::ThresholdOutOfRange(101)));
}

#[test]
fn set_threshold_fails_without_sysfs_file() {
    let bat = detect_bat0();
    let err = bat.set_charge_threshold(80, false).unwrap_err();
    assert!(matches!(err, BatteryError::NotFound(_)));
}

#[test]
fn set_threshold_write_is_decimal_with_newline() {
    let bat = detect_bat0();
    assert_eq!(bat.set_charge_threshold(100, true).unwrap().contents, "100\n");
    assert_eq!(bat.set_charge_threshold(1, true).unwrap().contents, "1\n");
    match bat.set_charge_threshold(7, false) {
        Err(BatteryError::NotFound(p)) => {
            assert_eq!(p, "/tmp/abg-sysfs/BAT0/charge_control_end_threshold")
        }
        _ => panic!("expected NotFound"),
    }
}

#[test]
fn threshold_written_reads_back() {
    let bat = detect_bat0();
    for pct in 1..=100u8 {
        let write = bat.set_charge_threshold(pct, true).unwrap();
        let s = bat
            .status(text("50\n"), text("Full\n"), AttrRead::Text(write.contents))
            .unwrap();
        assert_eq!(s.charge_control_end_threshold, Some(pct));
    }
}

#[test]
fn detect_uses_type_case_insensitively_and_trimmed() {
    let bat = Battery::detect_in(
        BASE,
        PowerSupplyListing::Entries(vec![
            entry("BAT2", Some("  BATTERY \n")),
            entry("BATX", None),
            entry("BAT1", Some("UPS\n")),
            entry("ADP1", Some("Battery\n")),
        ]),
    )
    .unwrap();
    assert_eq!(bat.name, "BAT2");
    assert_eq!(bat.base_path, "/tmp/abg-sysfs/BAT2");
}

#[test]
fn detect_errors_follow_the_listing() {
    match Battery::detect_in(BASE, PowerSupplyListing::Missing) {
        Err(BatteryError::NotFound(p)) => assert_eq!(p, BASE),
        _ => panic!("expected NotFound"),
    }
    match Battery::detect_in(BASE, PowerSupplyListing::Failed("denied".to_string())) {
        Err(BatteryError::Io(m)) => assert_eq!(m, "denied"),
        _ => panic!("expected Io"),
    }
    match Battery::detect_in(BASE, PowerSupplyListing::Entries(vec![])) {
        Err(BatteryError::NotFound(m)) => {
            assert_eq!(m, "no battery found under /tmp/abg-sysfs")
        }
        _ => panic!("expected NotFound"),
    }
}

#[test]
fn detect_default_base() {
    let bat = Battery::detect(PowerSupplyListing::Entries(vec![fake_battery("BAT0")])).unwrap();
    assert_eq!(bat.base_path, format!("{SYSFS_POWER_SUPPLY}/BAT0"));
    let with_slash = Battery::detect_in("/x/", PowerSupplyListing::Entries(vec![fake_battery("BAT0")]))
        .unwrap();
    assert_eq!(with_slash.base_path, "/x/BAT0");
}

#[test]
fn status_errors() {
    let bat = detect_bat0();
    match bat.status(text("abc\n"), text("Full"), AttrRead::Missing) {
        Err(BatteryError::Parse(m)) => assert_eq!(m, "capacity=\"abc\""),
        _ => panic!("expected Parse"),
    }
    match bat.status(text("300"), text("Full"), AttrRead::Missing) {
        Err(BatteryError::Parse(m)) => assert_eq!(m, "capacity=\"300\""),
        _ => panic!("expected Parse"),
    }
    match bat.status(AttrRead::Missing, text("Full"), AttrRead::Missing) {
        Err(BatteryError::NotFound(p)) => assert_eq!(p, "/tmp/abg-sysfs/BAT0/capacity"),
        _ => panic!("expected NotFound"),
    }
    match bat.status(text("40"), AttrRead::Failed("busy".to_string()), AttrRead::Missing) {
        Err(BatteryError::Io(m)) => assert_eq!(m, "busy"),
        _ => panic!("expected Io"),
    }
    let s = bat.status(text("+07"), text(" Not charging \n"), text("x")).unwrap();
    assert_eq!(s.capacity, 7);
    assert_eq!(s.status, "Not charging");
    assert_eq!(s.charge_control_end_threshold, None);
}

#[test]
fn battery_error_messages() {
    assert_eq!(
        BatteryError::NotFound("/sys/x".to_string()).message(),
        "sysfs path not found: /sys/x"
    );
    assert_eq!(
        BatteryError::Parse("capacity=\"x\"".to_string()).message(),
        "failed to parse value: capacity=\"x\""
    );
    assert_eq!(BatteryError::Io("denied".to_string()).message(), "I/O error: denied");
    assert_eq!(
        BatteryError::ThresholdOutOfRange(101).message(),
        "threshold 101% out of range (1–100)"
    );
}

#[test]
fn status_rejects_capacity_above_100() {
    let bat = detect_bat0();
    match bat.status(text("150\n"), text("Full"), AttrRead::Missing) {
        Err(BatteryError::Parse(m)) => assert_eq!(m, "capacity=\"150\""),
        _ => panic!("expected Parse"),
    }
    let s = bat.status(text("100\n"), text("Full"), text("255")).unwrap();
    assert_eq!(s.capacity, 100);
    assert_eq!(s.charge_control_end_threshold, Some(255));
    let s = bat.status(text("0"), text("Discharging"), text("256")).unwrap();
    assert_eq!(s.capacity, 0);
    assert_eq!(s.charge_control_end_threshold, None);
}
