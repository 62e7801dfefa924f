use apple_battery_guard::systemd::{notify_ready, notify_status, notify_watchdog, sd_notify};

#[test]
fn no_socket_no_notification() {
    assert!(notify_ready(None).is_none());
    assert!(notify_watchdog(None).is_none());
}

#[test]
fn path_socket() {
    let n = notify_ready(Some("/run/systemd/notify")).unwrap();
    assert!(!n.abstract_socket);
    assert_eq!(n.address, "/run/systemd/notify");
    assert_eq!(n.message, "READY=1");
    let w = notify_watchdog(Some("/run/systemd/notify")).unwrap();
    assert_eq!(w.message, "WATCHDOG=1");
}

#[test]
fn abstract_socket() {
    let n = notify_status(Some("@/org/freedesktop/systemd1/notify"), "a correr").unwrap();
    assert!(n.abstract_socket);
    assert_eq!(n.address, "/org/freedesktop/systemd1/notify");
    assert_eq!(n.message, "STATUS=a correr");
}

#[test]
fn abstract_name_length_limit() {
    let ok = format!("@{}", "a".repeat(106));
    assert!(sd_notify(Some(&ok), "READY=1").is_some());
    let long = format!("@{}", "a".repeat(107));
    assert!(sd_notify(Some(&long), "READY=1").is_none());
    // counted in bytes: 53 two-byte characters are 106 bytes, 54 are too many
    let two = format!("@{}", "é".repeat(53));
    assert!(sd_notify(Some(&two), "READY=1").is_some());
    let two_long = format!("@{}", "é".repeat(54));
    assert!(sd_notify(Some(&two_long), "READY=1").is_none());
}
