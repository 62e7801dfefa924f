use apple_battery_guard::text::{dec_string, json_escape_string, path_join_exec};

#[test]
fn json_escape_handles_quotes_and_backslashes() {
    assert_eq!(json_escape_string(r#"a"b\c"#), r#"a\"b\\c"#);
    assert_eq!(json_escape_string("plain é"), "plain é");
    assert_eq!(json_escape_string(""), "");
}

#[test]
fn decimal_strings() {
    assert_eq!(dec_string(0), "0");
    assert_eq!(dec_string(80), "80");
    assert_eq!(dec_string(u64::MAX), "18446744073709551615");
}

#[test]
fn path_joins() {
    assert_eq!(path_join_exec("/sys/class/power_supply", "BAT0"), "/sys/class/power_supply/BAT0");
    assert_eq!(path_join_exec("/sys/", "BAT0"), "/sys/BAT0");
    assert_eq!(path_join_exec("", "BAT0"), "BAT0");
}

#[test]
fn path_join_absolute_name_replaces_base() {
    assert_eq!(path_join_exec("/sys/class", "/etc/x"), "/etc/x");
}
