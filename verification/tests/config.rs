use apple_battery_guard::config::{Config, ConfigError, Weekday, DEFAULT_SOCKET_PATH};

#[test]
fn defaults_are_sane() {
    let cfg = Config::default();
    assert_eq!(cfg.battery.charge_end_threshold, 80);
    assert_eq!(cfg.daemon.interval_secs, 30);
    assert!(!cfg.full_charge.enabled);
    cfg.validate().unwrap();
}

#[test]
fn default_values_in_full() {
    let cfg = Config::default();
    assert_eq!(cfg.daemon.socket_path, DEFAULT_SOCKET_PATH);
    assert_eq!(cfg.daemon.socket_path, "/run/apple-battery-guard/daemon.sock");
    assert_eq!(cfg.full_charge.weekday, Weekday::Sunday);
}

#[test]
fn validation_rejects_zero_threshold() {
    let mut cfg = Config::default();
    cfg.battery.charge_end_threshold = 0;
    let err = cfg.validate().unwrap_err();
    assert!(matches!(err, ConfigError::Validation(_)));
}

#[test]
fn validation_rejects_threshold_above_100() {
    let mut cfg = Config::default();
    cfg.battery.charge_end_threshold = 101;
    assert!(matches!(cfg.validate(), Err(ConfigError::Validation(_))));
}

#[test]
fn validation_rejects_zero_interval() {
    let mut cfg = Config::default();
    cfg.daemon.interval_secs = 0;
    assert!(matches!(cfg.validate(), Err(ConfigError::Validation(_))));
}

#[test]
fn validation_rejects_empty_socket_path() {
    let mut cfg = Config::default();
    cfg.daemon.socket_path = String::new();
    assert!(matches!(cfg.validate(), Err(ConfigError::Validation(_))));
}

#[test]
fn validation_messages() {
    let mut cfg = Config::default();
    cfg.battery.charge_end_threshold = 101;
    cfg.daemon.interval_secs = 0;
    match cfg.validate() {
        Err(ConfigError::Validation(m)) => {
            assert_eq!(m, "charge_end_threshold 101 fora do intervalo válido (1–100)")
        }
        _ => panic!("expected Validation"),
    }
    cfg.battery.charge_end_threshold = 100;
    match cfg.validate() {
        Err(ConfigError::Validation(m)) => assert_eq!(m, "interval_secs deve ser > 0"),
        _ => panic!("expected Validation"),
    }
    cfg.daemon.interval_secs = 1;
    cfg.daemon.socket_path = String::new();
    match cfg.validate() {
        Err(e) => assert_eq!(
            e.message(),
            "config validation error: socket_path não pode ser vazio"
        ),
        _ => panic!("expected Validation"),
    }
    cfg.battery.charge_end_threshold = 1;
    cfg.daemon.socket_path = "x".to_string();
    assert!(cfg.validate().is_ok());
}

#[test]
fn load_or_default_returns_default_when_missing() {
    let cfg = Config::load_or_default(None);
    assert_eq!(cfg, Config::default());
}

#[test]
fn load_or_default_returns_default_on_invalid_toml() {
    let cfg = Config::load_or_default(Some(Err(ConfigError::Parse(
        "expected a table".to_string(),
    ))));
    assert_eq!(cfg, Config::default());
}

#[test]
fn load_or_default_keeps_loaded_config() {
    let mut loaded = Config::default();
    loaded.battery.charge_end_threshold = 75;
    loaded.full_charge.enabled = true;
    loaded.full_charge.weekday = Weekday::Wednesday;
    let cfg = Config::load_or_default(Some(Ok(loaded.clone())));
    assert_eq!(cfg, loaded);
}

#[test]
fn config_error_messages() {
    let io = ConfigError::Io { path: "/etc/x.toml".to_string(), source: "denied".to_string() };
    assert_eq!(io.message(), "I/O error on /etc/x.toml: denied");
    assert_eq!(ConfigError::Parse("bad".to_string()).message(), "TOML parse error: bad");
    assert_eq!(
        ConfigError::Serialize("bad".to_string()).message(),
        "TOML serialize error: bad"
    );
}

#[test]
fn weekday_numbers() {
    let days = [
        Weekday::Sunday,
        Weekday::Monday,
        Weekday::Tuesday,
        Weekday::Wednesday,
        Weekday::Thursday,
        Weekday::Friday,
        Weekday::Saturday,
    ];
    for (i, d) in days.iter().enumerate() {
        assert_eq!(d.number(), i as u64);
    }
}
