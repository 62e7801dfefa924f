//! The configuration: its values, their defaults and their validation.
//!
//! Reading and writing the TOML file is left to the caller; `load_or_default`
//! takes what loading gave.

use vstd::prelude::*;
use crate::text::{dec, dec_string};

verus! {

/// Where the configuration file lives by default.
pub const DEFAULT_CONFIG_PATH: &'static str = "/etc/apple-battery-guard/apple-battery-guard.toml";

/// The daemon's socket path by default.
pub const DEFAULT_SOCKET_PATH: &'static str = "/run/apple-battery-guard/daemon.sock";

/// The whole configuration.
#[derive(Debug, Clone, PartialEq)]
pub struct Config {
    pub battery: BatteryConfig,
    pub daemon: DaemonConfig,
    pub full_charge: FullChargeConfig,
}

/// The `[battery]` table.
#[derive(Debug, Clone, PartialEq)]
pub struct BatteryConfig {
    /// End-of-charge threshold in normal use (1–100). Default: 80.
    pub charge_end_threshold: u8,
}

/// The `[daemon]` table.
#[derive(Debug, Clone, PartialEq)]
pub struct DaemonConfig {
    /// Polling interval in seconds. Default: 30.
    pub interval_secs: u64,
    /// The Unix socket for the CLI. Default: /run/apple-battery-guard/daemon.sock
    pub socket_path: String,
}

/// A day of the week.
#[derive(Debug, Clone, Copy, PartialEq, Eq, Structural)]
pub enum Weekday {
    Sunday,
    Monday,
    Tuesday,
    Wednesday,
    Thursday,
    Friday,
    Saturday,
}

/// The `[full_charge]` table.
#[derive(Debug, Clone, PartialEq)]
pub struct FullChargeConfig {
    /// Charge to 100% once a week. Default: false.
    pub enabled: bool,
    /// The day of that full charge. Default: Sunday.
    pub weekday: Weekday,
}

impl Weekday {
    /// The day's number: 0 for Sunday up to 6 for Saturday.
    pub open spec fn index(self) -> nat {
        match self {
            Weekday::Sunday => 0,
            Weekday::Monday => 1,
            Weekday::Tuesday => 2,
            Weekday::Wednesday => 3,
            Weekday::Thursday => 4,
            Weekday::Friday => 5,
            Weekday::Saturday => 6,
        }
    }

    /// The day's number: 0 for Sunday up to 6 for Saturday.
    pub fn number(&self) -> (n: u64)
        ensures
            n == self.index(),
    {
        match self {
            Weekday::Sunday => 0,
            Weekday::Monday => 1,
            Weekday::Tuesday => 2,
            Weekday::Wednesday => 3,
            Weekday::Thursday => 4,
            Weekday::Friday => 5,
            Weekday::Saturday => 6,
        }
    }
}

impl Default for BatteryConfig {
    fn default() -> (r: Self)
        ensures
            r.charge_end_threshold == 80,
    {
        BatteryConfig { charge_end_threshold: 80 }
    }
}

impl Default for DaemonConfig {
    fn default() -> (r: Self)
        ensures
            r.interval_secs == 30,
            r.socket_path@ == DEFAULT_SOCKET_PATH@,
    {
        DaemonConfig { interval_secs: 30, socket_path: String::from_str(DEFAULT_SOCKET_PATH) }
    }
}

impl Default for FullChargeConfig {
    fn default() -> (r: Self)
        ensures
            !r.enabled,
            r.weekday == Weekday::Sunday,
    {
        FullChargeConfig { enabled: false, weekday: Weekday::Sunday }
    }
}

impl Default for Config {
    fn default() -> (r: Self)
        ensures
            r.is_default(),
    {
        Config {
            battery: BatteryConfig::default(),
            daemon: DaemonConfig::default(),
            full_charge: FullChargeConfig::default(),
        }
    }
}

/// Why the configuration could not be had.
#[derive(Debug)]
pub enum ConfigError {
    /// Reading or writing `path` failed with the message `source`.
    Io { path: String, source: String },
    /// The file is not valid TOML for a configuration.
    Parse(String),
    /// The configuration could not be written as TOML.
    Serialize(String),
    /// A value is out of its range.
    Validation(String),
}

/// The mathematical value of a `ConfigError`.
pub enum ConfigFault {
    Io { path: Seq<char>, source: Seq<char> },
    Parse(Seq<char>),
    Serialize(Seq<char>),
    Validation(Seq<char>),
}

impl View for ConfigError {
    type V = ConfigFault;

    open spec fn view(&self) -> ConfigFault {
        match self {
            ConfigError::Io { path, source } => ConfigFault::Io { path: path@, source: source@ },
            ConfigError::Parse(s) => ConfigFault::Parse(s@),
            ConfigError::Serialize(s) => ConfigFault::Serialize(s@),
            ConfigError::Validation(s) => ConfigFault::Validation(s@),
        }
    }
}

/// The text of a configuration error, as it is shown to the user.
pub open spec fn config_fault_message(f: ConfigFault) -> Seq<char> {
    match f {
        ConfigFault::Io { path, source } => "I/O error on "@ + path + ": "@ + source,
        ConfigFault::Parse(s) => "TOML parse error: "@ + s,
        ConfigFault::Serialize(s) => "TOML serialize error: "@ + s,
        ConfigFault::Validation(s) => "config validation error: "@ + s,
    }
}

impl ConfigError {
    /// The text of the error, as it is shown to the user.
    pub fn message(&self) -> (m: String)
        ensures
            m@ == config_fault_message(self@),
    {
        match self {
            ConfigError::Io { path, source } => String::from_str("I/O error on ").concat(
                path.as_str(),
            ).concat(": ").concat(source.as_str()),
            ConfigError::Parse(s) => String::from_str("TOML parse error: ").concat(s.as_str()),
            ConfigError::Serialize(s) => String::from_str("TOML serialize error: ").concat(
                s.as_str(),
            ),
            ConfigError::Validation(s) => String::from_str("config validation error: ").concat(
                s.as_str(),
            ),
        }
    }
}

impl Config {
    /// Every value is its default.
    pub open spec fn is_default(&self) -> bool {
        &&& self.battery.charge_end_threshold == 80
        &&& self.daemon.interval_secs == 30
        &&& self.daemon.socket_path@ == DEFAULT_SOCKET_PATH@
        &&& !self.full_charge.enabled
        &&& self.full_charge.weekday == Weekday::Sunday
    }

    /// What is wrong with the configuration, the first problem found: a
    /// threshold outside 1–100, a zero polling interval, an empty socket path.
    pub open spec fn validation_failure(&self) -> Option<Seq<char>> {
        let t = self.battery.charge_end_threshold;
        if t == 0 || t > 100 {
            Some(
                "charge_end_threshold "@ + dec(t as nat) + " fora do intervalo válido (1–100)"@,
            )
        } else if self.daemon.interval_secs == 0 {
            Some("interval_secs deve ser > 0"@)
        } else if self.daemon.socket_path@.len() == 0 {
            Some("socket_path não pode ser vazio"@)
        } else {
            None
        }
    }

    /// The configuration that a program gets: the loaded one, or the defaults
    /// where the file does not exist (`loaded` is `None`) or could not be loaded.
    pub fn load_or_default(loaded: Option<Result<Config, ConfigError>>) -> (cfg: Config)
        ensures
            match loaded {
                Some(Ok(c)) => cfg == c,
                _ => cfg.is_default(),
            },
    {
        match loaded {
            Some(Ok(c)) => c,
            _ => Config::default(),
        }
    }

    /// Checks the values of the configuration.
    pub fn validate(&self) -> (r: Result<(), ConfigError>)
        ensures
            match r {
                Ok(()) => self.validation_failure() is None,
                Err(e) => self.validation_failure() matches Some(m) && e@ == ConfigFault::Validation(
                    m,
                ),
            },
    {
        let t = self.battery.charge_end_threshold;
        if t == 0 || t > 100 {
            let n = dec_string(t as u64);
            return Err(
                ConfigError::Validation(
                    String::from_str("charge_end_threshold ").concat(n.as_str()).concat(
                        " fora do intervalo válido (1–100)",
                    ),
                ),
            );
        }
        if self.daemon.interval_secs == 0 {
            return Err(ConfigError::Validation(String::from_str("interval_secs deve ser > 0")));
        }
        if self.daemon.socket_path.as_str().is_empty() {
            return Err(
                ConfigError::Validation(String::from_str("socket_path não pode ser vazio")),
            );
        }
        Ok(())
    }
}

/// A configuration is valid exactly when its threshold is 1–100, its polling
/// interval is not zero and its socket path is not empty; any such
/// configuration is accepted, whatever the interval.
pub proof fn lemma_validation_exact(config: &Config)
    ensures
        (config.validation_failure() is None) == (1 <= config.battery.charge_end_threshold <= 100
            && config.daemon.interval_secs > 0 && config.daemon.socket_path@.len() > 0),
{
}

} // verus!
