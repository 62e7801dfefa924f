//! Battery charge-limit management: the decision logic of the daemon, its
//! configuration, the sysfs model, the status protocol and the notifications.

pub mod battery;
pub mod cli;
pub mod config;
pub mod daemon;
pub mod systemd;
pub mod text;
pub mod tui;
