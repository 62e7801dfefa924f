//! The daemon's decisions: which threshold applies today, what one polling
//! round does to the shared state and whether it writes, and what the socket
//! answers to a command.
//!
//! Sleeping, reading the clock and sysfs, and serving the socket are left to
//! the caller, which hands the results to these functions.

use vstd::prelude::*;
use crate::battery::{battery_fault_message, BatteryError, BatteryStatus};
use crate::config::{Config, Weekday};
use vstd::arithmetic::div_mod::{lemma_fundamental_div_mod, lemma_fundamental_div_mod_converse};
use crate::text::{
    chars_eq_str, chars_of, dec, dec_string, json_escape, json_escape_string,
    string_from_chars, trim, trim_chars,
};

verus! {

/// Seconds in a day.
pub const SECS_PER_DAY: u64 = 86400;

/// The state that the polling loop shares with the socket server.
#[derive(Debug, Clone)]
pub struct DaemonState {
    pub last_status: Option<BatteryStatus>,
    pub last_applied_threshold: Option<u8>,
    pub last_poll_ts: u64,
    pub error: Option<String>,
}

impl Default for DaemonState {
    fn default() -> (r: Self)
        ensures
            r.last_status is None,
            r.last_applied_threshold is None,
            r.last_poll_ts == 0,
            r.error is None,
    {
        DaemonState {
            last_status: None,
            last_applied_threshold: None,
            last_poll_ts: 0,
            error: None,
        }
    }
}

/// Why the daemon stopped.
#[derive(Debug)]
pub enum DaemonError {
    Battery(BatteryError),
    Socket(String),
}

impl DaemonError {
    /// The text of the error, as it is shown to the user.
    pub fn message(&self) -> (m: String)
        ensures
            m@ == match self {
                DaemonError::Battery(e) => "battery error: "@ + battery_fault_message(e@),
                DaemonError::Socket(s) => "socket error: "@ + s@,
            },
    {
        match self {
            DaemonError::Battery(e) => {
                let inner = e.message();
                String::from_str("battery error: ").concat(inner.as_str())
            },
            DaemonError::Socket(s) => String::from_str("socket error: ").concat(s.as_str()),
        }
    }
}

/// What happened since the daemon's last action.
#[derive(Debug, Clone, Copy, PartialEq, Eq, Structural)]
pub enum DaemonEvent {
    /// The daemon has just started (battery found, socket server running).
    Started,
    /// A polling round (and its notification) is done; `running` says whether
    /// no stop signal has come.
    Polled { running: bool },
    /// The sleep between rounds is over; `running` as above.
    Woke { running: bool },
}

/// What the daemon does next.
#[derive(Debug, Clone, Copy, PartialEq, Eq, Structural)]
pub enum DaemonAction {
    /// Apply the threshold (`apply_threshold`), then tell systemd `READY=1`.
    PollThenReady,
    /// Sleep this many seconds.
    Sleep(u64),
    /// Apply the threshold, then send the watchdog keepalive `WATCHDOG=1`.
    PollThenWatchdog,
    /// Stop.
    Stop,
}

/// The daemon's flow: at start it applies the threshold at once and then
/// reports ready; after each round it sleeps the polling interval; on waking
/// it polls again and keeps the watchdog alive; a stop signal ends it before
/// the next sleep or the next round.
pub open spec fn daemon_action(config: &Config, event: DaemonEvent) -> DaemonAction {
    match event {
        DaemonEvent::Started => DaemonAction::PollThenReady,
        DaemonEvent::Polled { running } => if running {
            DaemonAction::Sleep(config.daemon.interval_secs)
        } else {
            DaemonAction::Stop
        },
        DaemonEvent::Woke { running } => if running {
            DaemonAction::PollThenWatchdog
        } else {
            DaemonAction::Stop
        },
    }
}

/// The daemon's next action (see `daemon_action`).
pub fn daemon_step(config: &Config, event: DaemonEvent) -> (a: DaemonAction)
    ensures
        a == daemon_action(config, event),
{
    match event {
        DaemonEvent::Started => DaemonAction::PollThenReady,
        DaemonEvent::Polled { running } => if running {
            DaemonAction::Sleep(config.daemon.interval_secs)
        } else {
            DaemonAction::Stop
        },
        DaemonEvent::Woke { running } => if running {
            DaemonAction::PollThenWatchdog
        } else {
            DaemonAction::Stop
        },
    }
}

/// The event that can answer an action: a round is followed by `Polled`, a
/// sleep by `Woke`, and nothing follows `Stop`.
pub open spec fn may_follow(action: DaemonAction, event: DaemonEvent) -> bool {
    match action {
        DaemonAction::PollThenReady => event is Polled,
        DaemonAction::PollThenWatchdog => event is Polled,
        DaemonAction::Sleep(_) => event is Woke,
        DaemonAction::Stop => false,
    }
}

/// A run of the daemon, as the events it saw: it starts, and each event
/// answers the action that the one before it led to.
pub open spec fn is_daemon_run(config: &Config, events: Seq<DaemonEvent>) -> bool {
    &&& events.len() > 0
    &&& events[0] == DaemonEvent::Started
    &&& forall|i: int|
        0 < i < events.len() ==> may_follow(
            daemon_action(config, events[i - 1]),
            #[trigger] events[i],
        )
}

/// In every run the daemon applies the threshold at once and reports ready
/// exactly once, first; every later round comes after a sleep of the polling
/// interval and is followed by a watchdog keepalive.
pub proof fn lemma_daemon_run(config: &Config, events: Seq<DaemonEvent>)
    requires
        is_daemon_run(config, events),
    ensures
        daemon_action(config, events[0]) == DaemonAction::PollThenReady,
        forall|i: int|
            0 < i < events.len() ==> daemon_action(config, #[trigger] events[i])
                != DaemonAction::PollThenReady,
        forall|i: int|
            0 <= i < events.len() && daemon_action(config, #[trigger] events[i])
                == DaemonAction::PollThenWatchdog ==> i > 0 && daemon_action(
                config,
                events[i - 1],
            ) == DaemonAction::Sleep(config.daemon.interval_secs),
        forall|i: int|
            0 <= i < events.len() && (#[trigger] daemon_action(config, events[i]) is Sleep) ==> i
                > 0 && daemon_action(config, events[i]) == DaemonAction::Sleep(
                config.daemon.interval_secs,
            ),
{
    assert forall|i: int| 0 < i < events.len() implies daemon_action(config, #[trigger] events[i])
        != DaemonAction::PollThenReady by {
        assert(may_follow(daemon_action(config, events[i - 1]), events[i]));
    }
    assert forall|i: int|
        0 <= i < events.len() && daemon_action(config, #[trigger] events[i])
            == DaemonAction::PollThenWatchdog implies i > 0 && daemon_action(config, events[i - 1])
        == DaemonAction::Sleep(config.daemon.interval_secs) by {
        assert(i != 0);
        assert(may_follow(daemon_action(config, events[i - 1]), events[i]));
    }
}

/// The day of the week (0 = Sunday) of day number `day` since the Unix epoch,
/// which was a Thursday.
pub open spec fn weekday_of_day(day: nat) -> nat {
    (day + 4) % 7
}

/// Whether `now_secs` (seconds since the Unix epoch, UTC) falls on the
/// configured full-charge weekday.
pub open spec fn is_full_charge_day_spec(config: &Config, now_secs: nat) -> bool {
    weekday_of_day(now_secs / (SECS_PER_DAY as nat)) == config.full_charge.weekday.index()
}

/// The threshold in force at `now_secs`: 100 on the full-charge day when that
/// is enabled, the configured threshold otherwise.
pub open spec fn effective_threshold_spec(config: &Config, now_secs: nat) -> u8 {
    if config.full_charge.enabled && is_full_charge_day_spec(config, now_secs) {
        100
    } else {
        config.battery.charge_end_threshold
    }
}

/// The threshold to write: the target, when the battery reports another
/// threshold and the kernel offers the attribute; nothing otherwise.
pub open spec fn threshold_write(target: u8, reported: Option<u8>, supported: bool) -> Option<u8> {
    if reported != Some(target) && supported {
        Some(target)
    } else {
        None
    }
}

/// Whether `now_secs` falls on the configured full-charge weekday.
pub fn is_full_charge_day(config: &Config, now_secs: u64) -> (b: bool)
    ensures
        b == is_full_charge_day_spec(config, now_secs as nat),
{
    let weekday = (now_secs / SECS_PER_DAY + 4) % 7;
    weekday == config.full_charge.weekday.number()
}

/// The threshold in force at `now_secs`.
pub fn effective_threshold(config: &Config, now_secs: u64) -> (t: u8)
    ensures
        t == effective_threshold_spec(config, now_secs as nat),
{
    if config.full_charge.enabled && is_full_charge_day(config, now_secs) {
        100
    } else {
        config.battery.charge_end_threshold
    }
}

/// One polling round. `reading` is what reading the battery gave at
/// `now_secs`, `threshold_supported` whether the threshold attribute exists.
/// On a reading, the state records it, the threshold in force and the time,
/// and clears the error; the result is the threshold to write, if one is
/// needed. On a failure, the state keeps its values and records the error's
/// text, and nothing is written.
pub fn apply_threshold(
    config: &Config,
    now_secs: u64,
    reading: Result<BatteryStatus, BatteryError>,
    threshold_supported: bool,
    state: &mut DaemonState,
) -> (write: Option<u8>)
    ensures
        match reading {
            Ok(st) => {
                let target = effective_threshold_spec(config, now_secs as nat);
                &&& write == threshold_write(
                    target,
                    st.charge_control_end_threshold,
                    threshold_supported,
                )
                &&& final(state).last_status == Some(st)
                &&& final(state).last_applied_threshold == Some(target)
                &&& final(state).last_poll_ts == now_secs
                &&& final(state).error is None
            },
            Err(e) => {
                &&& write is None
                &&& final(state).last_status == old(state).last_status
                &&& final(state).last_applied_threshold == old(state).last_applied_threshold
                &&& final(state).last_poll_ts == old(state).last_poll_ts
                &&& final(state).error matches Some(m) && m@ == battery_fault_message(e@)
            },
        },
{
    let target = effective_threshold(config, now_secs);
    match reading {
        Ok(status) => {
            let write = if status.charge_control_end_threshold != Some(target)
                && threshold_supported {
                Some(target)
            } else {
                None
            };
            state.last_status = Some(status);
            state.last_applied_threshold = Some(target);
            state.last_poll_ts = now_secs;
            state.error = None;
            write
        },
        Err(e) => {
            state.error = Some(e.message());
            None
        },
    }
}

/// A JSON string literal holding `s`.
pub open spec fn json_quoted(s: Seq<char>) -> Seq<char> {
    "\""@ + json_escape(s) + "\""@
}

/// The daemon's status report, one JSON object:
/// `{"capacity":…,"status":…,"threshold":…,"last_poll":…,"error":…}`,
/// with `null` for what is not known.
pub open spec fn status_json(s: DaemonState) -> Seq<char> {
    let capacity = match s.last_status {
        Some(b) => dec(b.capacity as nat),
        None => "null"@,
    };
    let status = match s.last_status {
        Some(b) => json_quoted(b.status@),
        None => "null"@,
    };
    let threshold = match s.last_applied_threshold {
        Some(t) => dec(t as nat),
        None => "null"@,
    };
    let error = match s.error {
        Some(e) => json_quoted(e@),
        None => "null"@,
    };
    "{\"capacity\":"@ + capacity + ",\"status\":"@ + status + ",\"threshold\":"@ + threshold
        + ",\"last_poll\":"@ + dec(s.last_poll_ts as nat) + ",\"error\":"@ + error + "}"@
}

fn append_u8_or_null(out: &mut String, v: Option<u8>)
    ensures
        final(out)@ == old(out)@ + match v {
            Some(t) => dec(t as nat),
            None => "null"@,
        },
{
    match v {
        Some(t) => {
            let d = dec_string(t as u64);
            out.append(d.as_str());
        },
        None => out.append("null"),
    }
}

fn append_quoted_or_null(out: &mut String, v: Option<&String>)
    ensures
        final(out)@ == old(out)@ + match v {
            Some(t) => json_quoted(t@),
            None => "null"@,
        },
{
    match v {
        Some(t) => {
            let e = json_escape_string(t.as_str());
            let ghost before = out@;
            out.append("\"");
            out.append(e.as_str());
            out.append("\"");
            proof {
                assert(out@ =~= before + json_quoted(t@));
            }
        },
        None => out.append("null"),
    }
}

/// The daemon's status report (see `status_json`).
pub fn format_status_json(s: &DaemonState) -> (r: String)
    ensures
        r@ == status_json(*s),
{
    let mut out = String::from_str("{\"capacity\":");
    let capacity = match &s.last_status {
        Some(b) => Some(b.capacity),
        None => None,
    };
    append_u8_or_null(&mut out, capacity);
    out.append(",\"status\":");
    let status = match &s.last_status {
        Some(b) => Some(&b.status),
        None => None,
    };
    append_quoted_or_null(&mut out, status);
    out.append(",\"threshold\":");
    append_u8_or_null(&mut out, s.last_applied_threshold);
    out.append(",\"last_poll\":");
    let ts = dec_string(s.last_poll_ts);
    out.append(ts.as_str());
    out.append(",\"error\":");
    let error = match &s.error {
        Some(e) => Some(e),
        None => None,
    };
    append_quoted_or_null(&mut out, error);
    out.append("}");
    out
}

/// What the socket answers to a request line: the status report to `status`,
/// `{"pong":true}` to `ping`, an error object naming any other command. The
/// line is trimmed first.
pub open spec fn response(line: Seq<char>, s: DaemonState) -> Seq<char> {
    let cmd = trim(line);
    if cmd == "status"@ {
        status_json(s)
    } else if cmd == "ping"@ {
        "{\"pong\":true}"@
    } else {
        "{\"error\":\"unknown command: "@ + cmd + "\"}"@
    }
}

/// Answers one request line of the socket protocol (see `response`).
pub fn handle_request(line: &str, state: &DaemonState) -> (r: String)
    ensures
        r@ == response(line@, *state),
{
    let v = chars_of(line);
    let cmd = trim_chars(&v);
    if chars_eq_str(&cmd, "status") {
        format_status_json(state)
    } else if chars_eq_str(&cmd, "ping") {
        String::from_str("{\"pong\":true}")
    } else {
        let c = string_from_chars(cmd);
        String::from_str("{\"error\":\"unknown command: ").concat(c.as_str()).concat("\"}")
    }
}


/// The day number of `now + k` days, and its day of the week.
proof fn lemma_day_after(now: nat, k: nat)
    ensures
        (now + k * 86400) / 86400 == now / 86400 + k,
        weekday_of_day(now / 86400 + k) == ((now / 86400 + 4) % 7 + k) % 7,
{
    let n = now as int;
    let kk = k as int;
    lemma_fundamental_div_mod(n, 86400);
    lemma_fundamental_div_mod_converse(n + kk * 86400, 86400, n / 86400 + kk, n % 86400);
    let d = n / 86400;
    lemma_fundamental_div_mod(d + 4, 7);
    let m = (d + 4) % 7;
    let qq = (d + 4) / 7;
    if m + kk < 7 {
        lemma_fundamental_div_mod_converse(d + 4 + kk, 7, qq, m + kk);
        lemma_fundamental_div_mod_converse(m + kk, 7, 0, m + kk);
    } else if m + kk < 14 {
        lemma_fundamental_div_mod_converse(d + 4 + kk, 7, qq + 1, m + kk - 7);
        lemma_fundamental_div_mod_converse(m + kk, 7, 1, m + kk - 7);
    } else {
        lemma_fundamental_div_mod(m + kk, 7);
        let k2 = (m + kk) / 7;
        let r2 = (m + kk) % 7;
        lemma_fundamental_div_mod_converse(d + 4 + kk, 7, qq + k2, r2);
    }
}

/// The full-charge day comes once a week: of any seven consecutive days,
/// counted from any moment, exactly one falls on it.
pub proof fn lemma_full_charge_day_once_a_week(config: &Config, now: nat)
    ensures
        exists|k: nat| k < 7 && #[trigger] is_full_charge_day_spec(config, now + k * 86400),
        forall|k1: nat, k2: nat|
            k1 < 7 && k2 < 7 && #[trigger] is_full_charge_day_spec(config, now + k1 * 86400)
                && #[trigger] is_full_charge_day_spec(config, now + k2 * 86400) ==> k1 == k2,
{
    let w = config.full_charge.weekday.index();
    let m: int = ((now / 86400 + 4) % 7) as int;
    let k: nat = if w >= m {
        (w - m) as nat
    } else {
        (w + 7 - m) as nat
    };
    lemma_day_after(now, k);
    assert(is_full_charge_day_spec(config, now + k * 86400));
    assert forall|k1: nat, k2: nat|
        k1 < 7 && k2 < 7 && #[trigger] is_full_charge_day_spec(config, now + k1 * 86400)
            && #[trigger] is_full_charge_day_spec(config, now + k2 * 86400) implies k1 == k2 by {
        lemma_day_after(now, k1);
        lemma_day_after(now, k2);
        lemma_fundamental_div_mod(m + k1, 7);
        lemma_fundamental_div_mod(m + k2, 7);
    }
}

/// Whether a moment is the full-charge day repeats every week.
pub proof fn lemma_full_charge_day_weekly(config: &Config, now: nat)
    ensures
        is_full_charge_day_spec(config, now + 7 * 86400) == is_full_charge_day_spec(config, now),
{
    lemma_day_after(now, 7);
    lemma_day_after(now, 0);
    lemma_fundamental_div_mod(((now / 86400 + 4) % 7 + 7) as int, 7);
}

/// With a valid configuration, the threshold that the daemon applies is one
/// that `Battery::set_charge_threshold` accepts (1–100), and on the
/// full-charge day it is 100.
pub proof fn lemma_applied_threshold_in_range(config: &Config, now: nat)
    requires
        config.validation_failure() is None,
    ensures
        1 <= effective_threshold_spec(config, now) <= 100,
        config.full_charge.enabled && is_full_charge_day_spec(config, now)
            ==> effective_threshold_spec(config, now) == 100,
{
}

/// Once the battery reports the threshold in force, a polling round writes
/// nothing; it writes only to change the threshold to the one in force.
pub proof fn lemma_write_only_when_needed(target: u8, reported: Option<u8>, supported: bool)
    ensures
        reported == Some(target) ==> threshold_write(target, reported, supported) is None,
        threshold_write(target, reported, supported) matches Some(t) ==> t == target && reported
            != Some(target),
{
}

/// A polling round writes exactly when the battery reports a threshold other
/// than the one in force (none reported counts as other) and the kernel offers
/// the attribute, and what it writes is the threshold in force, whether that
/// raises or lowers the battery's.
pub proof fn lemma_threshold_write_exact(target: u8, reported: Option<u8>, supported: bool)
    ensures
        reported != Some(target) && supported ==> threshold_write(target, reported, supported)
            == Some(target),
        reported == Some(target) || !supported ==> threshold_write(
            target,
            reported,
            supported,
        ) is None,
{
}

/// The threshold in force is 100 on the full-charge day when that is enabled,
/// and the configured threshold at every other moment (every moment when the
/// full-charge day is disabled).
pub proof fn lemma_effective_threshold_cases(config: &Config, now: nat)
    ensures
        config.full_charge.enabled && is_full_charge_day_spec(config, now)
            ==> effective_threshold_spec(config, now) == 100,
        !(config.full_charge.enabled && is_full_charge_day_spec(config, now))
            ==> effective_threshold_spec(config, now) == config.battery.charge_end_threshold,
        !config.full_charge.enabled ==> effective_threshold_spec(config, now)
            == config.battery.charge_end_threshold,
{
}

/// A moment is on the full-charge day when its day since the Unix epoch (a
/// Thursday), counted from Sunday = 0, is the configured weekday: Sunday 0,
/// Monday 1, Tuesday 2, Wednesday 3, Thursday 4, Friday 5, Saturday 6.
pub proof fn lemma_full_charge_weekday(config: &Config, now: nat)
    ensures
        is_full_charge_day_spec(config, now) == ((now / 86400 + 4) % 7 == match config.full_charge.weekday {
            Weekday::Sunday => 0nat,
            Weekday::Monday => 1nat,
            Weekday::Tuesday => 2nat,
            Weekday::Wednesday => 3nat,
            Weekday::Thursday => 4nat,
            Weekday::Friday => 5nat,
            Weekday::Saturday => 6nat,
        }),
{
}

/// While no stop signal comes, the daemon alternates for ever: it polls and
/// reports ready first, then sleeps the polling interval and polls with a
/// watchdog keepalive, again and again; once a stop signal is seen it stops.
pub proof fn lemma_daemon_keeps_polling(config: &Config, events: Seq<DaemonEvent>)
    requires
        is_daemon_run(config, events),
    ensures
        forall|i: int|
            0 <= i < events.len() && (forall|j: int|
                0 <= j <= i ==> !(#[trigger] events[j] matches DaemonEvent::Polled { running }
                    && !running) && !(events[j] matches DaemonEvent::Woke { running } && !running))
                ==> #[trigger] daemon_action(config, events[i]) == if i == 0 {
                DaemonAction::PollThenReady
            } else if i % 2 == 1 {
                DaemonAction::Sleep(config.daemon.interval_secs)
            } else {
                DaemonAction::PollThenWatchdog
            },
        forall|i: int|
            0 <= i < events.len() && (#[trigger] events[i] matches DaemonEvent::Polled { running }
                && !running) ==> daemon_action(config, events[i]) == DaemonAction::Stop,
        forall|i: int|
            0 <= i < events.len() && (#[trigger] events[i] matches DaemonEvent::Woke { running }
                && !running) ==> daemon_action(config, events[i]) == DaemonAction::Stop,
{
    assert forall|i: int|
        0 <= i < events.len() && (forall|j: int|
            0 <= j <= i ==> !(#[trigger] events[j] matches DaemonEvent::Polled { running }
                && !running) && !(events[j] matches DaemonEvent::Woke { running } && !running))
            implies #[trigger] daemon_action(config, events[i]) == if i == 0 {
            DaemonAction::PollThenReady
        } else if i % 2 == 1 {
            DaemonAction::Sleep(config.daemon.interval_secs)
        } else {
            DaemonAction::PollThenWatchdog
        } by {
        lemma_daemon_alternates(config, events, i);
    }
}

proof fn lemma_daemon_alternates(config: &Config, events: Seq<DaemonEvent>, i: int)
    requires
        is_daemon_run(config, events),
        0 <= i < events.len(),
        forall|j: int|
            0 <= j <= i ==> !(#[trigger] events[j] matches DaemonEvent::Polled { running }
                && !running) && !(events[j] matches DaemonEvent::Woke { running } && !running),
    ensures
        daemon_action(config, events[i]) == if i == 0 {
            DaemonAction::PollThenReady
        } else if i % 2 == 1 {
            DaemonAction::Sleep(config.daemon.interval_secs)
        } else {
            DaemonAction::PollThenWatchdog
        },
    decreases i,
{
    if i > 0 {
        lemma_daemon_alternates(config, events, i - 1);
        assert(may_follow(daemon_action(config, events[i - 1]), events[i]));
        let e = events[i];
        assert(!(e matches DaemonEvent::Polled { running } && !running));
        assert(!(e matches DaemonEvent::Woke { running } && !running));
    }
}

} // verus!
