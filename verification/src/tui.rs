//! What the dashboard shows: the gauge, its colour and label, the status line
//! and its colours, and which keys close it. Drawing is left to the caller.

use vstd::prelude::*;
use crate::battery::BatteryStatus;
use crate::text::{chars_of, chars_eq_str, dec, dec_string};

verus! {

/// The colours that the dashboard uses.
#[derive(Debug, Clone, Copy, PartialEq, Eq, Structural)]
pub enum Color {
    Red,
    LightRed,
    Yellow,
    Green,
    LightGreen,
    Cyan,
    Gray,
    DarkGray,
    White,
}

/// The gauge colour for a charge: red up to 20%, light red up to 40%, yellow
/// up to 60%, green up to 80%, light green above.
pub open spec fn capacity_color_spec(pct: u8) -> Color {
    if pct <= 20 {
        Color::Red
    } else if pct <= 40 {
        Color::LightRed
    } else if pct <= 60 {
        Color::Yellow
    } else if pct <= 80 {
        Color::Green
    } else {
        Color::LightGreen
    }
}

/// The colour of a status text: Charging green, Discharging yellow, Full
/// cyan, Not charging gray, anything else white.
pub open spec fn status_color_spec(status: Seq<char>) -> Color {
    if status == "Charging"@ {
        Color::Green
    } else if status == "Discharging"@ {
        Color::Yellow
    } else if status == "Full"@ {
        Color::Cyan
    } else if status == "Not charging"@ {
        Color::Gray
    } else {
        Color::White
    }
}

/// The gauge colour for a charge.
pub fn capacity_color(pct: u8) -> (c: Color)
    ensures
        c == capacity_color_spec(pct),
{
    if pct <= 20 {
        Color::Red
    } else if pct <= 40 {
        Color::LightRed
    } else if pct <= 60 {
        Color::Yellow
    } else if pct <= 80 {
        Color::Green
    } else {
        Color::LightGreen
    }
}

/// The colour of a status text.
pub fn status_color(status: &str) -> (c: Color)
    ensures
        c == status_color_spec(status@),
{
    let v = chars_of(status);
    if chars_eq_str(&v, "Charging") {
        Color::Green
    } else if chars_eq_str(&v, "Discharging") {
        Color::Yellow
    } else if chars_eq_str(&v, "Full") {
        Color::Cyan
    } else if chars_eq_str(&v, "Not charging") {
        Color::Gray
    } else {
        Color::White
    }
}

/// The status line under the gauge.
#[derive(Debug)]
pub struct StatusLine {
    pub status: String,
    pub status_color: Color,
    /// `80%`, or `não suportado` where the kernel has no threshold.
    pub threshold: String,
}

/// What the dashboard shows of a battery status; `info` is `None` when no
/// battery was read.
#[derive(Debug)]
pub struct Dashboard {
    pub capacity: u8,
    pub gauge_color: Color,
    /// The charge as `75%`.
    pub gauge_label: String,
    pub info: Option<StatusLine>,
}

/// The threshold as the status line shows it.
pub open spec fn threshold_label(t: Option<u8>) -> Seq<char> {
    match t {
        Some(v) => dec(v as nat) + "%"@,
        None => "não suportado"@,
    }
}

/// The dashboard for a battery status, or for no battery.
pub fn dashboard(status: Option<&BatteryStatus>) -> (d: Dashboard)
    ensures
        match status {
            Some(s) => {
                &&& d.capacity == s.capacity
                &&& d.gauge_color == capacity_color_spec(s.capacity)
                &&& d.gauge_label@ == dec(s.capacity as nat) + "%"@
                &&& d.info matches Some(line) && line.status@ == s.status@ && line.status_color
                    == status_color_spec(s.status@) && line.threshold@ == threshold_label(
                    s.charge_control_end_threshold,
                )
            },
            None => {
                &&& d.capacity == 0
                &&& d.gauge_color == Color::DarkGray
                &&& d.gauge_label@ == "0%"@
                &&& d.info is None
            },
        },
{
    match status {
        Some(s) => {
            let threshold = match s.charge_control_end_threshold {
                Some(t) => dec_string(t as u64).concat("%"),
                None => String::from_str("não suportado"),
            };
            Dashboard {
                capacity: s.capacity,
                gauge_color: capacity_color(s.capacity),
                gauge_label: dec_string(s.capacity as u64).concat("%"),
                info: Some(
                    StatusLine {
                        status: s.status.clone(),
                        status_color: status_color(s.status.as_str()),
                        threshold,
                    },
                ),
            }
        },
        None => {
            let label = dec_string(0).concat("%");
            proof {
                reveal_strlit("0%");
                reveal_strlit("%");
                assert(dec(0) =~= seq!['0']);
                assert(label@ =~= "0%"@);
            }
            Dashboard { capacity: 0, gauge_color: Color::DarkGray, gauge_label: label, info: None }
        },
    }
}

/// A key press, as far as the dashboard cares.
#[derive(Debug, Clone, Copy, PartialEq, Eq, Structural)]
pub enum Key {
    Char(char),
    Esc,
    Other,
}

/// `q`, `Q` and Esc close the dashboard.
pub open spec fn is_quit_key_spec(k: Key) -> bool {
    k == Key::Char('q') || k == Key::Char('Q') || k == Key::Esc
}

/// `q`, `Q` and Esc close the dashboard.
pub fn is_quit_key(k: Key) -> (quit: bool)
    ensures
        quit == is_quit_key_spec(k),
{
    match k {
        Key::Char(c) => c == 'q' || c == 'Q',
        Key::Esc => true,
        Key::Other => false,
    }
}


/// How often the dashboard reads the battery again, in milliseconds.
pub const REFRESH_MS: u64 = 5000;

/// One turn of the dashboard: whether to read the battery again (at once when
/// it was never read, then every 5 s), and whether to close (on a quit key).
/// `ms_since_refresh` is `None` before the first read.
pub fn dashboard_step(ms_since_refresh: Option<u64>, key: Option<Key>) -> (r: (bool, bool))
    ensures
        r.0 == (ms_since_refresh is None || ms_since_refresh->0 >= REFRESH_MS),
        r.1 == (key matches Some(k) && is_quit_key_spec(k)),
{
    let refresh = match ms_since_refresh {
        None => true,
        Some(ms) => ms >= REFRESH_MS,
    };
    let quit = match key {
        Some(k) => is_quit_key(k),
        None => false,
    };
    (refresh, quit)
}

/// The gauge colour bands: 0–20% red, 21–40% light red, 41–60% yellow,
/// 61–80% green, above 80% light green.
pub proof fn lemma_capacity_color_bands(pct: u8)
    ensures
        pct <= 20 ==> capacity_color_spec(pct) == Color::Red,
        21 <= pct <= 40 ==> capacity_color_spec(pct) == Color::LightRed,
        41 <= pct <= 60 ==> capacity_color_spec(pct) == Color::Yellow,
        61 <= pct <= 80 ==> capacity_color_spec(pct) == Color::Green,
        81 <= pct ==> capacity_color_spec(pct) == Color::LightGreen,
{
}

/// Each of the four known status texts has its own colour, and every other
/// text is white: green exactly for `Charging`, yellow exactly for
/// `Discharging`, cyan exactly for `Full`, gray exactly for `Not charging`.
pub proof fn lemma_status_colors(status: Seq<char>)
    ensures
        (status_color_spec(status) == Color::Green) == (status == "Charging"@),
        (status_color_spec(status) == Color::Yellow) == (status == "Discharging"@),
        (status_color_spec(status) == Color::Cyan) == (status == "Full"@),
        (status_color_spec(status) == Color::Gray) == (status == "Not charging"@),
        (status_color_spec(status) == Color::White) == (status != "Charging"@ && status
            != "Discharging"@ && status != "Full"@ && status != "Not charging"@),
{
    reveal_strlit("Charging");
    reveal_strlit("Discharging");
    reveal_strlit("Full");
    reveal_strlit("Not charging");
    assert("Charging"@ != "Discharging"@) by {
        assert("Charging"@.len() != "Discharging"@.len());
    }
    assert("Charging"@ != "Full"@) by {
        assert("Charging"@.len() != "Full"@.len());
    }
    assert("Charging"@ != "Not charging"@) by {
        assert("Charging"@.len() != "Not charging"@.len());
    }
    assert("Discharging"@ != "Full"@) by {
        assert("Discharging"@.len() != "Full"@.len());
    }
    assert("Discharging"@ != "Not charging"@) by {
        assert("Discharging"@[0] != "Not charging"@[0]);
    }
    assert("Full"@ != "Not charging"@) by {
        assert("Full"@.len() != "Not charging"@.len());
    }
}

} // verus!
