//! The battery as sysfs shows it: detection under `/sys/class/power_supply`,
//! its status attributes, and the charge threshold.
//!
//! Reading and writing files is left to the caller: these functions take what
//! a read gave (see `AttrRead`, `PowerSupplyListing`) and say what to write
//! (see `SysfsWrite`), so that every decision is made here.

use vstd::prelude::*;
use crate::text::{
    chars_of, dec, dec_string, debug_str, debug_string, lex_le,
    lex_le_exec, lemma_lex_le_antisym, lemma_lex_le_total, lemma_lex_le_trans, parse_u8_chars, parse_u8_spec,
    path_join, path_join_exec, trim, trim_chars, lemma_dec, lemma_trim_end_at,
    lemma_trim_start_at, is_digit,
};

verus! {

/// Where the kernel lists power supplies.
pub const SYSFS_POWER_SUPPLY: &'static str = "/sys/class/power_supply";

/// The attribute that holds the end-of-charge threshold.
pub const THRESHOLD_ATTR: &'static str = "charge_control_end_threshold";

/// Why a battery operation failed.
#[derive(Debug)]
pub enum BatteryError {
    /// A sysfs path does not exist (the path, or a description).
    NotFound(String),
    /// An attribute did not hold a number.
    Parse(String),
    /// Any other I/O failure, by its message.
    Io(String),
    /// A threshold outside 1–100.
    ThresholdOutOfRange(u8),
}

/// The mathematical value of a `BatteryError`.
pub enum BatteryFault {
    NotFound(Seq<char>),
    Parse(Seq<char>),
    Io(Seq<char>),
    ThresholdOutOfRange(u8),
}

impl View for BatteryError {
    type V = BatteryFault;

    open spec fn view(&self) -> BatteryFault {
        match self {
            BatteryError::NotFound(p) => BatteryFault::NotFound(p@),
            BatteryError::Parse(s) => BatteryFault::Parse(s@),
            BatteryError::Io(e) => BatteryFault::Io(e@),
            BatteryError::ThresholdOutOfRange(v) => BatteryFault::ThresholdOutOfRange(*v),
        }
    }
}

/// The text of a battery error, as it is shown to the user.
pub open spec fn battery_fault_message(f: BatteryFault) -> Seq<char> {
    match f {
        BatteryFault::NotFound(p) => "sysfs path not found: "@ + p,
        BatteryFault::Parse(s) => "failed to parse value: "@ + s,
        BatteryFault::Io(e) => "I/O error: "@ + e,
        BatteryFault::ThresholdOutOfRange(v) => "threshold "@ + dec(v as nat)
            + "% out of range (1–100)"@,
    }
}

impl BatteryError {
    /// The text of the error, as it is shown to the user.
    pub fn message(&self) -> (m: String)
        ensures
            m@ == battery_fault_message(self@),
    {
        match self {
            BatteryError::NotFound(p) => String::from_str("sysfs path not found: ").concat(
                p.as_str(),
            ),
            BatteryError::Parse(s) => String::from_str("failed to parse value: ").concat(
                s.as_str(),
            ),
            BatteryError::Io(e) => String::from_str("I/O error: ").concat(e.as_str()),
            BatteryError::ThresholdOutOfRange(v) => {
                let n = dec_string(*v as u64);
                String::from_str("threshold ").concat(n.as_str()).concat(
                    "% out of range (1–100)",
                )
            },
        }
    }
}

/// What reading a sysfs attribute gave.
#[derive(Debug)]
pub enum AttrRead {
    /// The file's contents.
    Text(String),
    /// The file does not exist.
    Missing,
    /// Another I/O failure, by its message.
    Failed(String),
}

/// One entry of the power-supply directory: its name, and the contents of its
/// `type` attribute where that could be read.
#[derive(Debug)]
pub struct PowerSupplyEntry {
    pub name: String,
    pub type_attr: Option<String>,
}

/// What listing the power-supply directory gave.
#[derive(Debug)]
pub enum PowerSupplyListing {
    /// The entries, in any order.
    Entries(Vec<PowerSupplyEntry>),
    /// The directory does not exist.
    Missing,
    /// Another I/O failure, by its message.
    Failed(String),
}

/// A file to write: the caller writes `contents` to `path`.
#[derive(Debug)]
pub struct SysfsWrite {
    pub path: String,
    pub contents: String,
}

/// A battery found in sysfs.
#[derive(Debug, Clone)]
pub struct Battery {
    pub name: String,
    /// The battery's sysfs directory.
    pub base_path: String,
}

/// The current state of the battery.
#[derive(Debug, Clone, PartialEq)]
pub struct BatteryStatus {
    /// Charge in percent (0–100).
    pub capacity: u8,
    /// "Charging", "Discharging", "Full", "Not charging", "Unknown".
    pub status: String,
    /// The end-of-charge threshold in force, where the kernel offers one.
    pub charge_control_end_threshold: Option<u8>,
}

/// The mathematical value of a `BatteryStatus`.
pub struct BatteryStatusView {
    pub capacity: u8,
    pub status: Seq<char>,
    pub charge_control_end_threshold: Option<u8>,
}

impl View for BatteryStatus {
    type V = BatteryStatusView;

    open spec fn view(&self) -> BatteryStatusView {
        BatteryStatusView {
            capacity: self.capacity,
            status: self.status@,
            charge_control_end_threshold: self.charge_control_end_threshold,
        }
    }
}

/// A result taken by the views of its two sides.
pub open spec fn result_view<T: View, E: View>(r: Result<T, E>) -> Result<T::V, E::V> {
    match r {
        Ok(t) => Ok(t@),
        Err(e) => Err(e@),
    }
}

/// A name that `BAT` starts.
pub open spec fn is_bat_name(n: Seq<char>) -> bool {
    n.len() >= 3 && n[0] == 'B' && n[1] == 'A' && n[2] == 'T'
}

/// `c` equals the lower-case ASCII letter `lower` when ASCII case is ignored.
pub open spec fn ascii_ci_eq(c: char, lower: char) -> bool {
    c == lower || (c as u32) + 32 == (lower as u32)
}

/// `t.eq_ignore_ascii_case("battery")`.
pub open spec fn is_battery_type(t: Seq<char>) -> bool {
    &&& t.len() == 7
    &&& ascii_ci_eq(t[0], 'b')
    &&& ascii_ci_eq(t[1], 'a')
    &&& ascii_ci_eq(t[2], 't')
    &&& ascii_ci_eq(t[3], 't')
    &&& ascii_ci_eq(t[4], 'e')
    &&& ascii_ci_eq(t[5], 'r')
    &&& ascii_ci_eq(t[6], 'y')
}

/// An entry that is a battery: its name starts with `BAT` and its `type`,
/// trimmed, is `Battery` in any ASCII case.
pub open spec fn is_battery_entry(e: PowerSupplyEntry) -> bool {
    &&& is_bat_name(e.name@)
    &&& match e.type_attr {
        Some(t) => is_battery_type(trim(t@)),
        None => false,
    }
}

/// What detection under `base` gives for a listing: the battery entry whose
/// name comes first in `str` order, at `base/name`; `NotFound` when there is
/// none or the directory is missing; `Io` on another failure.
pub open spec fn detect_outcome(
    base: Seq<char>,
    listing: PowerSupplyListing,
    r: Result<Battery, BatteryError>,
) -> bool {
    match listing {
        PowerSupplyListing::Missing => r matches Err(e) && e@ == BatteryFault::NotFound(base),
        PowerSupplyListing::Failed(m) => r matches Err(e) && e@ == BatteryFault::Io(m@),
        PowerSupplyListing::Entries(es) => match r {
            Ok(b) => {
                &&& exists|i: int|
                    0 <= i < es@.len() && is_battery_entry(#[trigger] es@[i]) && es@[i].name@
                        == b.name@
                &&& forall|j: int|
                    0 <= j < es@.len() && is_battery_entry(#[trigger] es@[j]) ==> lex_le(
                        b.name@,
                        es@[j].name@,
                    )
                &&& b.base_path@ == path_join(base, b.name@)
            },
            Err(e) => {
                &&& forall|j: int| 0 <= j < es@.len() ==> !is_battery_entry(#[trigger] es@[j])
                &&& e@ == BatteryFault::NotFound("no battery found under "@ + base)
            },
        },
    }
}

/// The contents of a sysfs attribute as the battery code uses them: trimmed,
/// or the failure that reading it gave.
pub open spec fn attr_text(path: Seq<char>, read: AttrRead) -> Result<Seq<char>, BatteryFault> {
    match read {
        AttrRead::Text(t) => Ok(trim(t@)),
        AttrRead::Missing => Err(BatteryFault::NotFound(path)),
        AttrRead::Failed(m) => Err(BatteryFault::Io(m@)),
    }
}

/// A sysfs attribute read as a number between 0 and `max`; a text that is no
/// such number is a `Parse` error that quotes it.
pub open spec fn attr_u8(attr: Seq<char>, path: Seq<char>, read: AttrRead, max: u8) -> Result<
    u8,
    BatteryFault,
> {
    match attr_text(path, read) {
        Err(e) => Err(e),
        Ok(s) => match parse_u8_spec(s) {
            Some(v) => if v <= max {
                Ok(v)
            } else {
                Err(BatteryFault::Parse(attr + "="@ + debug_str(s)))
            },
            None => Err(BatteryFault::Parse(attr + "="@ + debug_str(s))),
        },
    }
}

/// The largest charge, in percent.
pub const MAX_CAPACITY: u8 = 100;

/// What a threshold write puts in the file.
pub open spec fn threshold_contents(pct: u8) -> Seq<char> {
    dec(pct as nat).push('\n')
}

impl Battery {
    /// The path of one of the battery's attributes.
    pub open spec fn attr_path(&self, attr: Seq<char>) -> Seq<char> {
        path_join(self.base_path@, attr)
    }

    /// What `status` gives for what the reads of `capacity`, `status` and
    /// `charge_control_end_threshold` gave: the first two must succeed, and the
    /// capacity must be a percentage (0–100); a threshold that cannot be read
    /// or parsed counts as absent.
    pub open spec fn status_outcome(
        &self,
        capacity: AttrRead,
        status: AttrRead,
        threshold: AttrRead,
    ) -> Result<BatteryStatusView, BatteryFault> {
        match attr_u8("capacity"@, self.attr_path("capacity"@), capacity, MAX_CAPACITY) {
            Err(e) => Err(e),
            Ok(c) => match attr_text(self.attr_path("status"@), status) {
                Err(e) => Err(e),
                Ok(s) => Ok(
                    BatteryStatusView {
                        capacity: c,
                        status: s,
                        charge_control_end_threshold: match attr_u8(
                            THRESHOLD_ATTR@,
                            self.attr_path(THRESHOLD_ATTR@),
                            threshold,
                            255,
                        ) {
                            Ok(t) => Some(t),
                            Err(_) => None,
                        },
                    },
                ),
            },
        }
    }

    /// Finds the first battery (`BAT0` before `BAT1`, …) under
    /// `/sys/class/power_supply`, given what listing that directory gave.
    pub fn detect(listing: PowerSupplyListing) -> (r: Result<Battery, BatteryError>)
        ensures
            detect_outcome(SYSFS_POWER_SUPPLY@, listing, r),
    {
        Self::detect_in(SYSFS_POWER_SUPPLY, listing)
    }

    /// Finds the first battery under `base`, given what listing `base` gave:
    /// among the entries whose name starts with `BAT` and whose `type` is
    /// `Battery`, the one whose name comes first.
    pub fn detect_in(base: &str, listing: PowerSupplyListing) -> (r: Result<Battery, BatteryError>)
        ensures
            detect_outcome(base@, listing, r),
    {
        match listing {
            PowerSupplyListing::Missing => Err(BatteryError::NotFound(String::from_str(base))),
            PowerSupplyListing::Failed(m) => Err(BatteryError::Io(m)),
            PowerSupplyListing::Entries(es) => {
                let mut best: Option<usize> = None;
                let mut i: usize = 0;
                while i < es.len()
                    invariant
                        i <= es.len(),
                        match best {
                            Some(b) => {
                                &&& b < i
                                &&& is_battery_entry(es@[b as int])
                                &&& forall|j: int|
                                    0 <= j < i && is_battery_entry(#[trigger] es@[j]) ==> lex_le(
                                        es@[b as int].name@,
                                        es@[j].name@,
                                    )
                            },
                            None => forall|j: int|
                                0 <= j < i ==> !is_battery_entry(#[trigger] es@[j]),
                        },
                    decreases es.len() - i,
                {
                    if is_battery_entry_exec(&es[i]) {
                        match best {
                            None => {
                                best = Some(i);
                                proof {
                                    lex_le_refl(es@[i as int].name@);
                                }
                            },
                            Some(b) => {
                                let cur = chars_of(es[b].name.as_str());
                                let cand = chars_of(es[i].name.as_str());
                                if !lex_le_exec(&cur, &cand) {
                                    proof {
                                        lemma_lex_le_total(cur@, cand@);
                                        assert forall|j: int|
                                            0 <= j < i + 1 && is_battery_entry(
                                                #[trigger] es@[j],
                                            ) implies lex_le(cand@, es@[j].name@) by {
                                            if j < i {
                                                lemma_lex_le_trans(cand@, cur@, es@[j].name@);
                                            } else {
                                                lex_le_refl(cand@);
                                            }
                                        }
                                    }
                                    best = Some(i);
                                }
                            },
                        }
                    }
                    i = i + 1;
                }
                match best {
                    Some(b) => {
                        let name = es[b].name.clone();
                        let base_path = path_join_exec(base, name.as_str());
                        Ok(Battery { name, base_path })
                    },
                    None => Err(
                        BatteryError::NotFound(
                            String::from_str("no battery found under ").concat(base),
                        ),
                    ),
                }
            },
        }
    }

    /// The path of the threshold attribute.
    pub fn threshold_path(&self) -> (p: String)
        ensures
            p@ == self.attr_path(THRESHOLD_ATTR@),
    {
        self.attr_path_exec(THRESHOLD_ATTR)
    }

    fn attr_path_exec(&self, attr: &str) -> (p: String)
        ensures
            p@ == self.attr_path(attr@),
    {
        path_join_exec(self.base_path.as_str(), attr)
    }

    /// Reads the current state of the battery from what the reads of its
    /// `capacity`, `status` and `charge_control_end_threshold` gave.
    pub fn status(&self, capacity: AttrRead, status: AttrRead, threshold: AttrRead) -> (r: Result<
        BatteryStatus,
        BatteryError,
    >)
        ensures
            result_view(r) == self.status_outcome(capacity, status, threshold),
            r matches Ok(st) ==> st.capacity <= 100,
    {
        let capacity = self.read_u8("capacity", capacity, MAX_CAPACITY)?;
        let status = self.read_string("status", status)?;
        let threshold = self.read_u8(THRESHOLD_ATTR, threshold, 255);
        let charge_control_end_threshold = match threshold {
            Ok(t) => Some(t),
            Err(_) => None,
        };
        Ok(BatteryStatus { capacity, status, charge_control_end_threshold })
    }

    /// Decides a new end-of-charge threshold (1–100). `threshold_file_exists`
    /// says whether the threshold attribute exists; on success the result is
    /// the write that sets it.
    pub fn set_charge_threshold(&self, pct: u8, threshold_file_exists: bool) -> (r: Result<
        SysfsWrite,
        BatteryError,
    >)
        ensures
            match r {
                Ok(w) => {
                    &&& 1 <= pct <= 100
                    &&& threshold_file_exists
                    &&& w.path@ == self.attr_path(THRESHOLD_ATTR@)
                    &&& w.contents@ == threshold_contents(pct)
                },
                Err(e) => if pct == 0 || pct > 100 {
                    e@ == BatteryFault::ThresholdOutOfRange(pct)
                } else {
                    !threshold_file_exists && e@ == BatteryFault::NotFound(
                        self.attr_path(THRESHOLD_ATTR@),
                    )
                },
            },
    {
        if pct == 0 || pct > 100 {
            return Err(BatteryError::ThresholdOutOfRange(pct));
        }
        let path = self.threshold_path();
        if !threshold_file_exists {
            return Err(BatteryError::NotFound(path));
        }
        let contents = dec_string(pct as u64).concat("\n");
        proof {
            reveal_strlit("\n");
            assert("\n"@ =~= seq!['\n']);
            assert(dec(pct as nat) + seq!['\n'] =~= threshold_contents(pct));
        }
        Ok(SysfsWrite { path, contents })
    }

    fn read_string(&self, attr: &str, read: AttrRead) -> (r: Result<String, BatteryError>)
        ensures
            result_view(r) == attr_text(self.attr_path(attr@), read),
    {
        match read {
            AttrRead::Text(t) => {
                let v = chars_of(t.as_str());
                let trimmed = trim_chars(&v);
                Ok(crate::text::string_from_chars(trimmed))
            },
            AttrRead::Missing => Err(BatteryError::NotFound(self.attr_path_exec(attr))),
            AttrRead::Failed(m) => Err(BatteryError::Io(m)),
        }
    }

    fn read_u8(&self, attr: &str, read: AttrRead, max: u8) -> (r: Result<u8, BatteryError>)
        ensures
            result_view(r) == attr_u8(attr@, self.attr_path(attr@), read, max),
    {
        let s = self.read_string(attr, read)?;
        let v = chars_of(s.as_str());
        match parse_u8_chars(&v) {
            Some(n) if n <= max => Ok(n),
            _ => {
                let shown = debug_string(s.as_str());
                Err(
                    BatteryError::Parse(
                        String::from_str(attr).concat("=").concat(shown.as_str()),
                    ),
                )
            },
        }
    }
}

/// The same battery entries hold a battery of the same name.
pub open spec fn same_batteries(es1: Seq<PowerSupplyEntry>, es2: Seq<PowerSupplyEntry>) -> bool {
    forall|i: int|
        0 <= i < es1.len() && is_battery_entry(#[trigger] es1[i]) ==> exists|j: int|
            0 <= j < es2.len() && is_battery_entry(#[trigger] es2[j]) && es2[j].name@
                == es1[i].name@
}

/// Detection is deterministic: it does not depend on the order in which the
/// directory lists its entries, nor on entries that are not batteries. Two
/// listings with the same battery entries give the same battery, or both none.
pub proof fn lemma_detect_deterministic(
    base: Seq<char>,
    es1: Vec<PowerSupplyEntry>,
    es2: Vec<PowerSupplyEntry>,
    r1: Result<Battery, BatteryError>,
    r2: Result<Battery, BatteryError>,
)
    requires
        same_batteries(es1@, es2@),
        same_batteries(es2@, es1@),
        detect_outcome(base, PowerSupplyListing::Entries(es1), r1),
        detect_outcome(base, PowerSupplyListing::Entries(es2), r2),
    ensures
        (r1 is Ok) == (r2 is Ok),
        match (r1, r2) {
            (Ok(b1), Ok(b2)) => b1.name@ == b2.name@ && b1.base_path@ == b2.base_path@,
            _ => true,
        },
{
    match (r1, r2) {
        (Ok(b1), Ok(b2)) => {
            let i1 = choose|i: int|
                0 <= i < es1@.len() && is_battery_entry(#[trigger] es1@[i]) && es1@[i].name@
                    == b1.name@;
            let i2 = choose|i: int|
                0 <= i < es2@.len() && is_battery_entry(#[trigger] es2@[i]) && es2@[i].name@
                    == b2.name@;
            let j1 = choose|j: int|
                0 <= j < es2@.len() && is_battery_entry(#[trigger] es2@[j]) && es2@[j].name@
                    == es1@[i1].name@;
            let j2 = choose|j: int|
                0 <= j < es1@.len() && is_battery_entry(#[trigger] es1@[j]) && es1@[j].name@
                    == es2@[i2].name@;
            assert(lex_le(b2.name@, es2@[j1].name@));
            assert(lex_le(b1.name@, es1@[j2].name@));
            lemma_lex_le_antisym(b1.name@, b2.name@);
        },
        (Ok(b1), Err(_)) => {
            let i1 = choose|i: int|
                0 <= i < es1@.len() && is_battery_entry(#[trigger] es1@[i]) && es1@[i].name@
                    == b1.name@;
            assert(is_battery_entry(es1@[i1]));
        },
        (Err(_), Ok(b2)) => {
            let i2 = choose|i: int|
                0 <= i < es2@.len() && is_battery_entry(#[trigger] es2@[i]) && es2@[i].name@
                    == b2.name@;
            assert(is_battery_entry(es2@[i2]));
        },
        _ => {},
    }
}

/// A threshold read back from what `set_charge_threshold` wrote is the
/// threshold that was set.
pub proof fn lemma_threshold_read_back(
    bat: &Battery,
    pct: u8,
    capacity: AttrRead,
    status: AttrRead,
    threshold: AttrRead,
)
    requires
        1 <= pct <= 100,
        threshold matches AttrRead::Text(t) && t@ == threshold_contents(pct),
    ensures
        bat.status_outcome(capacity, status, threshold) matches Ok(v)
            ==> v.charge_control_end_threshold == Some(pct),
{
    let d = dec(pct as nat);
    let w = threshold_contents(pct);
    lemma_dec(pct as nat);
    assert(w[0] == d[0]);
    assert(is_digit(d[0]));
    lemma_trim_start_at(w, 0);
    assert(w.skip(0) =~= w);
    assert(w[w.len() - 2] == d[d.len() - 1]);
    assert(is_digit(d[d.len() - 1]));
    lemma_trim_end_at(w, w.len() - 1);
    assert(w.take(w.len() - 1) =~= d);
    assert(trim(w) == d);
}

proof fn lex_le_refl(a: Seq<char>)
    ensures
        lex_le(a, a),
{
    lemma_lex_le_total(a, a);
}

fn ascii_ci_eq_exec(c: char, lower: char) -> (b: bool)
    requires
        (lower as u32) >= 97,
    ensures
        b == ascii_ci_eq(c, lower),
{
    c == lower || (c as u32) + 32 == (lower as u32)
}

fn is_battery_entry_exec(e: &PowerSupplyEntry) -> (b: bool)
    ensures
        b == is_battery_entry(*e),
{
    let n = chars_of(e.name.as_str());
    if !(n.len() >= 3 && n[0] == 'B' && n[1] == 'A' && n[2] == 'T') {
        return false;
    }
    match &e.type_attr {
        None => false,
        Some(t) => {
            let tv = chars_of(t.as_str());
            let tt = trim_chars(&tv);
            tt.len() == 7 && ascii_ci_eq_exec(tt[0], 'b') && ascii_ci_eq_exec(tt[1], 'a')
                && ascii_ci_eq_exec(tt[2], 't') && ascii_ci_eq_exec(tt[3], 't') && ascii_ci_eq_exec(
                tt[4],
                'e',
            ) && ascii_ci_eq_exec(tt[5], 'r') && ascii_ci_eq_exec(tt[6], 'y')
        },
    }
}

} // verus!
