//! Notifications to systemd (`sd_notify`): readiness, watchdog keepalives and
//! status text.
//!
//! Which datagram goes where is decided here, from the value of
//! `NOTIFY_SOCKET`; sending it is left to the caller. A socket whose name
//! starts with `@` is an abstract socket.

use vstd::prelude::*;
use crate::text::{chars_of, slice_chars, string_from_chars};
use vstd::utf8::{char_is_scalar, encode_scalar, encode_utf8};

verus! {

/// The longest abstract socket name, in bytes, that fits in `sun_path` after
/// its leading NUL byte.
pub const MAX_ABSTRACT_NAME: usize = 106;

/// A datagram to send to systemd.
#[derive(Debug)]
pub struct Notification {
    /// Whether `address` names an abstract socket (without its `@`).
    pub abstract_socket: bool,
    /// The socket's path, or the abstract socket's name.
    pub address: String,
    /// The datagram's text.
    pub message: String,
}

/// What notifying `msg` comes to, given the value of `NOTIFY_SOCKET`: nothing
/// when it is unset; to an abstract socket named by what follows `@`, unless
/// that name is longer than 106 bytes; otherwise to the socket file it names.
pub open spec fn notify_outcome(
    notify_socket: Option<Seq<char>>,
    msg: Seq<char>,
    r: Option<Notification>,
) -> bool {
    match notify_socket {
        None => r is None,
        Some(p) => if p.len() > 0 && p[0] == '@' {
            if utf8_len(p.drop_first()) > MAX_ABSTRACT_NAME {
                r is None
            } else {
                r matches Some(n) && n.abstract_socket && n.address@ == p.drop_first()
                    && n.message@ == msg
            }
        } else {
            r matches Some(n) && !n.abstract_socket && n.address@ == p && n.message@ == msg
        },
    }
}

/// The number of bytes that UTF-8 takes for `c`.
pub open spec fn utf8_width(c: char) -> nat {
    let u = c as u32;
    if u < 0x80 {
        1
    } else if u < 0x800 {
        2
    } else if u < 0x10000 {
        3
    } else {
        4
    }
}

/// The number of bytes that UTF-8 takes for `s` (`str::len`).
pub open spec fn utf8_len(s: Seq<char>) -> nat
    decreases s.len(),
{
    if s.len() == 0 {
        0
    } else {
        utf8_len(s.drop_last()) + utf8_width(s.last())
    }
}

proof fn lemma_utf8_len_grows(s: Seq<char>, k: int)
    requires
        0 <= k <= s.len(),
    ensures
        utf8_len(s.take(k)) <= utf8_len(s),
    decreases s.len() - k,
{
    if k < s.len() {
        lemma_utf8_len_grows(s, k + 1);
        assert(s.take(k + 1).drop_last() =~= s.take(k));
    } else {
        assert(s.take(k) =~= s);
    }
}

/// Whether `v[lo..]` takes more than `limit` bytes in UTF-8.
fn utf8_longer_than(v: &Vec<char>, lo: usize, limit: usize) -> (b: bool)
    requires
        lo <= v.len(),
        limit <= 1000,
    ensures
        b == (utf8_len(v@.skip(lo as int)) > limit),
{
    let ghost s = v@.skip(lo as int);
    let mut total: usize = 0;
    let mut i = lo;
    while i < v.len()
        invariant
            lo <= i <= v.len(),
            s == v@.skip(lo as int),
            total == utf8_len(s.take(i - lo)),
            total <= limit,
            limit <= 1000,
        decreases v.len() - i,
    {
        let u = v[i] as u32;
        let w: usize = if u < 0x80 {
            1
        } else if u < 0x800 {
            2
        } else if u < 0x10000 {
            3
        } else {
            4
        };
        proof {
            assert(s[i - lo] == v@[i as int]);
            assert(s.take(i - lo + 1).drop_last() =~= s.take(i - lo));
        }
        total = total + w;
        i = i + 1;
        if total > limit {
            proof {
                lemma_utf8_len_grows(s, i - lo);
            }
            return true;
        }
    }
    proof {
        assert(s.take(i - lo) =~= s);
    }
    false
}

/// The value of `NOTIFY_SOCKET` by its view.
pub open spec fn socket_view(notify_socket: Option<&str>) -> Option<Seq<char>> {
    match notify_socket {
        Some(p) => Some(p@),
        None => None,
    }
}

/// The datagram that notifies `msg`, if there is one to send.
pub fn sd_notify(notify_socket: Option<&str>, msg: &str) -> (r: Option<Notification>)
    ensures
        notify_outcome(socket_view(notify_socket), msg@, r),
{
    match notify_socket {
        None => None,
        Some(p) => {
            let v = chars_of(p);
            if v.len() > 0 && v[0] == '@' {
                proof {
                    assert(v@.skip(1) =~= p@.drop_first());
                }
                if utf8_longer_than(&v, 1, MAX_ABSTRACT_NAME) {
                    None
                } else {
                    let name = slice_chars(&v, 1, v.len());
                    proof {
                        assert(name@ =~= p@.drop_first());
                    }
                    Some(
                        Notification {
                            abstract_socket: true,
                            address: string_from_chars(name),
                            message: String::from_str(msg),
                        },
                    )
                }
            } else {
                Some(
                    Notification {
                        abstract_socket: false,
                        address: String::from_str(p),
                        message: String::from_str(msg),
                    },
                )
            }
        },
    }
}

/// `READY=1` (for `Type=notify`).
pub fn notify_ready(notify_socket: Option<&str>) -> (r: Option<Notification>)
    ensures
        notify_outcome(socket_view(notify_socket), "READY=1"@, r),
{
    sd_notify(notify_socket, "READY=1")
}

/// `WATCHDOG=1`, the watchdog keepalive.
pub fn notify_watchdog(notify_socket: Option<&str>) -> (r: Option<Notification>)
    ensures
        notify_outcome(socket_view(notify_socket), "WATCHDOG=1"@, r),
{
    sd_notify(notify_socket, "WATCHDOG=1")
}

/// `STATUS=` and a text that `systemctl status` shows.
pub fn notify_status(notify_socket: Option<&str>, msg: &str) -> (r: Option<Notification>)
    ensures
        notify_outcome(socket_view(notify_socket), "STATUS="@ + msg@, r),
{
    let text = String::from_str("STATUS=").concat(msg);
    sd_notify(notify_socket, text.as_str())
}

proof fn lemma_utf8_len_front(s: Seq<char>)
    requires
        s.len() > 0,
    ensures
        utf8_len(s) == utf8_width(s[0]) + utf8_len(s.drop_first()),
    decreases s.len(),
{
    if s.len() == 1 {
        assert(s.drop_last() =~= Seq::<char>::empty());
        assert(s.drop_first() =~= Seq::<char>::empty());
    } else {
        lemma_utf8_len_front(s.drop_last());
        assert(s.drop_last().drop_first() =~= s.drop_first().drop_last());
        assert(s.drop_last()[0] == s[0]);
        assert(s.drop_first().last() == s.last());
    }
}

/// The length that the 106-byte limit counts is the length of the string's
/// UTF-8 encoding (what `str::len` gives).
pub proof fn lemma_utf8_len_is_encoding_len(s: Seq<char>)
    ensures
        utf8_len(s) == encode_utf8(s).len(),
    decreases s.len(),
{
    if s.len() > 0 {
        lemma_utf8_len_front(s);
        lemma_utf8_len_is_encoding_len(s.drop_first());
        char_is_scalar(s[0]);
        assert(encode_scalar(s[0] as u32).len() == utf8_width(s[0]));
    }
}

} // verus!
