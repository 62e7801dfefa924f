//! What the command-line client reads from the daemon's status report.

use vstd::prelude::*;
use vstd::seq_lib::lemma_concat_associative;
use crate::battery::BatteryStatus;
use crate::daemon::{json_quoted, status_json, DaemonState};
use crate::text::{
    all_digits, chars_of, digit_prefix_len, digits_value, find, find_chars, is_digit, lemma_digit_prefix_len,
    lemma_find_occurs, lemma_trim_start_at, occurs_at, skip_ws, string_from_chars, trim_start,
    unescape, unescape_chars, digits_to_u8, dec, dec_string, is_ws, json_escape, lemma_dec, lemma_find_first,
    lemma_json_escape_quotes, lemma_unescape_escape,
};

verus! {

/// The number that follows the first occurrence of `needle`, after any
/// whitespace: its leading decimal digits, when there is at least one and
/// they make a value of at most 255.
pub open spec fn extract_num(j: Seq<char>, needle: Seq<char>) -> Option<u8> {
    match find(j, needle) {
        None => None,
        Some(i) => {
            let rest = trim_start(j.skip(i + needle.len()));
            let end = digit_prefix_len(rest) as int;
            if end == 0 {
                None
            } else if digits_value(rest.take(end)) <= 255 {
                Some(digits_value(rest.take(end)) as u8)
            } else {
                None
            }
        },
    }
}

/// The string body that follows the first occurrence of `needle`, read up to
/// its closing quote (see `unescape`).
pub open spec fn extract_str(j: Seq<char>, needle: Seq<char>) -> Option<Seq<char>> {
    match find(j, needle) {
        None => None,
        Some(i) => unescape(j.skip(i + needle.len())),
    }
}

/// `(capacity, status, threshold)` as the client reads them from a status
/// report; `None` when one of them is missing or `null`.
pub open spec fn parse_status_json_spec(j: Seq<char>) -> Option<(u8, Seq<char>, u8)> {
    match (
        extract_num(j, "\"capacity\":"@),
        extract_str(j, "\"status\":\""@),
        extract_num(j, "\"threshold\":"@),
    ) {
        (Some(c), Some(s), Some(t)) => Some((c, s, t)),
        _ => None,
    }
}

fn extract_num_exec(j: &Vec<char>, needle: &str) -> (r: Option<u8>)
    ensures
        r == extract_num(j@, needle@),
{
    let n = chars_of(needle);
    match find_chars(j, &n) {
        None => None,
        Some(i) => {
            proof {
                lemma_find_occurs(j@, n@, 0);
                assert(occurs_at(j@, n@, i as int));
                assert(i + n@.len() <= j@.len());
                assert(i + n.len() <= j.len());
            }
            let from = i + n.len();
            let start = skip_ws(j, from);
            let ghost t = j@.skip(from as int);
            proof {
                assert forall|k: int| 0 <= k < start - from implies crate::text::is_ws(
                    #[trigger] t[k],
                ) by {
                    assert(t[k] == j@[k + from]);
                }
                if start < j.len() {
                    assert(t[start - from] == j@[start as int]);
                }
                lemma_trim_start_at(t, start - from);
                assert(t.skip(start - from) =~= j@.skip(start as int));
            }
            let mut end = start;
            while end < j.len() && (j[end] as u32) >= 48 && (j[end] as u32) <= 57
                invariant
                    start <= end <= j.len(),
                    forall|k: int| start <= k < end ==> is_digit(#[trigger] j@[k]),
                decreases j.len() - end,
            {
                end = end + 1;
            }
            let ghost rest = j@.skip(start as int);
            proof {
                assert forall|k: int| 0 <= k < end - start implies is_digit(#[trigger] rest[k]) by {
                    assert(rest[k] == j@[k + start]);
                }
                if end < j.len() {
                    assert(rest[end - start] == j@[end as int]);
                }
                lemma_digit_prefix_len(rest, end - start);
                assert(rest.take(end - start) =~= j@.subrange(start as int, end as int));
                assert forall|k: int| 0 <= k < end - start implies is_digit(
                    #[trigger] j@.subrange(start as int, end as int)[k],
                ) by {
                    assert(j@.subrange(start as int, end as int)[k] == j@[k + start]);
                }
            }
            if end == start {
                None
            } else {
                digits_to_u8(j, start, end)
            }
        },
    }
}

fn extract_str_exec(j: &Vec<char>, needle: &str) -> (r: Option<Vec<char>>)
    ensures
        match r {
            Some(v) => extract_str(j@, needle@) == Some(v@),
            None => extract_str(j@, needle@) is None,
        },
{
    let n = chars_of(needle);
    match find_chars(j, &n) {
        None => None,
        Some(i) => {
            proof {
                lemma_find_occurs(j@, n@, 0);
                assert(occurs_at(j@, n@, i as int));
                assert(i + n@.len() <= j@.len());
                assert(i + n.len() <= j.len());
            }
            unescape_chars(j, i + n.len())
        },
    }
}

/// Reads `(capacity, status, threshold)` from the daemon's status report
/// `{"capacity":75,"status":"Discharging","threshold":80,...}`.
pub fn parse_status_json(json: &str) -> (r: Option<(u8, String, u8)>)
    ensures
        match r {
            Some((c, s, t)) => parse_status_json_spec(json@) == Some((c, s@, t)),
            None => parse_status_json_spec(json@) is None,
        },
{
    let j = chars_of(json);
    let capacity = extract_num_exec(&j, "\"capacity\":");
    let status = extract_str_exec(&j, "\"status\":\"");
    let threshold = extract_num_exec(&j, "\"threshold\":");
    match (capacity, status, threshold) {
        (Some(c), Some(s), Some(t)) => Some((c, string_from_chars(s), t)),
        _ => None,
    }
}


proof fn lemma_extract_num_dec(j: Seq<char>, needle: Seq<char>, p: int, c: nat, tail: Seq<char>)
    requires
        find(j, needle) == Some(p),
        j.skip(p + needle.len()) == dec(c) + tail,
        c <= 255,
        tail.len() > 0,
        !is_digit(tail[0]),
    ensures
        extract_num(j, needle) == Some(c as u8),
{
    let rest = dec(c) + tail;
    lemma_dec(c);
    let d = dec(c);
    assert(rest[0] == d[0]);
    assert(is_digit(d[0]));
    lemma_trim_start_at(rest, 0);
    assert(rest.skip(0) =~= rest);
    assert forall|k: int| 0 <= k < d.len() implies is_digit(#[trigger] rest[k]) by {
        assert(rest[k] == d[k]);
    }
    assert(rest[d.len() as int] == tail[0]);
    lemma_digit_prefix_len(rest, d.len() as int);
    assert(rest.take(d.len() as int) =~= d);
}

proof fn lemma_extract_num_null(j: Seq<char>, needle: Seq<char>, p: int, tail: Seq<char>)
    requires
        find(j, needle) == Some(p),
        j.skip(p + needle.len()) == "null"@ + tail,
    ensures
        extract_num(j, needle) is None,
{
    reveal_strlit("null");
    let rest = "null"@ + tail;
    assert(rest[0] == 'n');
    lemma_trim_start_at(rest, 0);
    assert(rest.skip(0) =~= rest);
    lemma_digit_prefix_len(rest, 0);
}

/// The threshold as `abg status` prints it.
pub open spec fn threshold_text(t: Option<u8>) -> Seq<char> {
    match t {
        Some(v) => dec(v as nat) + "%"@,
        None => "não suportado pelo kernel"@,
    }
}

/// What `abg status` prints for a battery status.
pub open spec fn status_report_spec(capacity: u8, status: Seq<char>, threshold: Option<u8>) -> Seq<
    char,
> {
    "Bateria:   "@ + dec(capacity as nat) + "%\nEstado:    "@ + status + "\nThreshold: "@
        + threshold_text(threshold) + "\n"@
}

/// What `abg status` prints for a battery status: capacity, status text and
/// threshold, one per line.
pub fn status_report(s: &BatteryStatus) -> (r: String)
    ensures
        r@ == status_report_spec(s.capacity, s.status@, s.charge_control_end_threshold),
{
    let threshold = match s.charge_control_end_threshold {
        Some(t) => dec_string(t as u64).concat("%"),
        None => String::from_str("não suportado pelo kernel"),
    };
    let cap = dec_string(s.capacity as u64);
    String::from_str("Bateria:   ").concat(cap.as_str()).concat("%\nEstado:    ").concat(
        s.status.as_str(),
    ).concat("\nThreshold: ").concat(threshold.as_str()).concat("\n")
}

/// What `abg status` prints from the daemon's answer on the socket, when there
/// is one and it holds the capacity, the status and the threshold; `None`
/// means that the battery is to be read from sysfs instead.
pub fn daemon_status_report(answer: Option<&str>) -> (r: Option<String>)
    ensures
        match answer {
            Some(json) => match parse_status_json_spec(json@) {
                Some((c, st, t)) => r matches Some(text) && text@ == status_report_spec(
                    c,
                    st,
                    Some(t),
                ),
                None => r is None,
            },
            None => r is None,
        },
{
    match answer {
        None => None,
        Some(json) => match parse_status_json(json) {
            Some((capacity, status, threshold)) => Some(
                status_report(
                    &BatteryStatus {
                        capacity,
                        status,
                        charge_control_end_threshold: Some(threshold),
                    },
                ),
            ),
            None => None,
        },
    }
}

spec fn lit_a() -> Seq<char> {
    seq!['{', '"', 'c', 'a', 'p', 'a', 'c', 'i', 't', 'y', '"', ':']
}

spec fn lit_b2() -> Seq<char> {
    seq![',', '"', 's', 't', 'a', 't', 'u', 's', '"', ':', '"']
}

spec fn lit_c2() -> Seq<char> {
    seq!['"', ',', '"', 't', 'h', 'r', 'e', 's', 'h', 'o', 'l', 'd', '"', ':']
}

proof fn lemma_needles()
    ensures
        "\"capacity\":"@ == seq!['"', 'c', 'a', 'p', 'a', 'c', 'i', 't', 'y', '"', ':'],
        "\"status\":\""@ == seq!['"', 's', 't', 'a', 't', 'u', 's', '"', ':', '"'],
        "\"threshold\":"@ == seq!['"', 't', 'h', 'r', 'e', 's', 'h', 'o', 'l', 'd', '"', ':'],
{
    reveal_strlit("\"capacity\":");
    reveal_strlit("\"status\":\"");
    reveal_strlit("\"threshold\":");
    assert("\"capacity\":"@ =~= seq!['"', 'c', 'a', 'p', 'a', 'c', 'i', 't', 'y', '"', ':']);
    assert("\"status\":\""@ =~= seq!['"', 's', 't', 'a', 't', 'u', 's', '"', ':', '"']);
    assert("\"threshold\":"@ =~= seq!['"', 't', 'h', 'r', 'e', 's', 'h', 'o', 'l', 'd', '"', ':']);
}

proof fn lemma_find_capacity(json: Seq<char>, tail: Seq<char>)
    requires
        json == lit_a() + tail,
    ensures
        find(json, "\"capacity\":"@) == Some(1int),
        json.skip(12) == tail,
{
    lemma_needles();
    let n = "\"capacity\":"@;
    assert(json.subrange(1, 12) =~= n);
    assert(json[0] == '{');
    assert(!occurs_at(json, n, 0)) by {
        assert(json.subrange(0, 11)[0] == json[0]);
    }
    lemma_find_first(json, n, 1);
    assert(json.skip(12) =~= tail);
}

proof fn lemma_find_status(json: Seq<char>, d: Seq<char>, tail: Seq<char>)
    requires
        json == lit_a() + d + lit_b2() + tail,
        all_digits(d),
    ensures
        find(json, "\"status\":\""@) == Some(13 + d.len() as int),
        json.skip(23 + d.len() as int) == tail,
{
    lemma_needles();
    let n = "\"status\":\""@;
    let dl = d.len() as int;
    let a = lit_a();
    let b2 = lit_b2();
    assert forall|k: int| 0 <= k < 12 implies #[trigger] json[k] == a[k] by {}
    assert forall|k: int| 12 <= k < 12 + dl implies #[trigger] json[k] == d[k - 12] by {}
    assert forall|k: int| 0 <= k < 11 implies #[trigger] json[12 + dl + k] == b2[k] by {}
    assert(json.subrange(13 + dl, 23 + dl) =~= n);
    assert forall|k: int| 0 <= k < 13 + dl implies !occurs_at(json, n, k) by {
        if occurs_at(json, n, k) {
            assert(json.subrange(k, k + 10)[0] == n[0]);
            assert(json.subrange(k, k + 10)[1] == n[1]);
            if k < 12 {
                assert(json[k] == a[k]);
                if k < 11 {
                    assert(json[k + 1] == a[k + 1]);
                } else {
                    assert(json[k + 1] == d[0] || dl == 0);
                }
            } else if k < 12 + dl {
                assert(json[k] == d[k - 12]);
            } else {
                assert(json[k] == b2[0]);
            }
        }
    }
    lemma_find_first(json, n, 13 + dl);
    assert(json.skip(23 + dl) =~= tail);
}

spec fn opening(d: Seq<char>) -> Seq<char> {
    lit_a() + d + lit_b2()
}

/// No `d"` in the opening part of a report.
proof fn lemma_opening_quotes(d: Seq<char>)
    requires
        all_digits(d),
    ensures
        forall|i: int|
            1 <= i < opening(d).len() && #[trigger] opening(d)[i] == '"' ==> opening(d)[i - 1]
                != 'd',
{
    let p = opening(d);
    let dl = d.len() as int;
    assert forall|i: int| 1 <= i < p.len() && #[trigger] p[i] == '"' implies p[i - 1] != 'd' by {
        if i < 12 {
            assert(p[i] == lit_a()[i]);
            assert(p[i - 1] == lit_a()[i - 1]);
        } else if i < 12 + dl {
            assert(p[i] == d[i - 12]);
        } else if i == 12 + dl {
            assert(p[i] == lit_b2()[0]);
        } else {
            assert(p[i] == lit_b2()[i - 12 - dl]);
            assert(p[i - 1] == lit_b2()[i - 13 - dl]);
        }
    }
}

proof fn lemma_find_threshold(json: Seq<char>, d: Seq<char>, x: Seq<char>, tail: Seq<char>)
    requires
        json == lit_a() + d + lit_b2() + json_escape(x) + lit_c2() + tail,
        all_digits(d),
    ensures
        find(json, "\"threshold\":"@) == Some(25 + d.len() as int + json_escape(x).len() as int),
        json.skip(37 + d.len() as int + json_escape(x).len() as int) == tail,
{
    lemma_needles();
    lemma_opening_quotes(d);
    let n = "\"threshold\":"@;
    let p = opening(d);
    let e = json_escape(x);
    let c2 = lit_c2();
    let pl = p.len() as int;
    let el = e.len() as int;
    assert(json =~= p + e + c2 + tail);
    assert forall|k: int| 0 <= k < pl implies #[trigger] json[k] == p[k] by {}
    assert forall|k: int| pl <= k < pl + el implies #[trigger] json[k] == e[k - pl] by {}
    assert forall|k: int| pl + el <= k < pl + el + 14 implies #[trigger] json[k] == c2[k - pl - el] by {}
    assert(json.subrange(pl + el + 2, pl + el + 14) =~= n);
    assert forall|k: int| 0 <= k < pl + el + 2 implies !occurs_at(json, n, k) by {
        if occurs_at(json, n, k) {
            let w = json.subrange(k, k + 12);
            assert(w[9] == n[9] && w[10] == n[10] && w[11] == n[11]);
            let q = k + 10;
            assert(json[q - 1] == 'd');
            assert(json[q] == '"');
            assert(json[q + 1] == ':');
            if q < pl {
                assert(p[q] == '"');
                assert(p[q - 1] == 'd');
            } else if q < pl + el {
                lemma_json_escape_quotes(x, q - pl);
                assert(json[q - 1] == e[q - pl - 1]);
            } else if q == pl + el {
                assert(json[q + 1] == c2[1]);
            } else if q == pl + el + 1 {
                assert(json[q] == c2[1]);
            } else {
                assert(json[q - 1] == c2[q - 1 - pl - el]);
            }
        }
    }
    lemma_find_first(json, n, pl + el + 2);
    assert(json.skip(pl + el + 14) =~= tail);
}

spec fn report_threshold(s: DaemonState) -> Seq<char> {
    match s.last_applied_threshold {
        Some(v) => dec(v as nat),
        None => "null"@,
    }
}

spec fn report_rest(s: DaemonState) -> Seq<char> {
    ",\"last_poll\":"@ + dec(s.last_poll_ts as nat) + ",\"error\":"@ + match s.error {
        Some(e) => json_quoted(e@),
        None => "null"@,
    } + "}"@
}

proof fn lemma_report_rest(s: DaemonState)
    ensures
        report_rest(s).len() > 0,
        report_rest(s)[0] == ',',
{
    reveal_strlit(",\"last_poll\":");
}

proof fn lemma_report_tail(s: DaemonState, w: Seq<char>)
    ensures
        w + ",\"last_poll\":"@ + dec(s.last_poll_ts as nat) + ",\"error\":"@ + match s.error {
            Some(e) => json_quoted(e@),
            None => "null"@,
        } + "}"@ == w + report_rest(s),
{
    let lp = ",\"last_poll\":"@;
    let dt = dec(s.last_poll_ts as nat);
    let el = ",\"error\":"@;
    let er = match s.error {
        Some(e) => json_quoted(e@),
        None => "null"@,
    };
    let rb = "}"@;
    lemma_concat_associative(w, lp, dt);
    lemma_concat_associative(w, lp + dt, el);
    lemma_concat_associative(w, lp + dt + el, er);
    lemma_concat_associative(w, lp + dt + el + er, rb);
}

proof fn lemma_report_shape_none(s: DaemonState)
    requires
        s.last_status is None,
    ensures
        status_json(s) == lit_a() + ("null"@ + (",\"status\":"@ + "null"@ + ",\"threshold\":"@
            + report_threshold(s) + report_rest(s))),
{
    reveal_strlit("{\"capacity\":");
    assert("{\"capacity\":"@ =~= lit_a());
    let n = "null"@;
    let b = ",\"status\":"@;
    let c = ",\"threshold\":"@;
    let t = report_threshold(s);
    let w = lit_a() + n + b + n + c + t;
    lemma_report_tail(s, w);
    lemma_concat_associative(lit_a() + n + b + n + c, t, report_rest(s));
    lemma_concat_associative(lit_a() + n + b + n, c, t + report_rest(s));
    lemma_concat_associative(lit_a() + n + b, n, c + (t + report_rest(s)));
    lemma_concat_associative(lit_a() + n, b, n + (c + (t + report_rest(s))));
    lemma_concat_associative(lit_a(), n, b + (n + (c + (t + report_rest(s)))));
    assert(b + n + c + t + report_rest(s) == b + (n + (c + (t + report_rest(s))))) by {
        lemma_concat_associative(b + n + c, t, report_rest(s));
        lemma_concat_associative(b + n, c, t + report_rest(s));
        lemma_concat_associative(b, n, c + (t + report_rest(s)));
    }
}

proof fn lemma_report_shape_some(s: DaemonState, d: Seq<char>, e: Seq<char>)
    requires
        s.last_status matches Some(b) && d == dec(b.capacity as nat) && e == json_escape(b.status@),
    ensures
        status_json(s) == lit_a() + d + lit_b2() + e + lit_c2() + (report_threshold(s)
            + report_rest(s)),
{
    reveal_strlit("{\"capacity\":");
    reveal_strlit(",\"status\":");
    reveal_strlit("\"");
    reveal_strlit(",\"threshold\":");
    let a = "{\"capacity\":"@;
    let b = ",\"status\":"@;
    let q = "\""@;
    let c = ",\"threshold\":"@;
    assert(a =~= lit_a());
    assert(b + q =~= lit_b2());
    assert(q + c =~= lit_c2());
    let t = report_threshold(s);
    let r = report_rest(s);
    let w2 = a + d + b;
    let w5 = w2 + (q + e + q) + c + t;
    lemma_report_tail(s, w5);
    lemma_concat_associative(w2 + (q + e + q) + c, t, r);
    lemma_concat_associative(w2, q + e, q);
    lemma_concat_associative(w2, q, e);
    lemma_concat_associative(a + d, b, q);
    lemma_concat_associative(a + d + (b + q) + e, q, c);
}

/// The client reads back what the daemon reports: from a status report it
/// gets the battery's capacity and status text (whatever characters that
/// holds) and the threshold in force, exactly when the report has all three.
pub proof fn lemma_status_report_read_back(s: DaemonState)
    ensures
        parse_status_json_spec(status_json(s)) == match (s.last_status, s.last_applied_threshold) {
            (Some(b), Some(t)) => Some((b.capacity, b.status@, t)),
            _ => None,
        },
{
    lemma_needles();
    let json = status_json(s);
    let t = report_threshold(s);
    let r = report_rest(s);
    lemma_report_rest(s);
    match s.last_status {
        None => {
            lemma_report_shape_none(s);
            let tail = ",\"status\":"@ + "null"@ + ",\"threshold\":"@ + t + r;
            lemma_find_capacity(json, "null"@ + tail);
            lemma_extract_num_null(json, "\"capacity\":"@, 1, tail);
        },
        Some(bs) => {
            let d = dec(bs.capacity as nat);
            let e = json_escape(bs.status@);
            let c2 = lit_c2();
            lemma_dec(bs.capacity as nat);
            lemma_report_shape_some(s, d, e);
            let after_cap = lit_b2() + e + c2 + (t + r);
            assert(json == lit_a() + (d + after_cap)) by {
                assert(lit_a() + d + lit_b2() + e + c2 + (t + r) =~= lit_a() + (d + after_cap));
            }
            lemma_find_capacity(json, d + after_cap);
            lemma_extract_num_dec(json, "\"capacity\":"@, 1, bs.capacity as nat, after_cap);
            let after_open = e + c2 + (t + r);
            assert(json == lit_a() + d + lit_b2() + after_open) by {
                assert(lit_a() + d + lit_b2() + e + c2 + (t + r) =~= lit_a() + d + lit_b2()
                    + after_open);
            }
            lemma_find_status(json, d, after_open);
            assert(after_open == e + seq!['"'] + (c2.drop_first() + (t + r))) by {
                assert(after_open =~= e + seq!['"'] + (c2.drop_first() + (t + r)));
            }
            lemma_unescape_escape(bs.status@, c2.drop_first() + (t + r));
            lemma_find_threshold(json, d, bs.status@, t + r);
            let p = 25 + d.len() as int + e.len() as int;
            match s.last_applied_threshold {
                None => {
                    lemma_extract_num_null(json, "\"threshold\":"@, p, r);
                },
                Some(tv) => {
                    lemma_extract_num_dec(json, "\"threshold\":"@, p, tv as nat, r);
                },
            }
        },
    }
}

} // verus!
