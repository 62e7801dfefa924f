//! Character-level helpers on strings, stated over `Seq<char>`.

use vstd::prelude::*;

verus! {

/// The characters of a string slice, in order.
pub fn chars_of(s: &str) -> (v: Vec<char>)
    ensures
        v@ == s@,
{
    broadcast use vstd::string::group_string_axioms;
    let mut v: Vec<char> = Vec::new();
    for c in it: s.chars()
        invariant
            v@ == it.seq().take(it.index() as int),
    {
        v.push(c);
    }
    v
}

/// Collects characters into a `String`. Trusted: the body is one call of
/// `String::from_iter`, and the contract claims that the string holds exactly
/// the characters of `v`, in order.
#[verifier::external_body]
pub(crate) fn string_from_chars(v: Vec<char>) -> (s: String)
    ensures
        s@ == v@,
{
    String::from_iter(v)
}

/// Unicode `White_Space`: the characters that `char::is_whitespace` accepts.
pub open spec fn is_ws(c: char) -> bool {
    let u = c as u32;
    ||| 0x9 <= u <= 0xd
    ||| u == 0x20
    ||| u == 0x85
    ||| u == 0xa0
    ||| u == 0x1680
    ||| 0x2000 <= u <= 0x200a
    ||| u == 0x2028
    ||| u == 0x2029
    ||| u == 0x202f
    ||| u == 0x205f
    ||| u == 0x3000
}

/// `s` without its leading whitespace (`str::trim_start`).
pub open spec fn trim_start(s: Seq<char>) -> Seq<char>
    decreases s.len(),
{
    if s.len() > 0 && is_ws(s[0]) {
        trim_start(s.drop_first())
    } else {
        s
    }
}

/// `s` without its trailing whitespace (`str::trim_end`).
pub open spec fn trim_end(s: Seq<char>) -> Seq<char>
    decreases s.len(),
{
    if s.len() > 0 && is_ws(s.last()) {
        trim_end(s.drop_last())
    } else {
        s
    }
}

/// `s` without leading and trailing whitespace (`str::trim`).
pub open spec fn trim(s: Seq<char>) -> Seq<char> {
    trim_end(trim_start(s))
}

/// `c.is_whitespace()`.
pub fn char_is_ws(c: char) -> (b: bool)
    ensures
        b == is_ws(c),
{
    let u = c as u32;
    (0x9 <= u && u <= 0xd) || u == 0x20 || u == 0x85 || u == 0xa0 || u == 0x1680 || (0x2000 <= u
        && u <= 0x200a) || u == 0x2028 || u == 0x2029 || u == 0x202f || u == 0x205f || u == 0x3000
}

pub proof fn lemma_trim_start_at(s: Seq<char>, i: int)
    requires
        0 <= i <= s.len(),
        forall|j: int| 0 <= j < i ==> is_ws(#[trigger] s[j]),
        i == s.len() || !is_ws(s[i]),
    ensures
        trim_start(s) == s.skip(i),
    decreases i,
{
    if i == 0 {
        assert(s.skip(0) =~= s);
    } else {
        let t = s.drop_first();
        assert forall|j: int| 0 <= j < i - 1 implies is_ws(#[trigger] t[j]) by {
            assert(t[j] == s[j + 1]);
        }
        if i < s.len() {
            assert(t[i - 1] == s[i]);
        }
        lemma_trim_start_at(t, i - 1);
        assert(t.skip(i - 1) =~= s.skip(i));
    }
}

pub proof fn lemma_trim_end_at(s: Seq<char>, j: int)
    requires
        0 <= j <= s.len(),
        forall|k: int| j <= k < s.len() ==> is_ws(#[trigger] s[k]),
        j == 0 || !is_ws(s[j - 1]),
    ensures
        trim_end(s) == s.take(j),
    decreases s.len() - j,
{
    if j == s.len() {
        assert(s.take(j) =~= s);
    } else {
        let t = s.drop_last();
        assert forall|k: int| j <= k < t.len() implies is_ws(#[trigger] t[k]) by {
            assert(t[k] == s[k]);
        }
        if j > 0 {
            assert(t[j - 1] == s[j - 1]);
        }
        lemma_trim_end_at(t, j);
        assert(t.take(j) =~= s.take(j));
    }
}

/// Index of the first non-whitespace character of `v` at or after `from`.
pub fn skip_ws(v: &Vec<char>, from: usize) -> (i: usize)
    requires
        from <= v.len(),
    ensures
        from <= i <= v.len(),
        forall|j: int| from <= j < i ==> is_ws(#[trigger] v@[j]),
        i == v.len() || !is_ws(v@[i as int]),
{
    let mut i = from;
    while i < v.len() && char_is_ws(v[i])
        invariant
            from <= i <= v.len(),
            forall|j: int| from <= j < i ==> is_ws(#[trigger] v@[j]),
        decreases v.len() - i,
    {
        i = i + 1;
    }
    i
}

/// The characters of `v` without leading and trailing whitespace.
pub fn trim_chars(v: &Vec<char>) -> (r: Vec<char>)
    ensures
        r@ == trim(v@),
{
    let i = skip_ws(v, 0);
    let mut j = v.len();
    while j > i && char_is_ws(v[j - 1])
        invariant
            i <= j <= v.len(),
            forall|k: int| j <= k < v.len() ==> is_ws(#[trigger] v@[k]),
        decreases j,
    {
        j = j - 1;
    }
    proof {
        lemma_trim_start_at(v@, i as int);
        let t = v@.skip(i as int);
        assert forall|k: int| j - i <= k < t.len() implies is_ws(#[trigger] t[k]) by {
            assert(t[k] == v@[k + i]);
        }
        if j > i {
            assert(t[j - i - 1] == v@[j - 1]);
        }
        lemma_trim_end_at(t, j - i);
        assert(t.take(j - i) =~= v@.subrange(i as int, j as int));
    }
    slice_chars(v, i, j)
}

/// The characters `v[lo..hi]`.
pub fn slice_chars(v: &Vec<char>, lo: usize, hi: usize) -> (r: Vec<char>)
    requires
        lo <= hi <= v.len(),
    ensures
        r@ == v@.subrange(lo as int, hi as int),
{
    let mut r: Vec<char> = Vec::new();
    let mut k = lo;
    while k < hi
        invariant
            lo <= k <= hi <= v.len(),
            r@ == v@.subrange(lo as int, k as int),
        decreases hi - k,
    {
        r.push(v[k]);
        k = k + 1;
        proof {
            assert(r@ =~= v@.subrange(lo as int, k as int));
        }
    }
    r
}


/// An ASCII decimal digit.
pub open spec fn is_digit(c: char) -> bool {
    48 <= (c as u32) <= 57
}

/// The value of an ASCII decimal digit.
pub open spec fn digit_val(c: char) -> nat {
    ((c as u32) - 48) as nat
}

/// The ASCII digit for `d < 10`.
pub open spec fn digit_char(d: nat) -> char {
    if d == 0 {
        '0'
    } else if d == 1 {
        '1'
    } else if d == 2 {
        '2'
    } else if d == 3 {
        '3'
    } else if d == 4 {
        '4'
    } else if d == 5 {
        '5'
    } else if d == 6 {
        '6'
    } else if d == 7 {
        '7'
    } else if d == 8 {
        '8'
    } else {
        '9'
    }
}

/// The decimal representation of `n`, without sign or leading zeros (`n.to_string()`).
pub open spec fn dec(n: nat) -> Seq<char>
    decreases n,
{
    if n < 10 {
        seq![digit_char(n)]
    } else {
        dec(n / 10).push(digit_char(n % 10))
    }
}

/// The value of a string of decimal digits, most significant first.
pub open spec fn digits_value(s: Seq<char>) -> nat
    decreases s.len(),
{
    if s.len() == 0 {
        0
    } else {
        digits_value(s.drop_last()) * 10 + digit_val(s.last())
    }
}

pub open spec fn all_digits(s: Seq<char>) -> bool {
    forall|i: int| 0 <= i < s.len() ==> is_digit(#[trigger] s[i])
}

/// The number of leading decimal digits of `s`.
pub open spec fn digit_prefix_len(s: Seq<char>) -> nat
    decreases s.len(),
{
    if s.len() > 0 && is_digit(s[0]) {
        1 + digit_prefix_len(s.drop_first())
    } else {
        0
    }
}

/// What `str::parse::<u8>` accepts: an optional `+`, then one or more decimal
/// digits whose value is at most 255.
pub open spec fn parse_u8_spec(s: Seq<char>) -> Option<u8> {
    let d = if s.len() >= 2 && s[0] == '+' {
        s.drop_first()
    } else {
        s
    };
    if d.len() > 0 && all_digits(d) && digits_value(d) <= 255 {
        Some(digits_value(d) as u8)
    } else {
        None
    }
}

pub proof fn lemma_digit_char(d: nat)
    requires
        d < 10,
    ensures
        is_digit(digit_char(d)),
        digit_val(digit_char(d)) == d,
{
}

pub proof fn lemma_dec(n: nat)
    ensures
        dec(n).len() >= 1,
        all_digits(dec(n)),
        digits_value(dec(n)) == n,
        n < 10 ==> dec(n).len() == 1,
        n < 100 ==> dec(n).len() <= 2,
        n < 1000 ==> dec(n).len() <= 3,
        dec(n).len() <= n + 1,
    decreases n,
{
    lemma_digit_char(n % 10);
    vstd::arithmetic::div_mod::lemma_fundamental_div_mod(n as int, 10);
    if n < 10 {
        assert(dec(n).drop_last() =~= Seq::<char>::empty());
        assert(digits_value(Seq::<char>::empty()) == 0);
    } else {
        lemma_dec(n / 10);
        assert(dec(n).drop_last() =~= dec(n / 10));
    }
}

/// A string of digits followed by a non-digit, or by nothing, has exactly that
/// many leading digits.
pub proof fn lemma_digit_prefix_len(s: Seq<char>, i: int)
    requires
        0 <= i <= s.len(),
        forall|j: int| 0 <= j < i ==> is_digit(#[trigger] s[j]),
        i == s.len() || !is_digit(s[i]),
    ensures
        digit_prefix_len(s) == i,
    decreases i,
{
    if i > 0 {
        let t = s.drop_first();
        assert forall|j: int| 0 <= j < i - 1 implies is_digit(#[trigger] t[j]) by {
            assert(t[j] == s[j + 1]);
        }
        if i < s.len() {
            assert(t[i - 1] == s[i]);
        }
        lemma_digit_prefix_len(t, i - 1);
    }
}

/// The value of a digit string grows with each further digit.
proof fn lemma_digits_value_prefix(s: Seq<char>, k: int)
    requires
        0 <= k <= s.len(),
    ensures
        digits_value(s.take(k)) <= digits_value(s),
    decreases s.len() - k,
{
    if k < s.len() {
        lemma_digits_value_prefix(s, k + 1);
        assert(s.take(k + 1).drop_last() =~= s.take(k));
    } else {
        assert(s.take(k) =~= s);
    }
}

fn digit_char_exec(d: u64) -> (c: char)
    requires
        d < 10,
    ensures
        c == digit_char(d as nat),
{
    if d == 0 {
        '0'
    } else if d == 1 {
        '1'
    } else if d == 2 {
        '2'
    } else if d == 3 {
        '3'
    } else if d == 4 {
        '4'
    } else if d == 5 {
        '5'
    } else if d == 6 {
        '6'
    } else if d == 7 {
        '7'
    } else if d == 8 {
        '8'
    } else {
        '9'
    }
}

/// The decimal digits of `n`.
pub fn dec_chars(n: u64) -> (v: Vec<char>)
    ensures
        v@ == dec(n as nat),
    decreases n,
{
    if n < 10 {
        let mut v: Vec<char> = Vec::new();
        v.push(digit_char_exec(n));
        proof {
            assert(v@ =~= seq![digit_char(n as nat)]);
        }
        v
    } else {
        let mut v = dec_chars(n / 10);
        v.push(digit_char_exec(n % 10));
        v
    }
}

/// `n.to_string()`.
pub fn dec_string(n: u64) -> (s: String)
    ensures
        s@ == dec(n as nat),
{
    string_from_chars(dec_chars(n))
}

/// The value of the digits `v[lo..hi]` if it fits in a `u8`.
pub fn digits_to_u8(v: &Vec<char>, lo: usize, hi: usize) -> (r: Option<u8>)
    requires
        lo <= hi <= v.len(),
        all_digits(v@.subrange(lo as int, hi as int)),
    ensures
        r == (if digits_value(v@.subrange(lo as int, hi as int)) <= 255 {
            Some(digits_value(v@.subrange(lo as int, hi as int)) as u8)
        } else {
            None
        }),
{
    let ghost s = v@.subrange(lo as int, hi as int);
    let mut acc: u32 = 0;
    let mut k = lo;
    while k < hi
        invariant
            lo <= k <= hi <= v.len(),
            s == v@.subrange(lo as int, hi as int),
            all_digits(s),
            acc == digits_value(s.take(k - lo)),
            acc <= 255,
        decreases hi - k,
    {
        let c = v[k];
        proof {
            assert(s[k - lo] == c);
            assert(s.take(k - lo + 1).drop_last() =~= s.take(k - lo));
        }
        acc = acc * 10 + (c as u32 - 48);
        k = k + 1;
        if acc > 255 {
            proof {
                lemma_digits_value_prefix(s, k - lo);
            }
            return None;
        }
    }
    proof {
        assert(s.take(k - lo) =~= s);
    }
    Some(acc as u8)
}

/// `s.parse::<u8>()` on the characters of `v`.
pub fn parse_u8_chars(v: &Vec<char>) -> (r: Option<u8>)
    ensures
        r == parse_u8_spec(v@),
{
    let lo: usize = if v.len() >= 2 && v[0] == '+' {
        1
    } else {
        0
    };
    let ghost d = v@.subrange(lo as int, v@.len() as int);
    proof {
        assert(lo == 1 ==> v@.drop_first() =~= d);
        assert(lo == 0 ==> v@ =~= d);
    }
    assert(d == (if v@.len() >= 2 && v@[0] == '+' { v@.drop_first() } else { v@ }));
    if lo == v.len() {
        return None;
    }
    let mut k = lo;
    while k < v.len()
        invariant
            lo <= k <= v.len(),
            d == v@.subrange(lo as int, v@.len() as int),
            d == (if v@.len() >= 2 && v@[0] == '+' { v@.drop_first() } else { v@ }),
            forall|j: int| lo <= j < k ==> is_digit(#[trigger] v@[j]),
        decreases v.len() - k,
    {
        let u = v[k] as u32;
        if u < 48 || u > 57 {
            proof {
                assert(d[k - lo] == v@[k as int]);
                assert(!is_digit(d[k - lo]));
                assert(!all_digits(d));
            }
            return None;
        }
        k = k + 1;
    }
    proof {
        assert forall|i: int| 0 <= i < d.len() implies is_digit(#[trigger] d[i]) by {
            assert(d[i] == v@[i + lo]);
        }
    }
    digits_to_u8(v, lo, v.len())
}


/// `n` occurs in `h` at index `i`.
pub open spec fn occurs_at(h: Seq<char>, n: Seq<char>, i: int) -> bool {
    0 <= i && i + n.len() <= h.len() && h.subrange(i, i + n.len()) == n
}

/// The first index at or after `k` where `n` occurs in `h`.
pub open spec fn find_from(h: Seq<char>, n: Seq<char>, k: int) -> Option<int>
    decreases h.len() + 1 - k,
{
    if k < 0 || k + n.len() > h.len() {
        None
    } else if occurs_at(h, n, k) {
        Some(k)
    } else {
        find_from(h, n, k + 1)
    }
}

/// The first index where `n` occurs in `h` (`str::find`, counted in characters).
pub open spec fn find(h: Seq<char>, n: Seq<char>) -> Option<int> {
    find_from(h, n, 0)
}

/// If `n` occurs at `p` and nowhere before, `find` gives `p`.
/// What `find` gives is an occurrence.
pub proof fn lemma_find_occurs(h: Seq<char>, n: Seq<char>, k: int)
    requires
        find_from(h, n, k) is Some,
    ensures
        occurs_at(h, n, find_from(h, n, k)->0),
        k <= find_from(h, n, k)->0,
    decreases h.len() + 1 - k,
{
    if !(k < 0 || k + n.len() > h.len()) && !occurs_at(h, n, k) {
        lemma_find_occurs(h, n, k + 1);
    }
}

pub proof fn lemma_find_first(h: Seq<char>, n: Seq<char>, p: int)
    requires
        occurs_at(h, n, p),
        forall|k: int| 0 <= k < p ==> !occurs_at(h, n, k),
    ensures
        find(h, n) == Some(p),
{
    lemma_find_from_first(h, n, 0, p);
}

proof fn lemma_find_from_first(h: Seq<char>, n: Seq<char>, k: int, p: int)
    requires
        0 <= k <= p,
        occurs_at(h, n, p),
        forall|j: int| k <= j < p ==> !occurs_at(h, n, j),
    ensures
        find_from(h, n, k) == Some(p),
    decreases p - k,
{
    if k < p {
        lemma_find_from_first(h, n, k + 1, p);
    }
}

/// Whether `n` occurs in `h` at index `k`.
pub fn occurs_at_exec(h: &Vec<char>, n: &Vec<char>, k: usize) -> (b: bool)
    ensures
        b == occurs_at(h@, n@, k as int),
{
    if k > h.len() || n.len() > h.len() - k {
        return false;
    }
    let mut i: usize = 0;
    while i < n.len()
        invariant
            k + n.len() <= h.len(),
            i <= n.len(),
            forall|j: int| 0 <= j < i ==> h@[k + j] == n@[j],
        decreases n.len() - i,
    {
        if h[k + i] != n[i] {
            proof {
                assert(h@.subrange(k as int, k + n.len())[i as int] != n@[i as int]);
            }
            return false;
        }
        i = i + 1;
    }
    proof {
        assert(h@.subrange(k as int, k + n.len()) =~= n@);
    }
    true
}

/// The first index where `n` occurs in `h` (`str::find`, counted in characters).
pub fn find_chars(h: &Vec<char>, n: &Vec<char>) -> (r: Option<usize>)
    ensures
        match r {
            Some(i) => find(h@, n@) == Some(i as int),
            None => find(h@, n@) is None,
        },
{
    if n.len() == 0 {
        proof {
            assert(h@.subrange(0, 0) =~= n@);
        }
        return Some(0);
    }
    let mut k: usize = 0;
    while n.len() <= h.len() - k
        invariant
            k <= h.len(),
            n.len() >= 1,
            find(h@, n@) == find_from(h@, n@, k as int),
        decreases h.len() + 1 - k,
    {
        if occurs_at_exec(h, n, k) {
            return Some(k);
        }
        k = k + 1;
    }
    None
}

/// The characters that a JSON string body needs for `c`: quotes and backslashes
/// are escaped with a backslash, every other character stands for itself.
pub open spec fn escape_char(c: char) -> Seq<char> {
    if c == '"' {
        seq!['\\', '"']
    } else if c == '\\' {
        seq!['\\', '\\']
    } else {
        seq![c]
    }
}

/// `s` with its quotes and backslashes escaped.
pub open spec fn json_escape(s: Seq<char>) -> Seq<char>
    decreases s.len(),
{
    if s.len() == 0 {
        Seq::empty()
    } else {
        escape_char(s[0]) + json_escape(s.drop_first())
    }
}

pub proof fn lemma_json_escape_concat(a: Seq<char>, b: Seq<char>)
    ensures
        json_escape(a + b) == json_escape(a) + json_escape(b),
    decreases a.len(),
{
    if a.len() == 0 {
        assert(a + b =~= b);
        assert(Seq::<char>::empty() + json_escape(b) =~= json_escape(b));
    } else {
        lemma_json_escape_concat(a.drop_first(), b);
        assert((a + b).drop_first() =~= a.drop_first() + b);
        assert((a + b)[0] == a[0]);
        assert(escape_char(a[0]) + (json_escape(a.drop_first()) + json_escape(b)) =~= (
        escape_char(a[0]) + json_escape(a.drop_first())) + json_escape(b));
    }
}

/// Every quote in an escaped string follows a backslash.
pub proof fn lemma_json_escape_quotes(s: Seq<char>, i: int)
    requires
        0 <= i < json_escape(s).len(),
        json_escape(s)[i] == '"',
    ensures
        i > 0,
        json_escape(s)[i - 1] == '\\',
    decreases s.len(),
{
    if s.len() > 0 {
        let e = escape_char(s[0]);
        let r = json_escape(s.drop_first());
        assert(json_escape(s) == e + r);
        if i >= e.len() {
            lemma_json_escape_quotes(s.drop_first(), i - e.len());
        }
    }
}

/// Appends the escaped form of `s` to `out`.
pub fn push_json_escaped(out: &mut Vec<char>, s: &Vec<char>)
    ensures
        final(out)@ == old(out)@ + json_escape(s@),
{
    let ghost start = out@;
    let mut i: usize = 0;
    while i < s.len()
        invariant
            i <= s.len(),
            out@ == start + json_escape(s@.take(i as int)),
        decreases s.len() - i,
    {
        let c = s[i];
        if c == '"' {
            out.push('\\');
            out.push('"');
        } else if c == '\\' {
            out.push('\\');
            out.push('\\');
        } else {
            out.push(c);
        }
        proof {
            let t = s@.take(i as int);
            assert(s@.take(i + 1) =~= t + seq![c]);
            lemma_json_escape_concat(t, seq![c]);
            assert(seq![c].drop_first() =~= Seq::<char>::empty());
            assert(json_escape(Seq::<char>::empty()) =~= Seq::<char>::empty());
            assert(seq![c][0] == c);
            assert(escape_char(c) + Seq::<char>::empty() =~= escape_char(c));
            assert(json_escape(seq![c]) =~= escape_char(c));
        }
        i = i + 1;
    }
    proof {
        assert(s@.take(i as int) =~= s@);
    }
}

/// `s` with its quotes and backslashes escaped.
pub fn json_escape_string(s: &str) -> (r: String)
    ensures
        r@ == json_escape(s@),
{
    let v = chars_of(s);
    let mut out: Vec<char> = Vec::new();
    push_json_escaped(&mut out, &v);
    proof {
        assert(Seq::<char>::empty() + json_escape(v@) =~= json_escape(v@));
    }
    string_from_chars(out)
}

/// Reads a JSON string body up to its closing quote, undoing `\"` and `\\`
/// (any other character after a backslash is kept with its backslash).
/// `None` when no closing quote comes.
pub open spec fn unescape(s: Seq<char>) -> Option<Seq<char>>
    decreases s.len(),
{
    if s.len() == 0 {
        None
    } else if s[0] == '"' {
        Some(Seq::empty())
    } else if s[0] == '\\' {
        if s.len() < 2 {
            None
        } else {
            let c = s[1];
            let piece = if c == '"' {
                seq!['"']
            } else if c == '\\' {
                seq!['\\']
            } else {
                seq!['\\', c]
            };
            match unescape(s.skip(2)) {
                Some(r) => Some(piece + r),
                None => None,
            }
        }
    } else {
        match unescape(s.drop_first()) {
            Some(r) => Some(seq![s[0]] + r),
            None => None,
        }
    }
}

pub open spec fn prepend(p: Seq<char>, o: Option<Seq<char>>) -> Option<Seq<char>> {
    match o {
        Some(r) => Some(p + r),
        None => None,
    }
}

/// What an escaped string and its closing quote read back as.
pub proof fn lemma_unescape_escape(s: Seq<char>, tail: Seq<char>)
    ensures
        unescape(json_escape(s) + seq!['"'] + tail) == Some(s),
    decreases s.len(),
{
    let t = json_escape(s) + seq!['"'] + tail;
    if s.len() == 0 {
        assert(json_escape(s) =~= Seq::<char>::empty());
        assert(t[0] == '"');
        assert(s =~= Seq::<char>::empty());
    } else {
        let c = s[0];
        let rest = json_escape(s.drop_first()) + seq!['"'] + tail;
        lemma_unescape_escape(s.drop_first(), tail);
        assert(t =~= escape_char(c) + rest);
        if c == '"' || c == '\\' {
            assert(t.skip(2) =~= rest);
            assert(seq![c] + s.drop_first() =~= s);
        } else {
            assert(t.drop_first() =~= rest);
            assert(seq![c] + s.drop_first() =~= s);
        }
    }
}

/// Reads the JSON string body that starts at `h[start]` (see `unescape`).
pub fn unescape_chars(h: &Vec<char>, start: usize) -> (r: Option<Vec<char>>)
    requires
        start <= h.len(),
    ensures
        match r {
            Some(v) => unescape(h@.skip(start as int)) == Some(v@),
            None => unescape(h@.skip(start as int)) is None,
        },
{
    let mut out: Vec<char> = Vec::new();
    let mut i = start;
    loop
        invariant
            start <= i <= h.len(),
            unescape(h@.skip(start as int)) == prepend(out@, unescape(h@.skip(i as int))),
        decreases h.len() - i,
    {
        let ghost rest = h@.skip(i as int);
        if i == h.len() {
            return None;
        }
        let c = h[i];
        assert(rest[0] == c);
        if c == '"' {
            proof {
                assert(out@ + Seq::<char>::empty() =~= out@);
            }
            return Some(out);
        } else if c == '\\' {
            if i + 1 == h.len() {
                return None;
            }
            let d = h[i + 1];
            assert(rest[1] == d);
            assert(rest.skip(2) =~= h@.skip(i + 2));
            let ghost old_out = out@;
            if d == '"' {
                out.push('"');
                proof {
                    assert(prepend(old_out, prepend(seq!['"'], unescape(rest.skip(2)))) == prepend(
                        out@,
                        unescape(rest.skip(2)),
                    )) by {
                        assert(old_out + seq!['"'] =~= out@);
                        if let Some(x) = unescape(rest.skip(2)) {
                            assert(old_out + (seq!['"'] + x) =~= out@ + x);
                        }
                    }
                }
            } else if d == '\\' {
                out.push('\\');
                proof {
                    assert(prepend(old_out, prepend(seq!['\\'], unescape(rest.skip(2)))) == prepend(
                        out@,
                        unescape(rest.skip(2)),
                    )) by {
                        assert(old_out + seq!['\\'] =~= out@);
                        if let Some(x) = unescape(rest.skip(2)) {
                            assert(old_out + (seq!['\\'] + x) =~= out@ + x);
                        }
                    }
                }
            } else {
                out.push('\\');
                out.push(d);
                proof {
                    assert(prepend(old_out, prepend(seq!['\\', d], unescape(rest.skip(2))))
                        == prepend(out@, unescape(rest.skip(2)))) by {
                        assert(old_out + seq!['\\', d] =~= out@);
                        if let Some(x) = unescape(rest.skip(2)) {
                            assert(old_out + (seq!['\\', d] + x) =~= out@ + x);
                        }
                    }
                }
            }
            i = i + 2;
        } else {
            let ghost old_out = out@;
            out.push(c);
            proof {
                assert(rest.drop_first() =~= h@.skip(i + 1));
                assert(prepend(old_out, prepend(seq![c], unescape(rest.drop_first())))
                    == prepend(out@, unescape(rest.drop_first()))) by {
                    assert(old_out + seq![c] =~= out@);
                    if let Some(x) = unescape(rest.drop_first()) {
                        assert(old_out + (seq![c] + x) =~= out@ + x);
                    }
                }
            }
            i = i + 1;
        }
    }
}


/// Whether two character sequences are equal.
pub fn chars_eq(a: &Vec<char>, b: &Vec<char>) -> (r: bool)
    ensures
        r == (a@ == b@),
{
    if a.len() != b.len() {
        return false;
    }
    let mut i: usize = 0;
    while i < a.len()
        invariant
            a.len() == b.len(),
            i <= a.len(),
            forall|j: int| 0 <= j < i ==> a@[j] == b@[j],
        decreases a.len() - i,
    {
        if a[i] != b[i] {
            return false;
        }
        i = i + 1;
    }
    proof {
        assert(a@ =~= b@);
    }
    true
}

/// Whether the characters of `a` spell the string `b`.
pub fn chars_eq_str(a: &Vec<char>, b: &str) -> (r: bool)
    ensures
        r == (a@ == b@),
{
    let bv = chars_of(b);
    chars_eq(a, &bv)
}

/// Lexicographic order by code point, which is `str`'s order (`a <= b`).
pub open spec fn lex_le(a: Seq<char>, b: Seq<char>) -> bool
    decreases a.len(),
{
    if a.len() == 0 {
        true
    } else if b.len() == 0 {
        false
    } else if a[0] != b[0] {
        (a[0] as u32) < (b[0] as u32)
    } else {
        lex_le(a.drop_first(), b.drop_first())
    }
}

pub proof fn lemma_lex_le_total(a: Seq<char>, b: Seq<char>)
    ensures
        lex_le(a, b) || lex_le(b, a),
    decreases a.len(),
{
    if a.len() > 0 && b.len() > 0 && a[0] == b[0] {
        lemma_lex_le_total(a.drop_first(), b.drop_first());
    } else if a.len() > 0 && b.len() > 0 {
        vstd::utf8::char_u32_cast(a[0], a[0] as u32);
        vstd::utf8::char_u32_cast(b[0], b[0] as u32);
    }
}

pub proof fn lemma_lex_le_trans(a: Seq<char>, b: Seq<char>, c: Seq<char>)
    requires
        lex_le(a, b),
        lex_le(b, c),
    ensures
        lex_le(a, c),
    decreases a.len(),
{
    if a.len() > 0 && b.len() > 0 && c.len() > 0 && a[0] == b[0] && b[0] == c[0] {
        lemma_lex_le_trans(a.drop_first(), b.drop_first(), c.drop_first());
    }
}

pub proof fn lemma_lex_le_antisym(a: Seq<char>, b: Seq<char>)
    requires
        lex_le(a, b),
        lex_le(b, a),
    ensures
        a == b,
    decreases a.len(),
{
    if a.len() > 0 && b.len() > 0 {
        lemma_lex_le_antisym(a.drop_first(), b.drop_first());
        assert(a =~= seq![a[0]] + a.drop_first());
        assert(b =~= seq![b[0]] + b.drop_first());
    } else {
        assert(a =~= b);
    }
}

proof fn lemma_lex_le_skip(a: Seq<char>, b: Seq<char>, i: int)
    requires
        0 <= i <= a.len(),
        i <= b.len(),
        forall|j: int| 0 <= j < i ==> a[j] == b[j],
    ensures
        lex_le(a, b) == lex_le(a.skip(i), b.skip(i)),
    decreases i,
{
    if i > 0 {
        let a1 = a.drop_first();
        let b1 = b.drop_first();
        assert forall|j: int| 0 <= j < i - 1 implies a1[j] == b1[j] by {
            assert(a1[j] == a[j + 1] && b1[j] == b[j + 1]);
        }
        lemma_lex_le_skip(a1, b1, i - 1);
        assert(a1.skip(i - 1) =~= a.skip(i));
        assert(b1.skip(i - 1) =~= b.skip(i));
    } else {
        assert(a.skip(0) =~= a);
        assert(b.skip(0) =~= b);
    }
}

/// `a <= b` in `str`'s order.
pub fn lex_le_exec(a: &Vec<char>, b: &Vec<char>) -> (r: bool)
    ensures
        r == lex_le(a@, b@),
{
    let mut i: usize = 0;
    while i < a.len() && i < b.len() && a[i] == b[i]
        invariant
            i <= a.len(),
            i <= b.len(),
            forall|j: int| 0 <= j < i ==> a@[j] == b@[j],
        decreases a.len() - i,
    {
        i = i + 1;
    }
    proof {
        lemma_lex_le_skip(a@, b@, i as int);
        let sa = a@.skip(i as int);
        let sb = b@.skip(i as int);
        if i < a.len() {
            assert(sa[0] == a@[i as int]);
        }
        if i < b.len() {
            assert(sb[0] == b@[i as int]);
        }
    }
    if i == a.len() {
        true
    } else if i == b.len() {
        false
    } else {
        (a[i] as u32) < (b[i] as u32)
    }
}

/// `Path::new(base).join(name)`: an absolute `name` replaces `base`; otherwise
/// a separator goes between them unless `base` is empty or already ends with one.
pub open spec fn path_join(base: Seq<char>, name: Seq<char>) -> Seq<char> {
    if name.len() > 0 && name[0] == '/' {
        name
    } else if base.len() == 0 || base.last() == '/' {
        base + name
    } else {
        base + seq!['/'] + name
    }
}

/// `Path::new(base).join(name)`.
pub fn path_join_exec(base: &str, name: &str) -> (r: String)
    ensures
        r@ == path_join(base@, name@),
{
    let nv = chars_of(name);
    if nv.len() > 0 && nv[0] == '/' {
        return String::from_str(name);
    }
    let bv = chars_of(base);
    let mut r = String::from_str(base);
    if bv.len() > 0 && bv[bv.len() - 1] != '/' {
        r.append("/");
        proof {
            reveal_strlit("/");
            assert("/"@ =~= seq!['/']);
        }
    }
    r.append(name);
    r
}


/// What `{:?}` prints for a string (`<str as Debug>::fmt`): the string quoted,
/// with escapes for quotes, backslashes and unprintable characters.
pub uninterp spec fn debug_str(s: Seq<char>) -> Seq<char>;

/// `format!("{s:?}")`. Trusted: the body is one call of `<str as Debug>::fmt`
/// through `format!`; the contract names the result `debug_str(s@)` and says
/// nothing else of it, so it depends on the characters of `s` alone.
#[verifier::external_body]
pub(crate) fn debug_string(s: &str) -> (r: String)
    ensures
        r@ == debug_str(s@),
{
    format!("{s:?}")
}

/// The numbers that `n.to_string()` prints read back through
/// `str::parse::<u8>` as `n` when `n` is at most 255, and do not parse above.
pub proof fn lemma_parse_u8_dec(n: nat)
    ensures
        n <= 255 ==> parse_u8_spec(dec(n)) == Some(n as u8),
        n > 255 ==> parse_u8_spec(dec(n)) is None,
{
    lemma_dec(n);
    assert(is_digit(dec(n)[0]));
}

/// `a` is `b` or begins it.
pub open spec fn is_prefix_of(a: Seq<char>, b: Seq<char>) -> bool {
    a.len() <= b.len() && b.take(a.len() as int) == a
}

/// `lex_le` is the order of `str`: `a <= b` exactly when `a` begins `b`, or at
/// the first place where they differ `a` has the smaller code point.
pub proof fn lemma_lex_le_meaning(a: Seq<char>, b: Seq<char>)
    ensures
        lex_le(a, b) == (is_prefix_of(a, b) || exists|i: int|
            0 <= i < a.len() && i < b.len() && a.take(i) == b.take(i) && (#[trigger] a[i] as u32)
                < (b[i] as u32)),
    decreases a.len(),
{
    if a.len() == 0 {
        assert(b.take(0) =~= a);
    } else if b.len() == 0 {
        assert(!is_prefix_of(a, b));
    } else if a[0] != b[0] {
        vstd::utf8::char_u32_cast(a[0], a[0] as u32);
        vstd::utf8::char_u32_cast(b[0], b[0] as u32);
        assert(!is_prefix_of(a, b)) by {
            if a.len() <= b.len() {
                assert(b.take(a.len() as int)[0] == b[0]);
            }
        }
        if (a[0] as u32) < (b[0] as u32) {
            assert(a.take(0) =~= b.take(0));
            assert(0 < a.len() && 0 < b.len() && a.take(0) == b.take(0) && (a[0] as u32) < (
            b[0] as u32));
        } else {
            assert forall|i: int|
                0 <= i < a.len() && i < b.len() && a.take(i) == b.take(i) implies !((
            #[trigger] a[i] as u32) < (b[i] as u32)) by {
                if i > 0 {
                    assert(a.take(i)[0] == b.take(i)[0]);
                }
            }
        }
    } else {
        let a1 = a.drop_first();
        let b1 = b.drop_first();
        lemma_lex_le_meaning(a1, b1);
        assert(is_prefix_of(a, b) == is_prefix_of(a1, b1)) by {
            if a.len() <= b.len() {
                if b.take(a.len() as int) == a {
                    assert(b1.take(a1.len() as int) =~= a1) by {
                        assert forall|k: int| 0 <= k < a1.len() implies #[trigger] b1.take(
                            a1.len() as int,
                        )[k] == a1[k] by {
                            assert(b.take(a.len() as int)[k + 1] == a[k + 1]);
                        }
                    }
                }
                if b1.take(a1.len() as int) == a1 {
                    assert(b.take(a.len() as int) =~= a) by {
                        assert forall|k: int| 0 <= k < a.len() implies #[trigger] b.take(
                            a.len() as int,
                        )[k] == a[k] by {
                            if k > 0 {
                                assert(b1.take(a1.len() as int)[k - 1] == a1[k - 1]);
                            }
                        }
                    }
                }
            }
        }
        if exists|i: int|
            0 <= i < a1.len() && i < b1.len() && a1.take(i) == b1.take(i) && (
            #[trigger] a1[i] as u32) < (b1[i] as u32) {
            let i = choose|i: int|
                0 <= i < a1.len() && i < b1.len() && a1.take(i) == b1.take(i) && (
                #[trigger] a1[i] as u32) < (b1[i] as u32);
            assert(a.take(i + 1) =~= b.take(i + 1)) by {
                assert forall|k: int| 0 <= k < i + 1 implies #[trigger] a.take(i + 1)[k]
                    == b.take(i + 1)[k] by {
                    if k > 0 {
                        assert(a1.take(i)[k - 1] == b1.take(i)[k - 1]);
                    }
                }
            }
            assert(a[i + 1] == a1[i] && b[i + 1] == b1[i]);
        }
        assert forall|i: int|
            0 <= i < a.len() && i < b.len() && a.take(i) == b.take(i) && (#[trigger] a[i] as u32)
                < (b[i] as u32) implies exists|j: int|
            0 <= j < a1.len() && j < b1.len() && a1.take(j) == b1.take(j) && (
            #[trigger] a1[j] as u32) < (b1[j] as u32) by {
            assert(i > 0);
            assert(a1.take(i - 1) =~= b1.take(i - 1)) by {
                assert forall|k: int| 0 <= k < i - 1 implies #[trigger] a1.take(i - 1)[k]
                    == b1.take(i - 1)[k] by {
                    assert(a.take(i)[k + 1] == b.take(i)[k + 1]);
                }
            }
            assert(a1[i - 1] == a[i] && b1[i - 1] == b[i]);
        }
    }
}

spec fn ws_prefix(s: Seq<char>) -> nat
    decreases s.len(),
{
    if s.len() > 0 && is_ws(s[0]) {
        1 + ws_prefix(s.drop_first())
    } else {
        0
    }
}

proof fn lemma_ws_prefix(s: Seq<char>)
    ensures
        ws_prefix(s) <= s.len(),
        forall|k: int| 0 <= k < ws_prefix(s) ==> is_ws(#[trigger] s[k]),
        ws_prefix(s) == s.len() || !is_ws(s[ws_prefix(s) as int]),
    decreases s.len(),
{
    if s.len() > 0 && is_ws(s[0]) {
        let t = s.drop_first();
        lemma_ws_prefix(t);
        assert forall|k: int| 0 <= k < ws_prefix(s) implies is_ws(#[trigger] s[k]) by {
            if k > 0 {
                assert(s[k] == t[k - 1]);
            }
        }
        if ws_prefix(s) < s.len() {
            assert(s[ws_prefix(s) as int] == t[ws_prefix(t) as int]);
        }
    }
}

spec fn ws_suffix(s: Seq<char>) -> nat
    decreases s.len(),
{
    if s.len() > 0 && is_ws(s.last()) {
        1 + ws_suffix(s.drop_last())
    } else {
        0
    }
}

proof fn lemma_ws_suffix(s: Seq<char>)
    ensures
        ws_suffix(s) <= s.len(),
        forall|k: int| s.len() - ws_suffix(s) <= k < s.len() ==> is_ws(#[trigger] s[k]),
        ws_suffix(s) == s.len() || !is_ws(s[s.len() - ws_suffix(s) - 1]),
    decreases s.len(),
{
    if s.len() > 0 && is_ws(s.last()) {
        let t = s.drop_last();
        lemma_ws_suffix(t);
        assert forall|k: int| s.len() - ws_suffix(s) <= k < s.len() implies is_ws(
            #[trigger] s[k],
        ) by {
            if k < s.len() - 1 {
                assert(s[k] == t[k]);
            }
        }
        if ws_suffix(s) < s.len() {
            assert(s[s.len() - ws_suffix(s) - 1] == t[t.len() - ws_suffix(t) - 1]);
        }
    }
}

/// Trimming removes exactly the whitespace around the text: the result is
/// the stretch of `s` between its first and its last non-whitespace
/// character, and everything removed is whitespace.
pub proof fn lemma_trim_meaning(s: Seq<char>)
    ensures
        exists|i: int, j: int|
            {
                &&& 0 <= i <= j <= s.len()
                &&& trim(s) == s.subrange(i, j)
                &&& forall|k: int| 0 <= k < i ==> is_ws(#[trigger] s[k])
                &&& forall|k: int| j <= k < s.len() ==> is_ws(#[trigger] s[k])
                &&& i < j ==> !is_ws(s[i]) && !is_ws(s[j - 1])
            },
{
    lemma_ws_prefix(s);
    let i = ws_prefix(s) as int;
    lemma_trim_start_at(s, i);
    let t = s.skip(i);
    lemma_ws_suffix(t);
    let q = ws_suffix(t) as int;
    let m = t.len() - q;
    assert forall|k: int| m <= k < t.len() implies is_ws(#[trigger] t[k]) by {}
    lemma_trim_end_at(t, m);
    assert(t.take(m) =~= s.subrange(i, i + m));
    let j = i + m;
    assert forall|k: int| j <= k < s.len() implies is_ws(#[trigger] s[k]) by {
        assert(s[k] == t[k - i]);
    }
    if i < j {
        assert(s[j - 1] == t[m - 1]);
    }
    assert({
        &&& 0 <= i <= j <= s.len()
        &&& trim(s) == s.subrange(i, j)
        &&& forall|k: int| 0 <= k < i ==> is_ws(#[trigger] s[k])
        &&& forall|k: int| j <= k < s.len() ==> is_ws(#[trigger] s[k])
        &&& i < j ==> !is_ws(s[i]) && !is_ws(s[j - 1])
    });
}

} // verus!
