//! The target of a request in absolute form, `scheme://host[:port][/path]`,
//! and the places at which its parts begin and end.

use vstd::prelude::*;
use vstd::slice::slice_subrange;
use crate::text::{all_digits, bounded_numeral, is_digit, parse_numeral};

verus! {

/// The colon.
pub const COLON: u8 = 58;

/// The slash.
pub const SLASH: u8 = 47;

/// The port of a target that names none.
pub const DEFAULT_PORT: u16 = 80;

/// Whether `://` stands at a place.
pub open spec fn separator_at(t: Seq<u8>, i: int) -> bool {
    &&& 0 <= i
    &&& i + 3 <= t.len()
    &&& t[i] == COLON
    &&& t[i + 1] == SLASH
    &&& t[i + 2] == SLASH
}

/// The first place at or behind `from` that holds the byte, or the length
/// of the text where none does.
pub open spec fn find_byte(s: Seq<u8>, b: u8, from: int) -> int
    decreases s.len() - from,
{
    if from < 0 || from >= s.len() {
        s.len() as int
    } else if s[from] == b {
        from
    } else {
        find_byte(s, b, from + 1)
    }
}

/// The last place before `upto` and not before `from` that holds the byte,
/// or `upto` where none does.
pub open spec fn find_last_byte(s: Seq<u8>, b: u8, from: int, upto: int, k: int) -> int
    decreases k - from,
{
    if k <= from || k > s.len() || from < 0 {
        upto
    } else if s[k - 1] == b {
        k - 1
    } else {
        find_last_byte(s, b, from, upto, k - 1)
    }
}

/// Where the scheme of a target ends: before the first slash of the target.
pub open spec fn scheme_end(t: Seq<u8>) -> int {
    find_byte(t, SLASH, 0) - 1
}

/// Whether a target is in absolute form: it begins with a scheme, one or
/// more bytes without a slash, and `://` follows the scheme.
pub open spec fn is_absolute(t: Seq<u8>) -> bool {
    scheme_end(t) >= 1 && separator_at(t, scheme_end(t))
}

/// Where the host of an absolute target begins.
pub open spec fn host_start(t: Seq<u8>) -> int {
    scheme_end(t) + 3
}

/// Where the path of an absolute target begins: at the first slash behind
/// the `://`, or at the end of a target without one.
pub open spec fn path_start(t: Seq<u8>) -> int {
    find_byte(t, SLASH, host_start(t))
}

/// The place of the last colon between host start and path start, or the
/// path start where there is none.
pub open spec fn port_colon(t: Seq<u8>) -> int {
    find_last_byte(t, COLON, host_start(t), path_start(t), path_start(t))
}

/// The digits behind the last colon of the authority.
pub open spec fn port_digits(t: Seq<u8>) -> Seq<u8> {
    t.subrange(port_colon(t) + 1, path_start(t))
}

/// Whether the authority ends in a colon and a run of digits, which may be
/// empty.
pub open spec fn names_port(t: Seq<u8>) -> bool {
    port_colon(t) < path_start(t) && all_digits(port_digits(t), 10)
}

/// Where the host of an absolute target ends.
pub open spec fn host_end(t: Seq<u8>) -> int {
    if names_port(t) {
        port_colon(t)
    } else {
        path_start(t)
    }
}

/// The scheme of a target; empty where the target is not absolute.
pub open spec fn target_scheme(t: Seq<u8>) -> Seq<u8> {
    if is_absolute(t) {
        t.subrange(0, scheme_end(t))
    } else {
        Seq::empty()
    }
}

/// The host of a target; empty where the target is not absolute.
pub open spec fn target_host(t: Seq<u8>) -> Seq<u8> {
    if is_absolute(t) {
        t.subrange(host_start(t), host_end(t))
    } else {
        Seq::empty()
    }
}

/// The port of a target: the decimal number behind the last colon of the
/// authority where that is one of 16 bits, and 80 in every other case.
pub open spec fn target_port(t: Seq<u8>) -> u16 {
    if is_absolute(t) && names_port(t) {
        match bounded_numeral(port_digits(t), 10) {
            Some(port) => if port <= u16::MAX {
                port as u16
            } else {
                DEFAULT_PORT
            },
            None => DEFAULT_PORT,
        }
    } else {
        DEFAULT_PORT
    }
}

/// The path of a target, with what follows it; empty where the target is
/// not absolute.
pub open spec fn target_path(t: Seq<u8>) -> Seq<u8> {
    if is_absolute(t) {
        t.subrange(path_start(t), t.len() as int)
    } else {
        Seq::empty()
    }
}

/// What is sent on as the target of a request: the path of an absolute
/// target, and a target of another form as it is.
pub open spec fn forward_path(t: Seq<u8>) -> Seq<u8> {
    if is_absolute(t) {
        target_path(t)
    } else {
        t
    }
}

/// The places of the parts of an absolute target, and its port.
#[derive(Clone, Copy, Debug, PartialEq, Eq)]
pub struct Places {
    pub scheme_end: usize,
    pub host_start: usize,
    pub host_end: usize,
    pub path_start: usize,
    pub port: u16,
}

/// The places are in order and within the target.
pub proof fn lemma_places_ordered(t: Seq<u8>)
    requires
        is_absolute(t),
    ensures
        1 <= scheme_end(t) < host_start(t) <= host_end(t) <= path_start(t) <= t.len(),
        separator_at(t, scheme_end(t)),
        path_start(t) < t.len() ==> t[path_start(t)] == SLASH,
        host_end(t) < path_start(t) ==> t[host_end(t)] == COLON,
{
    lemma_find_byte(t, SLASH, host_start(t));
    lemma_find_last_byte(t, COLON, host_start(t), path_start(t), path_start(t));
}

/// What is sent on as a target is sent on as it is: it is no absolute
/// target any more.
pub proof fn lemma_forward_path_fixed(t: Seq<u8>)
    ensures
        !is_absolute(forward_path(t)),
        forward_path(forward_path(t)) == forward_path(t),
{
    if is_absolute(t) {
        lemma_places_ordered(t);
        let p = forward_path(t);
        if p.len() > 0 {
            assert(p[0] == t[path_start(t)]);
        }
    }
}

/// What `find_byte` finds.
pub proof fn lemma_find_byte(s: Seq<u8>, b: u8, from: int)
    requires
        0 <= from <= s.len(),
    ensures
        from <= find_byte(s, b, from) <= s.len(),
        find_byte(s, b, from) < s.len() ==> s[find_byte(s, b, from)] == b,
    decreases s.len() - from,
{
    if from < s.len() && s[from] != b {
        lemma_find_byte(s, b, from + 1);
    }
}

/// What `find_last_byte` finds.
pub proof fn lemma_find_last_byte(s: Seq<u8>, b: u8, from: int, upto: int, k: int)
    requires
        0 <= from <= k <= upto <= s.len(),
    ensures
        from <= find_last_byte(s, b, from, upto, k) <= upto,
        find_last_byte(s, b, from, upto, k) < upto ==> s[find_last_byte(s, b, from, upto, k)]
            == b,
    decreases k - from,
{
    if k > from && s[k - 1] != b {
        lemma_find_last_byte(s, b, from, upto, k - 1);
    }
}

/// Whether every byte of a text is a decimal digit.
fn is_decimal(s: &[u8]) -> (r: bool)
    ensures
        r == all_digits(s@, 10),
{
    let mut i: usize = 0;
    while i < s.len()
        invariant
            0 <= i <= s.len(),
            forall|j: int| 0 <= j < i ==> is_digit(#[trigger] s@[j], 10),
        decreases s.len() - i,
    {
        if !(48 <= s[i] && s[i] <= 57) {
            assert(!is_digit(s@[i as int], 10));
            return false;
        }
        i += 1;
    }
    true
}

/// Finds the parts of a target; `None` where the target is not absolute.
pub fn locate(t: &[u8]) -> (r: Option<Places>)
    ensures
        match r {
            Some(p) => {
                &&& is_absolute(t@)
                &&& p.scheme_end == scheme_end(t@)
                &&& p.host_start == host_start(t@)
                &&& p.host_end == host_end(t@)
                &&& p.path_start == path_start(t@)
                &&& p.port == target_port(t@)
            },
            None => !is_absolute(t@),
        },
{
    let n = t.len();
    let mut first: usize = 0;
    while first < n && t[first] != SLASH
        invariant
            0 <= first <= n,
            n == t.len(),
            find_byte(t@, SLASH, 0) == find_byte(t@, SLASH, first as int),
        decreases n - first,
    {
        first += 1;
    }
    if first < 2 || n - first < 2 || t[first - 1] != COLON || t[first + 1] != SLASH {
        return None;
    }
    let sep = first - 1;
    let start = sep + 3;
    let mut slash = start;
    while slash < n && t[slash] != SLASH
        invariant
            start <= slash <= n,
            n == t.len(),
            find_byte(t@, SLASH, start as int) == find_byte(t@, SLASH, slash as int),
        decreases n - slash,
    {
        slash += 1;
    }
    let mut k = slash;
    while k > start && t[k - 1] != COLON
        invariant
            start <= k <= slash <= n,
            n == t.len(),
            find_last_byte(t@, COLON, start as int, slash as int, slash as int) == find_last_byte(
                t@,
                COLON,
                start as int,
                slash as int,
                k as int,
            ),
        decreases k,
    {
        k -= 1;
    }
    if k == start {
        return Some(
            Places {
                scheme_end: sep,
                host_start: start,
                host_end: slash,
                path_start: slash,
                port: DEFAULT_PORT,
            },
        );
    }
    let digits = slice_subrange(t, k, slash);
    if !is_decimal(digits) {
        return Some(
            Places {
                scheme_end: sep,
                host_start: start,
                host_end: slash,
                path_start: slash,
                port: DEFAULT_PORT,
            },
        );
    }
    let port = match parse_numeral(digits, 10) {
        Some(v) => if v <= 65535 {
            v as u16
        } else {
            DEFAULT_PORT
        },
        None => DEFAULT_PORT,
    };
    Some(Places { scheme_end: sep, host_start: start, host_end: k - 1, path_start: slash, port })
}

} // verus!
