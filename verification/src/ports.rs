//! Who listens on a TCP port: reading the output of `lsof` (Unix) and of
//! `netstat` and `tasklist` (Windows).

use vstd::prelude::*;
use crate::text;
use crate::text::{
    chars_of, find_char, line_bounds, parse_u32_range, push_decimal, push_str, push_words,
    string_of, string_of_range,
};

verus! {

/// The process that listens on a port.
#[derive(Clone, Debug)]
pub struct PortInfo {
    pub port: u16,
    pub pid: u32,
    pub name: String,
}

/// `str::parse::<u32>`.
pub open spec fn parse_u32(s: Seq<char>) -> Option<u32> {
    match text::parse_uint(s, u32::MAX as nat) {
        Some(v) => Some(v as u32),
        None => None,
    }
}

/// Reads `lsof -F pc` output line by line: the first `p<pid>` line whose
/// pid parses gives the pid, the first `c<command>` line with a non-empty
/// command gives the name.
pub open spec fn scan_lsof(ls: Seq<Seq<char>>, pid: Option<u32>, name: Seq<char>) -> (
    Option<u32>,
    Seq<char>,
)
    decreases ls.len(),
{
    if ls.len() == 0 {
        (pid, name)
    } else {
        let l = ls[0];
        if l.len() > 0 && l[0] == 'p' {
            scan_lsof(
                ls.drop_first(),
                if pid is None {
                    parse_u32(l.skip(1))
                } else {
                    pid
                },
                name,
            )
        } else if l.len() > 0 && l[0] == 'c' {
            scan_lsof(
                ls.drop_first(),
                pid,
                if name.len() == 0 {
                    l.skip(1)
                } else {
                    name
                },
            )
        } else {
            scan_lsof(ls.drop_first(), pid, name)
        }
    }
}

/// The listener that `lsof` output reports for `port`, if any.
pub open spec fn lsof_listener(port: u16, out: Seq<char>) -> Option<(u32, Seq<char>)> {
    let (pid, name) = scan_lsof(text::lines(out), None, Seq::empty());
    match pid {
        Some(p) => Some((p, name)),
        None => None,
    }
}

/// Who listens on `port`, from what `lsof -nP -iTCP:{port} -sTCP:LISTEN
/// -Fpc` printed.
pub fn port_info_from_lsof(port: u16, output: &str) -> (r: Option<PortInfo>)
    ensures
        match r {
            Some(i) => i.port == port && lsof_listener(port, output@) == Some((i.pid, i.name@)),
            None => lsof_listener(port, output@) is None,
        },
{
    let v = chars_of(output);
    let n = v.len();
    let mut pid: Option<u32> = None;
    let mut na: usize = 0;
    let mut nb: usize = 0;
    let mut i: usize = 0;
    assert(v@.subrange(0, 0) == Seq::<char>::empty());
    while i < n
        invariant
            i <= n == v@.len(),
            v@ == output@,
            na <= nb <= n,
            scan_lsof(text::lines(v@), None, Seq::empty()) == scan_lsof(
                text::lines_from(v@, i as int),
                pid,
                v@.subrange(na as int, nb as int),
            ),
        decreases n - i,
    {
        let (le, next) = line_bounds(v.as_slice(), i);
        let ghost l = v@.subrange(i as int, le as int);
        assert(text::lines_from(v@, i as int) == seq![l] + text::lines_from(v@, next as int));
        let ghost rest = text::lines_from(v@, next as int);
        assert((seq![l] + rest).drop_first() == rest);
        if le > i && v[i] == 'p' {
            assert(l[0] == v@[i as int]);
            assert(l.skip(1) == v@.subrange(i + 1, le as int));
            if pid.is_none() {
                pid = parse_u32_range(v.as_slice(), i + 1, le);
            }
        } else if le > i && v[i] == 'c' {
            assert(l[0] == v@[i as int]);
            assert(l.skip(1) == v@.subrange(i + 1, le as int));
            if na == nb {
                na = i + 1;
                nb = le;
            }
        }
        i = next;
    }
    match pid {
        Some(p) => Some(PortInfo { port, pid: p, name: string_of_range(v.as_slice(), na, nb) }),
        None => None,
    }
}

/// Whether `s` ends with `suffix`.
pub open spec fn ends_with(s: Seq<char>, suffix: Seq<char>) -> bool {
    suffix.len() <= s.len() && s.skip(s.len() - suffix.len()) == suffix
}

/// The pid on a `netstat -ano -p TCP` line, when it is a listening socket
/// on `port`: the line mentions `LISTENING`, its second word ends in
/// `:{port}`, and its last word is a pid.
pub open spec fn netstat_line_pid(l: Seq<char>, port: u16) -> Option<u32> {
    let w = text::words(l);
    let needle = ":"@ + text::decimal(port as nat);
    if text::contains_sub(l, "LISTENING"@) && w.len() > 1 && ends_with(w[1], needle) {
        parse_u32(w.last())
    } else {
        None
    }
}

/// The pid of the first listening line for `port`.
pub open spec fn netstat_pid(ls: Seq<Seq<char>>, port: u16) -> Option<u32>
    decreases ls.len(),
{
    if ls.len() == 0 {
        None
    } else {
        match netstat_line_pid(ls[0], port) {
            Some(p) => Some(p),
            None => netstat_pid(ls.drop_first(), port),
        }
    }
}

/// Only a listening socket counts: a pid is found only on a line of the
/// output that mentions `LISTENING`, whose local address (its second
/// word) ends in `:{port}` and whose last word is that pid; output without
/// a `LISTENING` line gives no pid.
pub proof fn lemma_netstat_only_listeners(ls: Seq<Seq<char>>, port: u16)
    ensures
        netstat_pid(ls, port) matches Some(p) ==> exists|i: int|
            0 <= i < ls.len() && text::contains_sub(#[trigger] ls[i], "LISTENING"@)
                && text::words(ls[i]).len() > 1 && ends_with(
                text::words(ls[i])[1],
                ":"@ + text::decimal(port as nat),
            ) && parse_u32(text::words(ls[i]).last()) == Some(p),
        (forall|i: int| 0 <= i < ls.len() ==> !text::contains_sub(#[trigger] ls[i], "LISTENING"@))
            ==> netstat_pid(ls, port) is None,
    decreases ls.len(),
{
    if ls.len() > 0 {
        lemma_netstat_only_listeners(ls.drop_first(), port);
        if netstat_line_pid(ls[0], port) is None {
            if let Some(p) = netstat_pid(ls, port) {
                let j = choose|j: int|
                    0 <= j < ls.drop_first().len() && text::contains_sub(
                        #[trigger] ls.drop_first()[j],
                        "LISTENING"@,
                    ) && text::words(ls.drop_first()[j]).len() > 1 && ends_with(
                        text::words(ls.drop_first()[j])[1],
                        ":"@ + text::decimal(port as nat),
                    ) && parse_u32(text::words(ls.drop_first()[j]).last()) == Some(p);
                assert(ls[j + 1] == ls.drop_first()[j]);
            }
        } else {
            assert(text::contains_sub(ls[0], "LISTENING"@));
        }
        if forall|i: int| 0 <= i < ls.len() ==> !text::contains_sub(#[trigger] ls[i], "LISTENING"@) {
            assert(!text::contains_sub(ls[0], "LISTENING"@));
            assert forall|i: int| 0 <= i < ls.drop_first().len() implies !text::contains_sub(
                #[trigger] ls.drop_first()[i],
                "LISTENING"@,
            ) by {
                assert(ls.drop_first()[i] == ls[i + 1]);
            }
        }
    }
}

/// Whether the string `s` ends with `suffix`.
fn ends_with_str(s: &String, suffix: &Vec<char>) -> (r: bool)
    ensures
        r == ends_with(s@, suffix@),
{
    let v = chars_of(s.as_str());
    if suffix.len() > v.len() {
        return false;
    }
    let k = v.len() - suffix.len();
    assert(v@.skip(k as int) == v@.subrange(k as int, v@.len() as int));
    assert(suffix@.subrange(0, suffix@.len() as int) == suffix@);
    text::range_eq(v.as_slice(), k, v.len(), suffix.as_slice(), 0, suffix.len())
}

/// The pid on one `netstat` line, as [`netstat_line_pid`] says.
fn netstat_line(v: &Vec<char>, lo: usize, hi: usize, port: u16) -> (r: Option<u32>)
    requires
        lo <= hi <= v@.len(),
    ensures
        r == netstat_line_pid(v@.subrange(lo as int, hi as int), port),
{
    let mut line: Vec<char> = Vec::new();
    let mut k = lo;
    while k < hi
        invariant
            lo <= k <= hi <= v@.len(),
            line@ == v@.subrange(lo as int, k as int),
        decreases hi - k,
    {
        line.push(v[k]);
        k = k + 1;
        assert(line@ == v@.subrange(lo as int, k as int));
    }
    let s = string_of(line.as_slice());
    let mut w: Vec<String> = Vec::new();
    push_words(&mut w, s.as_str());
    assert(text::views(w@) == text::words(s@));
    if !text::contains_in(line.as_slice(), "LISTENING") || w.len() <= 1 {
        return None;
    }
    let mut needle: Vec<char> = Vec::new();
    push_str(&mut needle, ":");
    push_decimal(&mut needle, port as u64);
    assert(text::views(w@)[1] == w@[1]@);
    if !ends_with_str(&w[1], &needle) {
        return None;
    }
    let last = chars_of(w[w.len() - 1].as_str());
    assert(text::views(w@).last() == last@);
    assert(last@.subrange(0, last@.len() as int) == last@);
    parse_u32_range(last.as_slice(), 0, last.len())
}

/// The pid listening on `port`, from what `netstat -ano -p TCP` printed.
pub fn listener_pid_from_netstat(port: u16, output: &str) -> (r: Option<u32>)
    ensures
        r == netstat_pid(text::lines(output@), port),
{
    let v = chars_of(output);
    let n = v.len();
    let mut i: usize = 0;
    while i < n
        invariant
            i <= n == v@.len(),
            v@ == output@,
            netstat_pid(text::lines(v@), port) == netstat_pid(text::lines_from(v@, i as int), port),
        decreases n - i,
    {
        let (le, next) = line_bounds(v.as_slice(), i);
        let ghost l = v@.subrange(i as int, le as int);
        assert(text::lines_from(v@, i as int) == seq![l] + text::lines_from(v@, next as int));
        let ghost rest = text::lines_from(v@, next as int);
        assert((seq![l] + rest).drop_first() == rest);
        match netstat_line(&v, i, le, port) {
            Some(p) => {
                return Some(p);
            },
            None => {},
        }
        i = next;
    }
    None
}

/// The image name in `tasklist /FO CSV /NH` output: the first
/// comma-separated field, without its quotes.
pub open spec fn tasklist_name(out: Seq<char>) -> Seq<char> {
    crate::runner::strip_both(out.take(text::first_index(out, ',') as int), '"')
}

/// The process name that `tasklist` printed.
pub fn name_from_tasklist(output: &str) -> (r: String)
    ensures
        r@ == tasklist_name(output@),
{
    let v = chars_of(output);
    let c = find_char(v.as_slice(), 0, v.len(), ',');
    assert(v@.subrange(0, v@.len() as int) == v@);
    assert(v@.take(c as int) == v@.subrange(0, c as int));
    let a = text::strip_leading_from(v.as_slice(), 0, c, '"');
    let b = text::strip_trailing_from(v.as_slice(), a, c, '"');
    string_of_range(v.as_slice(), a, b)
}

/// The error when the listener of a port could not be killed:
/// `ERR_KILL|{name}|{pid}`.
pub open spec fn kill_error(info_name: Seq<char>, pid: u32) -> Seq<char> {
    "ERR_KILL|"@ + info_name + "|"@ + text::decimal(pid as nat)
}

/// The error for a failed kill of a port's listener.
pub fn kill_error_message(info: &PortInfo) -> (r: String)
    ensures
        r@ == kill_error(info.name@, info.pid),
{
    let mut v: Vec<char> = Vec::new();
    push_str(&mut v, "ERR_KILL|");
    push_str(&mut v, info.name.as_str());
    push_str(&mut v, "|");
    push_decimal(&mut v, info.pid as u64);
    string_of(v.as_slice())
}

/// The error for a kill on a port no one listens on.
pub fn port_free_error() -> (r: String)
    ensures
        r@ == "ERR_PORT_FREE"@,
{
    string_of(chars_of("ERR_PORT_FREE").as_slice())
}

} // verus!
