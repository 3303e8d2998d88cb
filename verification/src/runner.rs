//! What the script runner decides: cleaning and reading process output,
//! the environment and arguments a script is started with, the names of
//! its log file and task, and the lines written to that log.

use vstd::prelude::*;
use crate::projects::{launch_view, LaunchConfig, LaunchConfigView};
use crate::text;
use crate::text::pairs_view;
use crate::text::{
    chars_of, contains_in, contains_string, find_char, find_in, is_whitespace, line_bounds,
    push_all, push_decimal, push_str, push_words, starts_with_in, string_of, string_of_range,
    strip_leading_from, strip_trailing_from, trim_range,
};

verus! {

/// The escape character that starts an ANSI control sequence.
pub open spec fn esc() -> char {
    '\u{1b}'
}

/// The bell character, which ends an `OSC` sequence.
pub open spec fn bel() -> char {
    '\u{7}'
}

/// Output of `s` from position `i` on, in state `mode`: 0 plain text,
/// 1 right after an escape, 2 inside a `CSI` sequence (`ESC [` up to and
/// including the first ASCII letter), 3 inside an `OSC` sequence (`ESC ]`
/// up to and including a bell or the terminator `ESC \`), 4 inside an
/// `OSC` sequence right after an escape. An escape inside an `OSC` that is
/// not followed by `\` starts a new escape sequence.
pub open spec fn strip_from(s: Seq<char>, i: int, mode: nat) -> Seq<char>
    decreases s.len() - i, mode,
{
    if i < 0 || i >= s.len() {
        Seq::empty()
    } else if mode == 1 {
        if s[i] == '[' {
            strip_from(s, i + 1, 2)
        } else if s[i] == ']' {
            strip_from(s, i + 1, 3)
        } else {
            strip_from(s, i, 0)
        }
    } else if mode == 2 {
        if text::is_ascii_alpha(s[i]) {
            strip_from(s, i + 1, 0)
        } else {
            strip_from(s, i + 1, 2)
        }
    } else if mode == 3 {
        if s[i] == bel() {
            strip_from(s, i + 1, 0)
        } else if s[i] == esc() {
            strip_from(s, i + 1, 4)
        } else {
            strip_from(s, i + 1, 3)
        }
    } else if mode == 4 {
        if s[i] == '\\' {
            strip_from(s, i + 1, 0)
        } else {
            strip_from(s, i, 1)
        }
    } else if s[i] == esc() {
        strip_from(s, i + 1, 1)
    } else {
        seq![s[i]] + strip_from(s, i + 1, 0)
    }
}

/// `s` without ANSI escape sequences: each escape character is dropped,
/// and with it a `CSI` sequence (`ESC [` up to the first ASCII letter) or
/// an `OSC` sequence (`ESC ]` up to a bell or `ESC \\`).
pub open spec fn ansi_stripped(s: Seq<char>) -> Seq<char> {
    strip_from(s, 0, 0)
}

/// Removes ANSI escape sequences (colours, cursor moves, window titles)
/// from a line of process output.
pub fn strip_ansi(s: &str) -> (r: String)
    ensures
        r@ == ansi_stripped(s@),
{
    let v = chars_of(s);
    let mut out: Vec<char> = Vec::new();
    let mut i: usize = 0;
    let mut mode: u8 = 0;
    while i < v.len()
        invariant
            i <= v@.len(),
            v@ == s@,
            mode <= 4,
            out@ + strip_from(v@, i as int, mode as nat) == strip_from(v@, 0, 0),
        decreases 5 * (v@.len() - i) + mode,
    {
        let c = v[i];
        if mode == 1 {
            if c == '[' {
                mode = 2;
                i = i + 1;
            } else if c == ']' {
                mode = 3;
                i = i + 1;
            } else {
                mode = 0;
            }
        } else if mode == 2 {
            if ('a' <= c && c <= 'z') || ('A' <= c && c <= 'Z') {
                mode = 0;
            }
            i = i + 1;
        } else if mode == 3 {
            if c == '\u{7}' {
                mode = 0;
            } else if c == '\u{1b}' {
                mode = 4;
            }
            i = i + 1;
        } else if mode == 4 {
            if c == '\\' {
                mode = 0;
                i = i + 1;
            } else {
                mode = 1;
            }
        } else {
            if c == '\u{1b}' {
                mode = 1;
            } else {
                let ghost before = out@;
                out.push(c);
                assert(out@ + strip_from(v@, i + 1, 0) == before + (seq![c] + strip_from(
                    v@,
                    i + 1,
                    0,
                )));
            }
            i = i + 1;
        }
    }
    assert(out@ + strip_from(v@, i as int, mode as nat) == out@);
    string_of(out.as_slice())
}

/// Nothing that `strip_from` yields is an escape character.
proof fn lemma_strip_from_no_escape(s: Seq<char>, i: int, mode: nat)
    ensures
        !strip_from(s, i, mode).contains(esc()),
    decreases s.len() - i, mode,
{
    if i < 0 || i >= s.len() {
    } else if mode == 1 {
        if s[i] == '[' {
            lemma_strip_from_no_escape(s, i + 1, 2);
        } else if s[i] == ']' {
            lemma_strip_from_no_escape(s, i + 1, 3);
        } else {
            lemma_strip_from_no_escape(s, i, 0);
        }
    } else if mode == 2 {
        lemma_strip_from_no_escape(s, i + 1, if text::is_ascii_alpha(s[i]) { 0 } else { 2 });
    } else if mode == 3 {
        if s[i] == bel() {
            lemma_strip_from_no_escape(s, i + 1, 0);
        } else if s[i] == esc() {
            lemma_strip_from_no_escape(s, i + 1, 4);
        } else {
            lemma_strip_from_no_escape(s, i + 1, 3);
        }
    } else if mode == 4 {
        if s[i] == '\\' {
            lemma_strip_from_no_escape(s, i + 1, 0);
        } else {
            lemma_strip_from_no_escape(s, i, 1);
        }
    } else if s[i] == esc() {
        lemma_strip_from_no_escape(s, i + 1, 1);
    } else {
        lemma_strip_from_no_escape(s, i + 1, 0);
        let rest = strip_from(s, i + 1, 0);
        assert forall|k: int| 0 <= k < (seq![s[i]] + rest).len() implies (seq![s[i]]
            + rest)[k] != esc() by {
            if k > 0 {
                assert((seq![s[i]] + rest)[k] == rest[k - 1]);
            }
        }
    }
}

/// Stripped output holds no escape character, so stripping it again
/// changes nothing.
pub proof fn lemma_strip_ansi_clean(s: Seq<char>)
    ensures
        !ansi_stripped(s).contains(esc()),
        ansi_stripped(ansi_stripped(s)) == ansi_stripped(s),
{
    lemma_strip_from_no_escape(s, 0, 0);
    lemma_strip_plain(ansi_stripped(s), 0);
    assert(ansi_stripped(s).subrange(0, ansi_stripped(s).len() as int) == ansi_stripped(s));
}

/// Text without escape characters comes through unchanged.
proof fn lemma_strip_plain(s: Seq<char>, i: int)
    requires
        !s.contains(esc()),
        0 <= i <= s.len(),
    ensures
        strip_from(s, i, 0) == s.subrange(i, s.len() as int),
    decreases s.len() - i,
{
    if i < s.len() {
        assert(s[i] != esc());
        lemma_strip_plain(s, i + 1);
        assert(seq![s[i]] + s.subrange(i + 1, s.len() as int) == s.subrange(i, s.len() as int));
    }
}

// ---------------------------------------------------------------------------
// Dev-server URLs in output.
// ---------------------------------------------------------------------------

/// Where a URL stops: whitespace, an escape, or a quote.
pub open spec fn ends_url(c: char) -> bool {
    text::is_ws(c) || c == esc() || c == '"' || c == '\''
}

/// The index of the first character of `s` that ends a URL, or its length.
pub open spec fn url_len(s: Seq<char>) -> nat
    decreases s.len(),
{
    if s.len() == 0 || ends_url(s[0]) {
        0
    } else {
        1 + url_len(s.drop_first())
    }
}

/// No character before `url_len(s)` ends a URL.
proof fn lemma_url_len(s: Seq<char>)
    ensures
        url_len(s) <= s.len(),
        forall|k: int| 0 <= k < url_len(s) ==> !ends_url(#[trigger] s[k]),
    decreases s.len(),
{
    if s.len() > 0 && !ends_url(s[0]) {
        lemma_url_len(s.drop_first());
        assert forall|k: int| 0 <= k < url_len(s) implies !ends_url(#[trigger] s[k]) by {
            if k > 0 {
                assert(s[k] == s.drop_first()[k - 1]);
            }
        }
    }
}

/// Whether a URL points at this machine.
pub open spec fn is_local_url(u: Seq<char>) -> bool {
    text::contains_sub(u, "localhost"@) || text::contains_sub(u, "127.0.0.1"@)
        || text::contains_sub(u, "0.0.0.0"@)
}

/// The local dev-server URL printed on a line (`http://localhost:5173/`
/// from vite, next, webpack…): the first `http://` URL, else the first
/// `https://` one, cut at whitespace, escapes or quotes, without trailing
/// slashes, and only when it names this machine.
pub open spec fn url_in(line: Seq<char>) -> Option<Seq<char>> {
    let start = match text::find_sub(line, "http://"@) {
        Some(i) => Some(i),
        None => text::find_sub(line, "https://"@),
    };
    match start {
        None => None,
        Some(st) => {
            let rest = line.skip(st);
            let url = text::strip_trailing(rest.take(url_len(rest) as int), '/');
            if is_local_url(url) {
                Some(url)
            } else {
                None
            }
        },
    }
}

/// A found URL names this machine, holds no whitespace, escape or quote,
/// and does not end in a slash.
pub proof fn lemma_url_shape(line: Seq<char>)
    ensures
        url_in(line) matches Some(u) ==> {
            &&& is_local_url(u)
            &&& forall|k: int| 0 <= k < u.len() ==> !ends_url(#[trigger] u[k])
            &&& u.len() > 0 && u.last() != '/'
        },
{
    let start = match text::find_sub(line, "http://"@) {
        Some(i) => Some(i),
        None => text::find_sub(line, "https://"@),
    };
    if let Some(st) = start {
        let rest = line.skip(st);
        let cut = rest.take(url_len(rest) as int);
        lemma_url_len(rest);
        text::lemma_strip_trailing(cut, '/');
        let u = text::strip_trailing(cut, '/');
        assert forall|k: int| 0 <= k < u.len() implies !ends_url(#[trigger] u[k]) by {
            assert(u[k] == cut[k]);
            assert(cut[k] == rest[k]);
        }
        if is_local_url(u) && u.len() == 0 {
            text::lemma_find_from(u, "localhost"@, 0);
            text::lemma_find_from(u, "127.0.0.1"@, 0);
            text::lemma_find_from(u, "0.0.0.0"@, 0);
            reveal_strlit("localhost");
            reveal_strlit("127.0.0.1");
            reveal_strlit("0.0.0.0");
        }
    }
}

/// Finds the local URL a dev server announces on a line of its output.
pub fn extract_url(line: &str) -> (r: Option<String>)
    ensures
        match r {
            Some(u) => url_in(line@) == Some(u@),
            None => url_in(line@) is None,
        },
{
    let v = chars_of(line);
    let http = chars_of("http://");
    let https = chars_of("https://");
    let start = match find_in(v.as_slice(), http.as_slice()) {
        Some(i) => i,
        None => match find_in(v.as_slice(), https.as_slice()) {
            Some(i) => i,
            None => {
                return None;
            },
        },
    };
    let n = v.len();
    let mut j = start;
    while j < n && !(is_whitespace(v[j]) || v[j] == '\u{1b}' || v[j] == '"' || v[j] == '\'')
        invariant
            start <= j <= n == v@.len(),
            url_len(v@.skip(start as int)) == (j - start) + url_len(v@.skip(j as int)),
        decreases n - j,
    {
        assert(v@.skip(j as int).drop_first() == v@.skip(j + 1));
        j = j + 1;
    }
    assert(v@.skip(start as int).take(j - start) == v@.subrange(start as int, j as int));
    let e = strip_trailing_from(v.as_slice(), start, j, '/');
    let mut url: Vec<char> = Vec::new();
    let mut k = start;
    while k < e
        invariant
            start <= k <= e <= v@.len(),
            url@ == v@.subrange(start as int, k as int),
        decreases e - k,
    {
        url.push(v[k]);
        k = k + 1;
        assert(url@ == v@.subrange(start as int, k as int));
    }
    if contains_in(url.as_slice(), "localhost") || contains_in(url.as_slice(), "127.0.0.1")
        || contains_in(url.as_slice(), "0.0.0.0") {
        Some(string_of(url.as_slice()))
    } else {
        None
    }
}


// ---------------------------------------------------------------------------
// Dotenv files.
// ---------------------------------------------------------------------------

/// `str::trim_matches(c)` for one character `c`.
pub open spec fn strip_both(s: Seq<char>, c: char) -> Seq<char> {
    text::strip_trailing(text::strip_leading(s, c), c)
}

/// The variable a dotenv line sets: `KEY=VALUE` after trimming, with an
/// `export ` prefix dropped, the key trimmed and the value trimmed and
/// stripped of double, then single quotes. Blank lines, comments and
/// lines without `=` set nothing.
pub open spec fn env_entry(line: Seq<char>) -> Option<(Seq<char>, Seq<char>)> {
    let t = text::trim(line);
    if t.len() == 0 || t[0] == '#' {
        None
    } else {
        let u = if text::starts_with(t, "export "@) {
            t.skip("export "@.len() as int)
        } else {
            t
        };
        let i = text::first_index(u, '=');
        if i >= u.len() {
            None
        } else {
            Some(
                (
                    text::trim(u.take(i as int)),
                    strip_both(strip_both(text::trim(u.skip(i + 1int)), '"'), '\''),
                ),
            )
        }
    }
}

/// The variables set by a sequence of lines, in order.
pub open spec fn entries_of(ls: Seq<Seq<char>>) -> Seq<(Seq<char>, Seq<char>)>
    decreases ls.len(),
{
    if ls.len() == 0 {
        Seq::empty()
    } else {
        let rest = entries_of(ls.drop_first());
        match env_entry(ls[0]) {
            Some(p) => seq![p] + rest,
            None => rest,
        }
    }
}

/// The assignments of a dotenv file, in the order of its lines.
pub open spec fn dotenv(raw: Seq<char>) -> Seq<(Seq<char>, Seq<char>)> {
    entries_of(text::lines(raw))
}

/// The environment that a list of assignments leaves: a later assignment
/// of a name replaces an earlier one.
pub open spec fn env_map(pairs: Seq<(Seq<char>, Seq<char>)>) -> Map<Seq<char>, Seq<char>>
    decreases pairs.len(),
{
    if pairs.len() == 0 {
        Map::empty()
    } else {
        env_map(pairs.drop_last()).insert(pairs.last().0, pairs.last().1)
    }
}

/// The bounds of `s[lo..hi]` with `c` stripped from both ends.
fn strip_both_range(s: &[char], lo: usize, hi: usize, c: char) -> (r: (usize, usize))
    requires
        lo <= hi <= s@.len(),
    ensures
        lo <= r.0 <= r.1 <= hi,
        s@.subrange(r.0 as int, r.1 as int) == strip_both(s@.subrange(lo as int, hi as int), c),
{
    let a = strip_leading_from(s, lo, hi, c);
    let b = strip_trailing_from(s, a, hi, c);
    (a, b)
}

/// The assignment on the line `s[lo..hi]`, if it holds one.
fn env_entry_at(s: &[char], lo: usize, hi: usize) -> (r: Option<(String, String)>)
    requires
        lo <= hi <= s@.len(),
    ensures
        match r {
            Some(p) => env_entry(s@.subrange(lo as int, hi as int)) == Some((p.0@, p.1@)),
            None => env_entry(s@.subrange(lo as int, hi as int)) is None,
        },
{
    let (ta, tb) = trim_range(s, lo, hi);
    let ghost t = s@.subrange(ta as int, tb as int);
    if ta == tb || s[ta] == '#' {
        return None;
    }
    let export = chars_of("export ");
    let ua = if starts_with_in(s, ta, tb, "export ") {
        ta + export.len()
    } else {
        ta
    };
    let ghost u = s@.subrange(ua as int, tb as int);
    assert(u == (if text::starts_with(t, "export "@) {
        t.skip("export "@.len() as int)
    } else {
        t
    }));
    let eq = find_char(s, ua, tb, '=');
    if eq >= tb {
        return None;
    }
    assert(u.take(eq - ua) == s@.subrange(ua as int, eq as int));
    assert(u.skip(eq - ua + 1) == s@.subrange(eq + 1, tb as int));
    let (ka, kb) = trim_range(s, ua, eq);
    let (va, vb) = trim_range(s, eq + 1, tb);
    let (qa, qb) = strip_both_range(s, va, vb, '"');
    let (sa, sb) = strip_both_range(s, qa, qb, '\'');
    let key = string_of_range(s, ka, kb);
    let value = string_of_range(s, sa, sb);
    Some((key, value))
}

/// Reads the variables of a dotenv file: `KEY=VALUE` lines, `export`
/// prefixes and quotes stripped, comments and blank lines ignored.
pub fn parse_env_text(raw: &str) -> (r: Vec<(String, String)>)
    ensures
        pairs_view(r@) == dotenv(raw@),
{
    let v = chars_of(raw);
    let n = v.len();
    let mut out: Vec<(String, String)> = Vec::new();
    let mut i: usize = 0;
    while i < n
        invariant
            i <= n == v@.len(),
            v@ == raw@,
            pairs_view(out@) + entries_of(text::lines_from(v@, i as int)) == dotenv(raw@),
        decreases n - i,
    {
        let (le, next) = line_bounds(v.as_slice(), i);
        let ghost line = v@.subrange(i as int, le as int);
        let ghost rest = text::lines_from(v@, next as int);
        assert(text::lines_from(v@, i as int) == seq![line] + rest);
        assert((seq![line] + rest).drop_first() == rest);
        let ghost before = out@;
        match env_entry_at(v.as_slice(), i, le) {
            Some(p) => {
                out.push(p);
                assert(pairs_view(out@) == pairs_view(before) + seq![(p.0@, p.1@)]);
            },
            None => {},
        }
        i = next;
    }
    assert(pairs_view(out@) + entries_of(text::lines_from(v@, n as int)) == pairs_view(out@));
    out
}

// ---------------------------------------------------------------------------
// The PATH that scripts see.
// ---------------------------------------------------------------------------

/// The last line of `s`, or nothing when it has none.
pub open spec fn last_line(s: Seq<char>) -> Seq<char> {
    if text::lines(s).len() == 0 {
        Seq::empty()
    } else {
        text::lines(s).last()
    }
}

/// The PATH a login shell printed: its last line trimmed (rc files may
/// print noise before it), kept only when the shell succeeded and the
/// line looks like a path list (holds a `/`).
pub open spec fn shell_path(ok: bool, out: Seq<char>) -> Seq<char> {
    let last = text::trim(last_line(out));
    if ok && last.contains('/') {
        last
    } else {
        Seq::empty()
    }
}

/// Reads the PATH out of what `$SHELL -ilc 'echo -n "$PATH"'` printed, given
/// whether the shell exited successfully.
pub fn user_shell_path(ok: bool, stdout: &str) -> (r: String)
    ensures
        r@ == shell_path(ok, stdout@),
{
    if !ok {
        return string_of(&[]);
    }
    let v = chars_of(stdout);
    let n = v.len();
    let mut i: usize = 0;
    let mut la: usize = 0;
    let mut lb: usize = 0;
    let ghost mut seen: Seq<Seq<char>> = Seq::empty();
    let mut any = false;
    while i < n
        invariant
            any == (seen.len() > 0),
            i <= n == v@.len(),
            v@ == stdout@,
            seen + text::lines_from(v@, i as int) == text::lines(v@),
            la <= lb <= n,
            seen.len() > 0 ==> seen.last() == v@.subrange(la as int, lb as int),
        decreases n - i,
    {
        let (le, next) = line_bounds(v.as_slice(), i);
        proof {
            let line = v@.subrange(i as int, le as int);
            let rest = text::lines_from(v@, next as int);
            assert(text::lines_from(v@, i as int) == seq![line] + rest);
            assert(seen + (seq![line] + rest) == seen.push(line) + rest);
            seen = seen.push(line);
        }
        la = i;
        lb = le;
        i = next;
        any = true;
    }
    assert(seen + text::lines_from(v@, n as int) == seen);
    if !any {
        return string_of(&[]);
    }
    let (ta, tb) = trim_range(v.as_slice(), la, lb);
    let mut has_slash = false;
    let mut k = ta;
    while k < tb
        invariant
            ta <= k <= tb <= v@.len(),
            has_slash == v@.subrange(ta as int, k as int).contains('/'),
        decreases tb - k,
    {
        if v[k] == '/' {
            has_slash = true;
            assert(v@.subrange(ta as int, k + 1)[k - ta] == '/');
        } else {
            assert(v@.subrange(ta as int, k + 1) == v@.subrange(ta as int, k as int).push(v@[k as int]));
        }
        k = k + 1;
    }
    if has_slash {
        string_of_range(v.as_slice(), ta, tb)
    } else {
        string_of(&[])
    }
}

/// The kind of system the app runs on, as far as PATH handling goes.
#[derive(PartialEq, Eq, Structural, Clone, Copy, Debug)]
pub enum Platform {
    Unix,
    Windows,
    Other,
}

/// The non-empty strings of `parts`, joined by `sep`.
pub open spec fn join_nonempty(parts: Seq<Seq<char>>, sep: Seq<char>) -> Seq<char>
    decreases parts.len(),
{
    if parts.len() == 0 {
        Seq::empty()
    } else {
        let rest = join_nonempty(parts.drop_first(), sep);
        if parts[0].len() == 0 {
            rest
        } else if rest.len() == 0 {
            parts[0]
        } else {
            parts[0] + sep + rest
        }
    }
}

/// The directories that Unix package managers are usually installed in,
/// under the home directory `home`.
pub open spec fn unix_fallbacks(home: Seq<char>) -> Seq<char> {
    "/usr/local/bin:/opt/homebrew/bin:"@ + home + "/.local/share/pnpm:"@ + home
        + "/Library/pnpm:"@ + home + "/.volta/bin"@
}

/// The PATH scripts run with: the login shell's PATH, the app's own PATH,
/// and on Unix the usual install directories, the empty ones left out,
/// separated by `;` on Windows and `:` elsewhere.
pub open spec fn path_env(
    shell: Seq<char>,
    path: Seq<char>,
    home: Seq<char>,
    platform: Platform,
) -> Seq<char> {
    let sep = if platform == Platform::Windows {
        ";"@
    } else {
        ":"@
    };
    let fallbacks = if platform == Platform::Unix {
        unix_fallbacks(home)
    } else {
        Seq::empty()
    };
    join_nonempty(seq![shell, path, fallbacks], sep)
}

/// `head` and `tail` joined by `sep`, or the one of them that is not empty.
fn join_with(head: &Vec<char>, tail: &Vec<char>, sep: &Vec<char>) -> (r: Vec<char>)
    ensures
        r@ == (if head@.len() == 0 {
            tail@
        } else if tail@.len() == 0 {
            head@
        } else {
            head@ + sep@ + tail@
        }),
{
    let mut out: Vec<char> = Vec::new();
    push_all(&mut out, head.as_slice());
    if head.len() > 0 && tail.len() > 0 {
        push_all(&mut out, sep.as_slice());
    }
    push_all(&mut out, tail.as_slice());
    out
}

/// Builds the PATH for scripts from the login shell's PATH, the app's own
/// `PATH` and `HOME`, so that tools installed through nvm, volta or
/// homebrew are found when the app was started from the GUI.
pub fn build_path_env(shell_path: &str, path_var: &str, home: &str, platform: Platform) -> (r:
    String)
    ensures
        r@ == path_env(shell_path@, path_var@, home@, platform),
{
    let mut fb: Vec<char> = Vec::new();
    if platform == Platform::Unix {
        push_str(&mut fb, "/usr/local/bin:/opt/homebrew/bin:");
        push_str(&mut fb, home);
        push_str(&mut fb, "/.local/share/pnpm:");
        push_str(&mut fb, home);
        push_str(&mut fb, "/Library/pnpm:");
        push_str(&mut fb, home);
        push_str(&mut fb, "/.volta/bin");
    }
    let sep = if platform == Platform::Windows {
        chars_of(";")
    } else {
        chars_of(":")
    };
    let a = chars_of(shell_path);
    let b = chars_of(path_var);
    let ghost parts = seq![a@, b@, fb@];
    assert(parts.drop_first() == seq![b@, fb@]);
    assert(parts.drop_first().drop_first() == seq![fb@]);
    assert(seq![fb@].drop_first() == Seq::<Seq<char>>::empty());
    assert(join_nonempty(Seq::<Seq<char>>::empty(), sep@) == Seq::<char>::empty());
    let j3 = fb;
    assert(join_nonempty(seq![j3@], sep@) == j3@);
    let j2 = join_with(&b, &j3, &sep);
    assert(join_nonempty(seq![b@, fb@], sep@) == j2@);
    let out = join_with(&a, &j2, &sep);
    assert(join_nonempty(parts, sep@) == out@);
    string_of(out.as_slice())
}


// ---------------------------------------------------------------------------
// Tasks and their log files.
// ---------------------------------------------------------------------------

/// A running script as the UI lists it.
#[derive(Clone, Debug)]
pub struct TaskInfo {
    pub key: String,
    pub pid: u32,
    pub url: Option<String>,
    pub log_file: String,
}

/// The key of a running script: `"{project_id}:{script}"`.
pub open spec fn key_of(project_id: Seq<char>, script: Seq<char>) -> Seq<char> {
    project_id + ":"@ + script
}

/// The key under which a project's script runs.
pub fn task_key(project_id: &str, script: &str) -> (r: String)
    ensures
        r@ == key_of(project_id@, script@),
{
    let mut v: Vec<char> = Vec::new();
    push_str(&mut v, project_id);
    push_str(&mut v, ":");
    push_str(&mut v, script);
    string_of(v.as_slice())
}

/// What `char::is_alphanumeric` returns for `c`.
pub uninterp spec fn char_alphanumeric(c: char) -> bool;

/// `char::is_alphanumeric`: whether `c` has the Unicode `Alphabetic`
/// property or a numeric general category.
#[verifier::external_body]
fn is_alphanumeric(c: char) -> (r: bool)
    ensures
        r == char_alphanumeric(c),
{
    c.is_alphanumeric()
}

/// Whether `c` is a letter or a digit: for ASCII (where Unicode's
/// letters and digits are exactly `a`-`z`, `A`-`Z` and `0`-`9`) by those
/// ranges, beyond it as `char::is_alphanumeric` says.
pub open spec fn alphanumeric(c: char) -> bool {
    if (c as u32) < 128 {
        text::is_digit(c) || text::is_ascii_alpha(c)
    } else {
        char_alphanumeric(c)
    }
}

/// A character kept in a log file name: letters, digits, `-` and `_`;
/// anything else becomes `_`.
pub open spec fn safe_char(c: char) -> char {
    if alphanumeric(c) || c == '-' || c == '_' {
        c
    } else {
        '_'
    }
}

/// A script name made safe for a file name, one character for each.
pub open spec fn safe_script(script: Seq<char>) -> Seq<char> {
    script.map_values(|c: char| safe_char(c))
}

/// The log file name of a project's script: `{project_id}-{script}.log`,
/// the script name made safe for a file name.
pub open spec fn log_name(project_id: Seq<char>, script: Seq<char>) -> Seq<char> {
    project_id + "-"@ + safe_script(script) + ".log"@
}

/// The name of the file that a project's script logs to.
pub fn log_file_name(project_id: &str, script: &str) -> (r: String)
    ensures
        r@ == log_name(project_id@, script@),
{
    let sc = chars_of(script);
    let mut v: Vec<char> = Vec::new();
    push_str(&mut v, project_id);
    push_str(&mut v, "-");
    let ghost prefix = v@;
    let mut i: usize = 0;
    while i < sc.len()
        invariant
            i <= sc@.len(),
            sc@ == script@,
            v@ == prefix + sc@.take(i as int).map_values(|c: char| safe_char(c)),
        decreases sc.len() - i,
    {
        let c = sc[i];
        let alnum = if (c as u32) < 128 {
            ('0' <= c && c <= '9') || ('a' <= c && c <= 'z') || ('A' <= c && c <= 'Z')
        } else {
            is_alphanumeric(c)
        };
        let d = if alnum || c == '-' || c == '_' {
            c
        } else {
            '_'
        };
        v.push(d);
        i = i + 1;
        assert(sc@.take(i as int).map_values(|c: char| safe_char(c)) == sc@.take(i - 1).map_values(
            |c: char| safe_char(c),
        ).push(d));
    }
    assert(sc@.take(i as int) == sc@);
    push_str(&mut v, ".log");
    string_of(v.as_slice())
}

/// The part of a log file name taken from the script holds no path
/// separator and no dot, so it cannot lead out of the log directory.
pub proof fn lemma_log_name_stays_in_directory(script: Seq<char>)
    ensures
        safe_script(script).len() == script.len(),
        forall|k: int|
            0 <= k < script.len() ==> #[trigger] safe_script(script)[k] != '/' && safe_script(
                script,
            )[k] != '\\' && safe_script(script)[k] != '.',
{
}


// ---------------------------------------------------------------------------
// Starting and stopping.
// ---------------------------------------------------------------------------

/// Why a script cannot be started.
pub open spec fn start_refusal(
    running: Seq<Seq<char>>,
    installed: Seq<Seq<char>>,
    key: Seq<char>,
    pm: Seq<char>,
) -> Option<Seq<char>> {
    if running.contains(key) {
        Some("ERR_ALREADY_RUNNING"@)
    } else if !installed.contains(pm) {
        Some("ERR_PM_MISSING|"@ + pm)
    } else {
        None
    }
}

/// Refuses to start a script that already runs under `key` (two quick
/// clicks must not start it twice) or whose package manager `pm` is not
/// installed here.
pub fn check_start(running: &Vec<String>, installed: &Vec<String>, key: &str, pm: &str) -> (r:
    Result<(), String>)
    ensures
        match r {
            Ok(()) => start_refusal(text::views(running@), text::views(installed@), key@, pm@)
                is None,
            Err(e) => start_refusal(text::views(running@), text::views(installed@), key@, pm@)
                == Some(e@),
        },
{
    if contains_string(running, key) {
        return Err(string_of(chars_of("ERR_ALREADY_RUNNING").as_slice()));
    }
    if !contains_string(installed, pm) {
        let mut v: Vec<char> = Vec::new();
        push_str(&mut v, "ERR_PM_MISSING|");
        push_str(&mut v, pm);
        return Err(string_of(v.as_slice()));
    }
    Ok(())
}

/// Stopping a script that is not running is refused.
pub fn check_stop(running: &Vec<String>, key: &str) -> (r: Result<(), String>)
    ensures
        r is Ok <==> text::views(running@).contains(key@),
        r matches Err(e) ==> e@ == "ERR_NOT_RUNNING"@,
{
    if contains_string(running, key) {
        Ok(())
    } else {
        Err(string_of(chars_of("ERR_NOT_RUNNING").as_slice()))
    }
}

/// Asking for the log file of a script that never logged is refused.
pub fn check_log_file(exists: bool, path: &str) -> (r: Result<String, String>)
    ensures
        r is Ok <==> exists,
        r matches Ok(p) ==> p@ == path@,
        r matches Err(e) ==> e@ == "ERR_NO_LOG_FILE"@,
{
    if exists {
        Ok(string_of(chars_of(path).as_slice()))
    } else {
        Err(string_of(chars_of("ERR_NO_LOG_FILE").as_slice()))
    }
}

// ---------------------------------------------------------------------------
// Log lines.
// ---------------------------------------------------------------------------

#[verifier::external_type_specification]
#[verifier::external_body]
pub struct ExSystemTime(std::time::SystemTime);

/// `SystemTime::now`: the current time of the system clock.
#[verifier::external_body]
fn system_time_now() -> std::time::SystemTime {
    std::time::SystemTime::now()
}

/// `SystemTime::duration_since(UNIX_EPOCH)` in whole seconds; `None` when
/// the clock reads before 1970.
#[verifier::external_body]
fn seconds_since_epoch(t: &std::time::SystemTime) -> Option<u64> {
    t.duration_since(std::time::UNIX_EPOCH).ok().map(|d| d.as_secs())
}

/// A time stamp for log headers: `unix:{seconds}`.
pub open spec fn stamp(secs: nat) -> Seq<char> {
    "unix:"@ + text::decimal(secs)
}

/// The stamp of the given number of seconds since 1970.
pub fn unix_stamp(secs: u64) -> (r: String)
    ensures
        r@ == stamp(secs as nat),
{
    let mut v: Vec<char> = Vec::new();
    push_str(&mut v, "unix:");
    push_decimal(&mut v, secs);
    string_of(v.as_slice())
}

/// The log stamp of a clock reading in seconds since 1970; a reading
/// before 1970 (`None`) stamps 0.
pub fn stamp_of(reading: Option<u64>) -> (r: String)
    ensures
        r@ == stamp(
            match reading {
                Some(s) => s as nat,
                None => 0,
            },
        ),
{
    let secs = match reading {
        Some(s) => s,
        None => 0,
    };
    unix_stamp(secs)
}

/// The current time as a log stamp; 0 seconds when the clock reads
/// before 1970. Which time the clock reads is not a function of anything
/// the library holds, so only the shape of the stamp is stated here;
/// `stamp_of` states what is made of the reading.
pub fn now_str() -> (r: String)
    ensures
        exists|secs: nat| r@ == stamp(secs),
{
    stamp_of(seconds_since_epoch(&system_time_now()))
}

/// The header written to the log when a script starts.
pub open spec fn run_header(pm: Seq<char>, script: Seq<char>, now: Seq<char>, path: Seq<char>) -> Seq<
    char,
> {
    "\n===== "@ + pm + " run "@ + script + " @ "@ + now + " ("@ + path + ") ====="@
}

/// `"\n===== {pm} run {script} @ {now} ({path}) ====="`.
pub fn run_header_line(pm: &str, script: &str, now: &str, path: &str) -> (r: String)
    ensures
        r@ == run_header(pm@, script@, now@, path@),
{
    let mut v: Vec<char> = Vec::new();
    push_str(&mut v, "\n===== ");
    push_str(&mut v, pm);
    push_str(&mut v, " run ");
    push_str(&mut v, script);
    push_str(&mut v, " @ ");
    push_str(&mut v, now);
    push_str(&mut v, " (");
    push_str(&mut v, path);
    push_str(&mut v, ") =====");
    string_of(v.as_slice())
}

/// An integer in decimal, with a `-` when negative.
pub open spec fn signed_decimal(i: int) -> Seq<char> {
    if i < 0 {
        "-"@ + text::decimal((-i) as nat)
    } else {
        text::decimal(i as nat)
    }
}

/// An exit code as `{:?}` shows an `Option<i32>`.
pub open spec fn debug_code(code: Option<i32>) -> Seq<char> {
    match code {
        Some(c) => "Some("@ + signed_decimal(c as int) + ")"@,
        None => "None"@,
    }
}

/// The line written to the log when a script exits on its own.
pub open spec fn exit_line(code: Option<i32>) -> Seq<char> {
    "===== process exited with code "@ + debug_code(code) + " ====="@
}

/// `"===== process exited with code {code:?} ====="`.
pub fn exit_log_line(code: Option<i32>) -> (r: String)
    ensures
        r@ == exit_line(code),
{
    let mut v: Vec<char> = Vec::new();
    push_str(&mut v, "===== process exited with code ");
    match code {
        Some(c) => {
            push_str(&mut v, "Some(");
            if c < 0 {
                push_str(&mut v, "-");
                let m = (-(c as i64)) as u64;
                push_decimal(&mut v, m);
            } else {
                push_decimal(&mut v, c as u64);
            }
            push_str(&mut v, ")");
        },
        None => {
            push_str(&mut v, "None");
        },
    }
    push_str(&mut v, " =====");
    string_of(v.as_slice())
}

/// The line written to the log when the user stops a script.
pub open spec fn stopped_line(now: Seq<char>) -> Seq<char> {
    "===== stopped by user @ "@ + now + " ====="@
}

/// `"===== stopped by user @ {now} ====="`.
pub fn stopped_log_line(now: &str) -> (r: String)
    ensures
        r@ == stopped_line(now@),
{
    let mut v: Vec<char> = Vec::new();
    push_str(&mut v, "===== stopped by user @ ");
    push_str(&mut v, now);
    push_str(&mut v, " =====");
    string_of(v.as_slice())
}


// ---------------------------------------------------------------------------
// How a script is launched.
// ---------------------------------------------------------------------------

/// The arguments and environment a script is started with.
#[derive(Clone, Debug)]
pub struct LaunchPlan {
    /// Arguments to the package manager.
    pub args: Vec<String>,
    /// Variables to set, in order; a later one replaces an earlier one.
    pub env: Vec<(String, String)>,
}

/// The variables a launch configuration sets: those of its env file, then
/// its explicit ones (which thereby win), then `PORT` when it names a port.
pub open spec fn config_env(cfg: Option<LaunchConfigView>, env_text: Seq<char>) -> Seq<
    (Seq<char>, Seq<char>),
> {
    match cfg {
        None => Seq::empty(),
        Some(c) => {
            let from_file = if c.env_file is Some {
                dotenv(env_text)
            } else {
                Seq::empty()
            };
            let port = match c.port {
                Some(p) => seq![("PORT"@, text::decimal(p as nat))],
                None => Seq::empty(),
            };
            from_file + c.env + port
        },
    }
}

/// The extra arguments of a launch configuration: `--port N` when it
/// names a port, then its extra arguments split at whitespace.
pub open spec fn config_args(cfg: Option<LaunchConfigView>) -> Seq<Seq<char>> {
    match cfg {
        None => Seq::empty(),
        Some(c) => {
            let port_args = match c.port {
                Some(p) => seq!["--port"@, text::decimal(p as nat)],
                None => Seq::empty(),
            };
            let words = match c.extra_args {
                Some(a) => text::words(a),
                None => Seq::empty(),
            };
            port_args + words
        },
    }
}

/// `run {script}`, then the extra arguments, after `--` for npm (which
/// forwards arguments to the script only after it).
pub open spec fn script_args(pm: Seq<char>, script: Seq<char>, extra: Seq<Seq<char>>) -> Seq<
    Seq<char>,
> {
    seq!["run"@, script] + if extra.len() > 0 {
        (if pm == "npm"@ {
            seq!["--"@]
        } else {
            Seq::empty()
        }) + extra
    } else {
        Seq::empty()
    }
}

/// How a script is run: `run {script}` first; extra arguments follow it
/// directly, except for npm, which gets `--` before them; with no extra
/// arguments nothing follows, and no other package manager ever gets `--`.
pub proof fn lemma_script_args_shape(pm: Seq<char>, script: Seq<char>, extra: Seq<Seq<char>>)
    ensures
        pm != "npm"@ ==> script_args(pm, script, extra) == seq!["run"@, script] + extra,
        pm == "npm"@ && extra.len() > 0 ==> script_args(pm, script, extra) == seq![
            "run"@,
            script,
            "--"@,
        ] + extra,
        extra.len() == 0 ==> script_args(pm, script, extra) == seq!["run"@, script],
        script_args(pm, script, extra).take(2) == seq!["run"@, script],
        script_args(pm, script, extra).contains("--"@) && script != "--"@ && !extra.contains(
            "--"@,
        ) ==> pm == "npm"@,
{
    let r = script_args(pm, script, extra);
    if extra.len() == 0 {
        assert(r =~= seq!["run"@, script] + extra);
    } else if pm == "npm"@ {
        assert(r =~= seq!["run"@, script, "--"@] + extra);
    } else {
        assert(r =~= seq!["run"@, script] + extra);
    }
    if pm != "npm"@ && r.contains("--"@) && script != "--"@ && !extra.contains("--"@) {
        let k = choose|k: int| 0 <= k < r.len() && r[k] == "--"@;
        if k >= 2 {
            assert(extra[k - 2] == r[k]);
        } else if k == 0 {
            reveal_strlit("run");
            reveal_strlit("--");
            assert(r[0] == "run"@);
            assert("run"@[0] != "--"@[0]);
        } else {
            assert(r[1] == script);
        }
    }
    assert(r.take(2) =~= seq!["run"@, script]);
}

/// The whole environment of a script: no colours, the computed PATH, and
/// what its launch configuration sets.
pub open spec fn launch_env(path: Seq<char>, cfg: Option<LaunchConfigView>, env_text: Seq<char>) -> Seq<
    (Seq<char>, Seq<char>),
> {
    seq![("FORCE_COLOR"@, "0"@), ("PATH"@, path)] + config_env(cfg, env_text)
}

/// A `String` equal to the literal `s`.
fn owned(s: &str) -> (r: String)
    ensures
        r@ == s@,
{
    string_of(chars_of(s).as_slice())
}

/// Appends copies of the pairs in `src`.
fn push_pairs(dst: &mut Vec<(String, String)>, src: &Vec<(String, String)>)
    ensures
        pairs_view(final(dst)@) == pairs_view(old(dst)@) + pairs_view(src@),
{
    let ghost start = pairs_view(dst@);
    let mut i: usize = 0;
    while i < src.len()
        invariant
            i <= src@.len(),
            pairs_view(dst@) == start + pairs_view(src@).take(i as int),
        decreases src.len() - i,
    {
        let k = src[i].0.clone();
        let v = src[i].1.clone();
        let ghost before = dst@;
        dst.push((k, v));
        assert(pairs_view(dst@) == pairs_view(before) + seq![(src@[i as int].0@, src@[i as int].1@)]);
        i = i + 1;
        assert(pairs_view(src@).take(i as int) == pairs_view(src@).take(i - 1) + seq![
            pairs_view(src@)[i - 1],
        ]);
    }
    assert(pairs_view(src@).take(i as int) == pairs_view(src@));
}

/// Works out how to start `script` with the package manager `pm`: its
/// arguments, and its environment from the PATH `path_env`, the launch
/// configuration `launch`, and `env_file_text`, the text of the
/// configuration's env file (empty when it cannot be read).
pub fn plan_launch(
    pm: &str,
    script: &str,
    launch: &Option<LaunchConfig>,
    env_file_text: &str,
    path_env: &str,
) -> (r: LaunchPlan)
    ensures
        text::views(r.args@) == script_args(pm@, script@, config_args(launch_view(*launch))),
        pairs_view(r.env@) == launch_env(path_env@, launch_view(*launch), env_file_text@),
{
    let mut env: Vec<(String, String)> = Vec::new();
    env.push((owned("FORCE_COLOR"), owned("0")));
    env.push((owned("PATH"), owned(path_env)));
    assert(pairs_view(env@) == seq![("FORCE_COLOR"@, "0"@), ("PATH"@, path_env@)]);
    let mut extra: Vec<String> = Vec::new();
    match launch {
        None => {},
        Some(cfg) => {
            let ghost e0 = pairs_view(env@);
            if cfg.env_file.is_some() {
                let vars = parse_env_text(env_file_text);
                push_pairs(&mut env, &vars);
            }
            let ghost e1 = pairs_view(env@);
            push_pairs(&mut env, &cfg.env);
            match cfg.port {
                Some(p) => {
                    let ghost before = env@;
                    env.push((owned("PORT"), text::decimal_string(p as u64)));
                    assert(pairs_view(env@) == pairs_view(before) + seq![
                        ("PORT"@, text::decimal(p as nat)),
                    ]);
                    extra.push(owned("--port"));
                    extra.push(text::decimal_string(p as u64));
                    assert(text::views(extra@) == seq!["--port"@, text::decimal(p as nat)]);
                },
                None => {},
            }
            match &cfg.extra_args {
                Some(a) => {
                    push_words(&mut extra, a.as_str());
                },
                None => {},
            }
        },
    }
    assert(text::views(extra@) == config_args(launch_view(*launch)));
    let mut args: Vec<String> = Vec::new();
    args.push(owned("run"));
    args.push(owned(script));
    let ghost a0 = text::views(args@);
    assert(a0 == seq!["run"@, script@]);
    if extra.len() > 0 {
        if text::str_eq(pm, "npm") {
            args.push(owned("--"));
        }
        let mut i: usize = 0;
        let ghost a1 = text::views(args@);
        while i < extra.len()
            invariant
                i <= extra@.len(),
                text::views(args@) == a1 + text::views(extra@).take(i as int),
            decreases extra.len() - i,
        {
            let w = extra[i].clone();
            let ghost before = args@;
            args.push(w);
            assert(text::views(args@) == text::views(before) + seq![extra@[i as int]@]);
            i = i + 1;
            assert(text::views(extra@).take(i as int) == text::views(extra@).take(i - 1) + seq![
                text::views(extra@)[i - 1],
            ]);
        }
        assert(text::views(extra@).take(i as int) == text::views(extra@));
    }
    LaunchPlan { args, env }
}


/// `parts` joined by `sep` (`[&str]::join`).
pub open spec fn join_all(parts: Seq<Seq<char>>, sep: Seq<char>) -> Seq<char>
    decreases parts.len(),
{
    if parts.len() == 0 {
        Seq::empty()
    } else if parts.len() == 1 {
        parts[0]
    } else {
        parts[0] + sep + join_all(parts.drop_first(), sep)
    }
}

/// Joining one more part appends the separator and the part.
proof fn lemma_join_all_push(parts: Seq<Seq<char>>, sep: Seq<char>, x: Seq<char>)
    requires
        parts.len() > 0,
    ensures
        join_all(parts.push(x), sep) == join_all(parts, sep) + sep + x,
    decreases parts.len(),
{
    if parts.len() == 1 {
        assert(parts.push(x).drop_first() == seq![x]);
        assert(join_all(seq![x], sep) == x);
    } else {
        assert(parts.push(x).drop_first() == parts.drop_first().push(x));
        lemma_join_all_push(parts.drop_first(), sep, x);
        let r = join_all(parts.drop_first(), sep);
        assert(parts[0] + sep + (r + sep + x) =~= (parts[0] + sep + r) + sep + x);
    }
}

/// The command line that Windows runs through `cmd /C`: the package
/// manager and its arguments separated by spaces.
pub fn command_line(pm: &str, args: &Vec<String>) -> (r: String)
    ensures
        r@ == join_all(seq![pm@] + text::views(args@), " "@),
{
    let mut v: Vec<char> = Vec::new();
    push_str(&mut v, pm);
    let ghost parts = seq![pm@] + text::views(args@);
    let mut i: usize = 0;
    assert(parts.take(1) == seq![pm@]);
    while i < args.len()
        invariant
            i <= args@.len(),
            parts == seq![pm@] + text::views(args@),
            v@ == join_all(parts.take(i + 1), " "@),
        decreases args.len() - i,
    {
        push_str(&mut v, " ");
        push_str(&mut v, args[i].as_str());
        proof {
            assert(parts.take(i + 2) == parts.take(i + 1).push(args@[i as int]@));
            lemma_join_all_push(parts.take(i + 1), " "@, args@[i as int]@);
        }
        i = i + 1;
    }
    assert(parts.take(i + 1) == parts);
    string_of(v.as_slice())
}

// ---------------------------------------------------------------------------
// Laws of the launch environment.
// ---------------------------------------------------------------------------

/// The environment of `a + b` is that of `a` overridden by that of `b`.
pub proof fn lemma_env_map_concat(a: Seq<(Seq<char>, Seq<char>)>, b: Seq<(Seq<char>, Seq<char>)>)
    ensures
        env_map(a + b) == env_map(a).union_prefer_right(env_map(b)),
    decreases b.len(),
{
    if b.len() == 0 {
        assert(a + b == a);
        assert(env_map(a).union_prefer_right(Map::empty()) == env_map(a));
    } else {
        assert((a + b).drop_last() == a + b.drop_last());
        lemma_env_map_concat(a, b.drop_last());
        assert(env_map(a + b) == env_map(a).union_prefer_right(env_map(b)));
    }
}

/// A variable set explicitly in the launch configuration wins over the
/// env file and over the app's own settings, unless it is `PORT` and the
/// configuration names a port.
pub proof fn lemma_explicit_env_wins(
    path: Seq<char>,
    cfg: LaunchConfigView,
    env_text: Seq<char>,
    name: Seq<char>,
)
    requires
        env_map(cfg.env).contains_key(name),
        cfg.port is None || name != "PORT"@,
    ensures
        env_map(launch_env(path, Some(cfg), env_text)).contains_key(name),
        env_map(launch_env(path, Some(cfg), env_text))[name] == env_map(cfg.env)[name],
{
    let from_file = if cfg.env_file is Some {
        dotenv(env_text)
    } else {
        Seq::empty()
    };
    let port = match cfg.port {
        Some(p) => seq![("PORT"@, text::decimal(p as nat))],
        None => Seq::<(Seq<char>, Seq<char>)>::empty(),
    };
    let base = seq![("FORCE_COLOR"@, "0"@), ("PATH"@, path)];
    let explicit = cfg.env;
    assert(launch_env(path, Some(cfg), env_text) == (base + from_file) + explicit + port);
    lemma_env_map_concat(base + from_file, explicit);
    lemma_env_map_concat((base + from_file) + explicit, port);
    if let Some(p) = cfg.port {
        assert(port.drop_last() == Seq::<(Seq<char>, Seq<char>)>::empty());
        assert(env_map(Seq::<(Seq<char>, Seq<char>)>::empty()) == Map::<Seq<char>, Seq<char>>::empty());
        let only_port = Map::<Seq<char>, Seq<char>>::empty().insert("PORT"@, text::decimal(p as nat));
        assert(env_map(port) == only_port);
        assert(!env_map(port).contains_key(name));
    } else {
        assert(env_map(port) == Map::<Seq<char>, Seq<char>>::empty());
    }
}

/// A configured port reaches the script as `PORT` and as `--port`.
pub proof fn lemma_port_is_passed(path: Seq<char>, cfg: LaunchConfigView, env_text: Seq<char>, p: u16)
    requires
        cfg.port == Some(p),
    ensures
        env_map(launch_env(path, Some(cfg), env_text))["PORT"@] == text::decimal(p as nat),
        config_args(Some(cfg)).take(2) == seq!["--port"@, text::decimal(p as nat)],
{
    let l = launch_env(path, Some(cfg), env_text);
    assert(l.last() == ("PORT"@, text::decimal(p as nat)));
    let port_args = seq!["--port"@, text::decimal(p as nat)];
    let words = match cfg.extra_args {
        Some(a) => text::words(a),
        None => Seq::empty(),
    };
    assert((port_args + words).take(2) == port_args);
}


// ---------------------------------------------------------------------------
// Reading a script's output.
// ---------------------------------------------------------------------------

/// What one line of a script's output leads to.
#[derive(Debug)]
pub struct OutputLine {
    /// The line without escape sequences, as it goes to the log and the UI.
    pub clean: String,
    /// The URL to record for the task, when the line announces one and the
    /// task has none yet.
    pub new_url: Option<String>,
}

/// The URL of a task after it prints `line`, when it was `current`
/// before: a task without a URL takes the one the line announces.
pub open spec fn url_step(current: Option<Seq<char>>, line: Seq<char>) -> Option<Seq<char>> {
    match current {
        Some(u) => Some(u),
        None => url_in(ansi_stripped(line)),
    }
}

/// The URL of a task that starts with `current` and prints `lines`.
pub open spec fn url_after(current: Option<Seq<char>>, lines: Seq<Seq<char>>) -> Option<
    Seq<char>,
>
    decreases lines.len(),
{
    if lines.len() == 0 {
        current
    } else {
        url_after(url_step(current, lines[0]), lines.drop_first())
    }
}

/// The URL announced by the first of `lines` that announces one.
pub open spec fn first_url(lines: Seq<Seq<char>>) -> Option<Seq<char>>
    decreases lines.len(),
{
    if lines.len() == 0 {
        None
    } else {
        match url_in(ansi_stripped(lines[0])) {
            Some(u) => Some(u),
            None => first_url(lines.drop_first()),
        }
    }
}

/// A task that has a URL keeps it, whatever it prints.
proof fn lemma_url_kept(u: Seq<char>, lines: Seq<Seq<char>>)
    ensures
        url_after(Some(u), lines) == Some(u),
    decreases lines.len(),
{
    if lines.len() > 0 {
        lemma_url_kept(u, lines.drop_first());
    }
}

/// First URL wins: a task that starts without a URL ends with the URL of
/// the first line that announces one, and once any prefix of its output
/// has given it a URL, the rest of the output never changes it.
pub proof fn lemma_first_url_wins(lines: Seq<Seq<char>>, k: int)
    requires
        0 <= k <= lines.len(),
    ensures
        url_after(None, lines) == first_url(lines),
        url_after(None, lines.take(k)) is Some ==> url_after(None, lines) == url_after(
            None,
            lines.take(k),
        ),
    decreases lines.len(),
{
    if lines.len() > 0 {
        match url_in(ansi_stripped(lines[0])) {
            Some(u) => {
                lemma_url_kept(u, lines.drop_first());
                if k > 0 {
                    lemma_url_kept(u, lines.take(k).drop_first());
                    assert(lines.take(k)[0] == lines[0]);
                }
            },
            None => {
                if k > 0 {
                    assert(lines.take(k).drop_first() =~= lines.drop_first().take(k - 1));
                    assert(lines.take(k)[0] == lines[0]);
                    lemma_first_url_wins(lines.drop_first(), k - 1);
                } else {
                    lemma_first_url_wins(lines.drop_first(), 0);
                }
            },
        }
    }
}

/// Handles one line of output of a task whose URL so far is
/// `current_url`: the first local URL a task prints becomes its URL.
pub fn read_output_line(line: &str, current_url: &Option<String>) -> (r: OutputLine)
    ensures
        r.clean@ == ansi_stripped(line@),
        text::opt_view(r.new_url) == if current_url is None {
            url_in(ansi_stripped(line@))
        } else {
            None
        },
        (if r.new_url is Some {
            text::opt_view(r.new_url)
        } else {
            text::opt_view(*current_url)
        }) == url_step(text::opt_view(*current_url), line@),
{
    let clean = strip_ansi(line);
    let new_url = if current_url.is_none() {
        extract_url(clean.as_str())
    } else {
        None
    };
    OutputLine { clean, new_url }
}

// ---------------------------------------------------------------------------
// Stopping a process tree, and watching a task for its exit.
// ---------------------------------------------------------------------------

/// One step of stopping a task's process tree on Unix.
#[derive(PartialEq, Eq, Structural, Clone, Copy, Debug)]
pub enum KillStep {
    /// Send this signal to the task's whole process group.
    SignalGroup(i32),
    /// Wait this many milliseconds.
    Sleep(u64),
    /// Wait for the group leader, so that it does not stay a zombie.
    Reap,
    /// Nothing more to do.
    Done,
}

/// `SIGTERM`, the polite request to stop.
pub open spec fn sigterm() -> i32 {
    15
}

/// `SIGKILL`, which cannot be ignored.
pub open spec fn sigkill() -> i32 {
    9
}

/// The step after `last` (`None` before the first): ask the group to stop,
/// give it 800 ms, force it only if the leader is still running, then reap.
pub open spec fn kill_after(last: Option<KillStep>, leader_exited: bool) -> KillStep {
    match last {
        None => KillStep::SignalGroup(sigterm()),
        Some(KillStep::SignalGroup(sig)) => if sig == sigterm() {
            KillStep::Sleep(800)
        } else {
            KillStep::Reap
        },
        Some(KillStep::Sleep(_)) => if leader_exited {
            KillStep::Reap
        } else {
            KillStep::SignalGroup(sigkill())
        },
        Some(KillStep::Reap) => KillStep::Done,
        Some(KillStep::Done) => KillStep::Done,
    }
}

/// Decides the next step of stopping a process tree, after `last`, where
/// `leader_exited` says whether the group leader has already exited.
pub fn next_kill_step(last: Option<KillStep>, leader_exited: bool) -> (r: KillStep)
    ensures
        r == kill_after(last, leader_exited),
{
    match last {
        None => KillStep::SignalGroup(15),
        Some(KillStep::SignalGroup(sig)) => if sig == 15 {
            KillStep::Sleep(800)
        } else {
            KillStep::Reap
        },
        Some(KillStep::Sleep(_)) => if leader_exited {
            KillStep::Reap
        } else {
            KillStep::SignalGroup(9)
        },
        Some(KillStep::Reap) => KillStep::Done,
        Some(KillStep::Done) => KillStep::Done,
    }
}

/// The steps from the start while the leader's state is `leader_exited`
/// at the check: `SIGKILL` is sent only to a group whose leader is still
/// running after the grace period, and every run ends by reaping.
pub proof fn lemma_kill_sequence(leader_exited: bool)
    ensures
        kill_after(None, leader_exited) == KillStep::SignalGroup(sigterm()),
        kill_after(Some(KillStep::SignalGroup(sigterm())), leader_exited) == KillStep::Sleep(800),
        kill_after(Some(KillStep::Sleep(800)), leader_exited) == if leader_exited {
            KillStep::Reap
        } else {
            KillStep::SignalGroup(sigkill())
        },
        kill_after(Some(KillStep::SignalGroup(sigkill())), leader_exited) == KillStep::Reap,
        kill_after(Some(KillStep::Reap), leader_exited) == KillStep::Done,
        forall|last: Option<KillStep>|
            kill_after(last, true) != KillStep::SignalGroup(sigkill()),
{
}

/// What a task's process is doing, as one poll of it finds it.
#[derive(PartialEq, Eq, Structural, Clone, Copy, Debug)]
pub enum ChildStatus {
    /// The task is no longer registered (it was stopped by the user).
    Untracked,
    /// Still running.
    Running,
    /// Exited, with its exit code when it has one.
    Exited(Option<i32>),
    /// Its state could not be read.
    Unreadable,
}

/// What the exit watcher does after one poll.
#[derive(Clone, Debug, PartialEq, Eq)]
pub enum WatchAction {
    /// Poll again later.
    Wait,
    /// Stop watching; stopping the task already reported it.
    Quit,
    /// Remove the task, write `log_line` to its log and report the exit
    /// with `code`.
    Exited { log_line: String, code: Option<i32> },
    /// Remove the task and report an exit without a code.
    Lost,
}

/// Decides what the exit watcher of a task does with one poll's finding.
pub fn watch_step(status: ChildStatus) -> (r: WatchAction)
    ensures
        match status {
            ChildStatus::Untracked => r == WatchAction::Quit,
            ChildStatus::Running => r == WatchAction::Wait,
            ChildStatus::Unreadable => r == WatchAction::Lost,
            ChildStatus::Exited(c) => r matches WatchAction::Exited { log_line, code } && code
                == c && log_line@ == exit_line(c),
        },
{
    match status {
        ChildStatus::Untracked => WatchAction::Quit,
        ChildStatus::Running => WatchAction::Wait,
        ChildStatus::Unreadable => WatchAction::Lost,
        ChildStatus::Exited(c) => WatchAction::Exited { log_line: exit_log_line(c), code: c },
    }
}

} // verus!
