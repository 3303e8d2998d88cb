//! Text primitives over `Seq<char>`: whitespace, trimming, searching and
//! number formatting, with the meaning that std gives them.

use vstd::prelude::*;

verus! {

// ---------------------------------------------------------------------------
// Conversions between `str`/`String` and character vectors.
// ---------------------------------------------------------------------------

/// Copies the characters of `s` into a vector, in order.
pub fn chars_of(s: &str) -> (r: Vec<char>)
    ensures
        r@ == s@,
{
    let mut r: Vec<char> = Vec::new();
    for c in it: s.chars()
        invariant
            r@ == it.seq().take(it.index() as int),
            it.seq() == s@,
    {
        r.push(c);
    }
    r
}

/// `String::from_iter` over chars: the string holding exactly `v`, in order.
#[verifier::external_body]
pub(crate) fn string_of(v: &[char]) -> (r: String)
    ensures
        r@ == v@,
{
    v.iter().collect()
}

/// The characters of `s[lo..hi]` as a `String`.
pub fn string_of_range(s: &[char], lo: usize, hi: usize) -> (r: String)
    requires
        lo <= hi <= s@.len(),
    ensures
        r@ == s@.subrange(lo as int, hi as int),
{
    let mut v: Vec<char> = Vec::new();
    let mut i = lo;
    while i < hi
        invariant
            lo <= i <= hi <= s@.len(),
            v@ == s@.subrange(lo as int, i as int),
        decreases hi - i,
    {
        v.push(s[i]);
        i = i + 1;
        assert(v@ == s@.subrange(lo as int, i as int));
    }
    string_of(v.as_slice())
}

/// Appends all of `src` to `dst`.
pub fn push_all(dst: &mut Vec<char>, src: &[char])
    ensures
        final(dst)@ == old(dst)@ + src@,
{
    let ghost start = dst@;
    let mut i: usize = 0;
    while i < src.len()
        invariant
            i <= src.len(),
            dst@ == start + src@.take(i as int),
        decreases src.len() - i,
    {
        dst.push(src[i]);
        i = i + 1;
        assert(src@.take(i as int) == src@.take(i - 1) + seq![src@[i - 1]]);
    }
    assert(src@.take(i as int) == src@);
}

/// Appends the characters of `s` to `dst`.
pub fn push_str(dst: &mut Vec<char>, s: &str)
    ensures
        final(dst)@ == old(dst)@ + s@,
{
    let v = chars_of(s);
    push_all(dst, v.as_slice());
}

// ---------------------------------------------------------------------------
// Character classes.
// ---------------------------------------------------------------------------

/// Unicode `White_Space`, the set that `char::is_whitespace` tests.
pub open spec fn is_ws(c: char) -> bool {
    let u = c as u32;
    ||| 0x09 <= u <= 0x0d
    ||| u == 0x20
    ||| u == 0x85
    ||| u == 0xa0
    ||| u == 0x1680
    ||| 0x2000 <= u <= 0x200a
    ||| u == 0x2028
    ||| u == 0x2029
    ||| u == 0x202f
    ||| u == 0x205f
    ||| u == 0x3000
}

/// `char::is_whitespace`.
pub fn is_whitespace(c: char) -> (r: bool)
    ensures
        r == is_ws(c),
{
    let u = c as u32;
    (0x09 <= u && u <= 0x0d) || u == 0x20 || u == 0x85 || u == 0xa0 || u == 0x1680 || (0x2000
        <= u && u <= 0x200a) || u == 0x2028 || u == 0x2029 || u == 0x202f || u == 0x205f || u
        == 0x3000
}

pub open spec fn is_digit(c: char) -> bool {
    '0' <= c <= '9'
}

pub open spec fn is_ascii_alpha(c: char) -> bool {
    ('a' <= c <= 'z') || ('A' <= c <= 'Z')
}

/// The value of an ASCII digit.
pub open spec fn digit_value(c: char) -> nat {
    (c as u32 - '0' as u32) as nat
}

/// The character of a digit below sixteen, lower case past nine.
pub open spec fn digit_char(d: nat) -> char {
    if d < 10 {
        (d + 48) as char
    } else {
        (d + 87) as char
    }
}

// ---------------------------------------------------------------------------
// Trimming.
// ---------------------------------------------------------------------------

/// `str::trim_start`: leading whitespace removed.
pub open spec fn trim_start(s: Seq<char>) -> Seq<char>
    decreases s.len(),
{
    if s.len() > 0 && is_ws(s[0]) {
        trim_start(s.drop_first())
    } else {
        s
    }
}

/// `str::trim_end`: trailing whitespace removed.
pub open spec fn trim_end(s: Seq<char>) -> Seq<char>
    decreases s.len(),
{
    if s.len() > 0 && is_ws(s.last()) {
        trim_end(s.drop_last())
    } else {
        s
    }
}

/// `str::trim`.
pub open spec fn trim(s: Seq<char>) -> Seq<char> {
    trim_end(trim_start(s))
}

/// `str::trim_start_matches(c)` for one character `c`.
pub open spec fn strip_leading(s: Seq<char>, c: char) -> Seq<char>
    decreases s.len(),
{
    if s.len() > 0 && s[0] == c {
        strip_leading(s.drop_first(), c)
    } else {
        s
    }
}

/// `str::trim_end_matches(c)` for one character `c`.
pub open spec fn strip_trailing(s: Seq<char>, c: char) -> Seq<char>
    decreases s.len(),
{
    if s.len() > 0 && s.last() == c {
        strip_trailing(s.drop_last(), c)
    } else {
        s
    }
}

/// Removing trailing `c`s leaves a prefix that does not end in `c`.
pub proof fn lemma_strip_trailing(s: Seq<char>, c: char)
    ensures
        strip_trailing(s, c).len() <= s.len(),
        strip_trailing(s, c) == s.take(strip_trailing(s, c).len() as int),
        strip_trailing(s, c).len() > 0 ==> strip_trailing(s, c).last() != c,
    decreases s.len(),
{
    if s.len() > 0 && s.last() == c {
        lemma_strip_trailing(s.drop_last(), c);
        let k = strip_trailing(s, c).len() as int;
        assert(s.drop_last().take(k) == s.take(k));
    } else {
        assert(s.take(s.len() as int) == s);
    }
}

/// `str::trim_start_matches(['v', 'V'])`.
pub open spec fn strip_leading_v(s: Seq<char>) -> Seq<char>
    decreases s.len(),
{
    if s.len() > 0 && (s[0] == 'v' || s[0] == 'V') {
        strip_leading_v(s.drop_first())
    } else {
        s
    }
}

/// The bounds, within `s[lo..hi]`, of that range with leading whitespace removed.
pub fn trim_start_from(s: &[char], lo: usize, hi: usize) -> (a: usize)
    requires
        lo <= hi <= s@.len(),
    ensures
        lo <= a <= hi,
        s@.subrange(a as int, hi as int) == trim_start(s@.subrange(lo as int, hi as int)),
{
    let mut i = lo;
    while i < hi && is_whitespace(s[i])
        invariant
            lo <= i <= hi <= s@.len(),
            trim_start(s@.subrange(lo as int, hi as int)) == trim_start(
                s@.subrange(i as int, hi as int),
            ),
        decreases hi - i,
    {
        assert(s@.subrange(i as int, hi as int).drop_first() == s@.subrange(i + 1, hi as int));
        i = i + 1;
    }
    i
}

/// The end bound of `s[lo..hi]` with trailing whitespace removed.
pub fn trim_end_from(s: &[char], lo: usize, hi: usize) -> (b: usize)
    requires
        lo <= hi <= s@.len(),
    ensures
        lo <= b <= hi,
        s@.subrange(lo as int, b as int) == trim_end(s@.subrange(lo as int, hi as int)),
{
    let mut j = hi;
    while j > lo && is_whitespace(s[j - 1])
        invariant
            lo <= j <= hi <= s@.len(),
            trim_end(s@.subrange(lo as int, hi as int)) == trim_end(
                s@.subrange(lo as int, j as int),
            ),
        decreases j - lo,
    {
        assert(s@.subrange(lo as int, j as int).drop_last() == s@.subrange(lo as int, j - 1));
        j = j - 1;
    }
    j
}

/// Bounds of `trim(s[lo..hi])` inside `s`.
pub fn trim_range(s: &[char], lo: usize, hi: usize) -> (r: (usize, usize))
    requires
        lo <= hi <= s@.len(),
    ensures
        lo <= r.0 <= r.1 <= hi,
        s@.subrange(r.0 as int, r.1 as int) == trim(s@.subrange(lo as int, hi as int)),
{
    let a = trim_start_from(s, lo, hi);
    let b = trim_end_from(s, a, hi);
    (a, b)
}

/// The start bound of `s[lo..hi]` with every leading `c` removed.
pub fn strip_leading_from(s: &[char], lo: usize, hi: usize, c: char) -> (a: usize)
    requires
        lo <= hi <= s@.len(),
    ensures
        lo <= a <= hi,
        s@.subrange(a as int, hi as int) == strip_leading(s@.subrange(lo as int, hi as int), c),
{
    let mut i = lo;
    while i < hi && s[i] == c
        invariant
            lo <= i <= hi <= s@.len(),
            strip_leading(s@.subrange(lo as int, hi as int), c) == strip_leading(
                s@.subrange(i as int, hi as int),
                c,
            ),
        decreases hi - i,
    {
        assert(s@.subrange(i as int, hi as int).drop_first() == s@.subrange(i + 1, hi as int));
        i = i + 1;
    }
    i
}

/// The start bound of `s[lo..hi]` with every leading `v` or `V` removed.
pub fn strip_leading_v_from(s: &[char], lo: usize, hi: usize) -> (a: usize)
    requires
        lo <= hi <= s@.len(),
    ensures
        lo <= a <= hi,
        s@.subrange(a as int, hi as int) == strip_leading_v(s@.subrange(lo as int, hi as int)),
{
    let mut i = lo;
    while i < hi && (s[i] == 'v' || s[i] == 'V')
        invariant
            lo <= i <= hi <= s@.len(),
            strip_leading_v(s@.subrange(lo as int, hi as int)) == strip_leading_v(
                s@.subrange(i as int, hi as int),
            ),
        decreases hi - i,
    {
        assert(s@.subrange(i as int, hi as int).drop_first() == s@.subrange(i + 1, hi as int));
        i = i + 1;
    }
    i
}

/// The end bound of `s[lo..hi]` with every trailing `c` removed.
pub fn strip_trailing_from(s: &[char], lo: usize, hi: usize, c: char) -> (b: usize)
    requires
        lo <= hi <= s@.len(),
    ensures
        lo <= b <= hi,
        s@.subrange(lo as int, b as int) == strip_trailing(s@.subrange(lo as int, hi as int), c),
{
    let mut j = hi;
    while j > lo && s[j - 1] == c
        invariant
            lo <= j <= hi <= s@.len(),
            strip_trailing(s@.subrange(lo as int, hi as int), c) == strip_trailing(
                s@.subrange(lo as int, j as int),
                c,
            ),
        decreases j - lo,
    {
        assert(s@.subrange(lo as int, j as int).drop_last() == s@.subrange(lo as int, j - 1));
        j = j - 1;
    }
    j
}

/// Whether `s` is empty once trimmed (`s.trim().is_empty()`).
pub fn is_blank(s: &str) -> (r: bool)
    ensures
        r == (trim(s@).len() == 0),
{
    let v = chars_of(s);
    let (a, b) = trim_range(v.as_slice(), 0, v.len());
    assert(v@.subrange(0, v@.len() as int) == v@);
    a == b
}


// ---------------------------------------------------------------------------
// Searching.
// ---------------------------------------------------------------------------

/// The index of the first `c` in `s`, or `s.len()` when there is none.
pub open spec fn first_index(s: Seq<char>, c: char) -> nat
    decreases s.len(),
{
    if s.len() == 0 {
        0
    } else if s[0] == c {
        0
    } else {
        1 + first_index(s.drop_first(), c)
    }
}

/// `first_index` is a position within `s`, holds `c` when below the length,
/// and nothing before it is `c`.
pub proof fn lemma_first_index(s: Seq<char>, c: char)
    ensures
        first_index(s, c) <= s.len(),
        first_index(s, c) < s.len() ==> s[first_index(s, c) as int] == c,
        forall|j: int| 0 <= j < first_index(s, c) ==> s[j] != c,
    decreases s.len(),
{
    if s.len() > 0 && s[0] != c {
        lemma_first_index(s.drop_first(), c);
        assert forall|j: int| 0 <= j < first_index(s, c) implies s[j] != c by {
            if j > 0 {
                assert(s[j] == s.drop_first()[j - 1]);
            }
        }
    }
}

/// The index of the first `c` in `s[lo..hi]`, or `hi` when there is none.
pub fn find_char(s: &[char], lo: usize, hi: usize, c: char) -> (r: usize)
    requires
        lo <= hi <= s@.len(),
    ensures
        lo <= r <= hi,
        r - lo == first_index(s@.subrange(lo as int, hi as int), c),
{
    let mut i = lo;
    while i < hi && s[i] != c
        invariant
            lo <= i <= hi <= s@.len(),
            first_index(s@.subrange(lo as int, hi as int), c) == (i - lo) + first_index(
                s@.subrange(i as int, hi as int),
                c,
            ),
        decreases hi - i,
    {
        assert(s@.subrange(i as int, hi as int).drop_first() == s@.subrange(i + 1, hi as int));
        i = i + 1;
    }
    i
}

/// The number of ASCII digits at the start of `s`.
pub open spec fn leading_digits(s: Seq<char>) -> nat
    decreases s.len(),
{
    if s.len() > 0 && is_digit(s[0]) {
        1 + leading_digits(s.drop_first())
    } else {
        0
    }
}

/// The end of the run of ASCII digits that starts `s[lo..hi]`.
pub fn digits_end(s: &[char], lo: usize, hi: usize) -> (r: usize)
    requires
        lo <= hi <= s@.len(),
    ensures
        lo <= r <= hi,
        r - lo == leading_digits(s@.subrange(lo as int, hi as int)),
{
    let mut i = lo;
    while i < hi && '0' <= s[i] && s[i] <= '9'
        invariant
            lo <= i <= hi <= s@.len(),
            leading_digits(s@.subrange(lo as int, hi as int)) == (i - lo) + leading_digits(
                s@.subrange(i as int, hi as int),
            ),
        decreases hi - i,
    {
        assert(s@.subrange(i as int, hi as int).drop_first() == s@.subrange(i + 1, hi as int));
        i = i + 1;
    }
    i
}

/// Whether `a[alo..ahi]` and `b[blo..bhi]` hold the same characters.
pub fn range_eq(a: &[char], alo: usize, ahi: usize, b: &[char], blo: usize, bhi: usize) -> (r:
    bool)
    requires
        alo <= ahi <= a@.len(),
        blo <= bhi <= b@.len(),
    ensures
        r == (a@.subrange(alo as int, ahi as int) == b@.subrange(blo as int, bhi as int)),
{
    if ahi - alo != bhi - blo {
        assert(a@.subrange(alo as int, ahi as int).len() != b@.subrange(blo as int, bhi as int).len());
        return false;
    }
    let n = ahi - alo;
    let ghost sa = a@.subrange(alo as int, ahi as int);
    let ghost sb = b@.subrange(blo as int, bhi as int);
    let mut k: usize = 0;
    while k < n
        invariant
            n == ahi - alo == bhi - blo,
            alo <= ahi <= a@.len(),
            blo <= bhi <= b@.len(),
            sa == a@.subrange(alo as int, ahi as int),
            sb == b@.subrange(blo as int, bhi as int),
            k <= n,
            forall|j: int| 0 <= j < k ==> #[trigger] sa[j] == sb[j],
        decreases n - k,
    {
        assert(sa[k as int] == a@[alo + k]);
        assert(sb[k as int] == b@[blo + k]);
        if a[alo + k] != b[blo + k] {
            return false;
        }
        k = k + 1;
    }
    assert(sa =~= sb);
    true
}

/// Whether two strings hold the same characters.
pub fn str_eq(a: &str, b: &str) -> (r: bool)
    ensures
        r == (a@ == b@),
{
    let x = chars_of(a);
    let y = chars_of(b);
    assert(x@.subrange(0, x@.len() as int) == x@);
    assert(y@.subrange(0, y@.len() as int) == y@);
    range_eq(x.as_slice(), 0, x.len(), y.as_slice(), 0, y.len())
}

/// The first position at or after `i` where `pat` occurs in `s`.
pub open spec fn find_from(s: Seq<char>, pat: Seq<char>, i: int) -> Option<int>
    decreases s.len() + 1 - i,
{
    if i < 0 || i + pat.len() > s.len() {
        None
    } else if s.subrange(i, i + pat.len()) == pat {
        Some(i)
    } else {
        find_from(s, pat, i + 1)
    }
}

/// A match that `find_from` reports is a real one, at or after `i`, and
/// the first there.
pub proof fn lemma_find_from(s: Seq<char>, pat: Seq<char>, i: int)
    ensures
        find_from(s, pat, i) matches Some(k) ==> {
            &&& i <= k
            &&& k + pat.len() <= s.len()
            &&& s.subrange(k, k + pat.len()) == pat
            &&& forall|j: int|
                i <= j < k ==> #[trigger] s.subrange(j, j + pat.len()) != pat
        },
        find_from(s, pat, i) is None && 0 <= i ==> forall|j: int|
            i <= j && j + pat.len() <= s.len() ==> #[trigger] s.subrange(j, j + pat.len()) != pat,
    decreases s.len() + 1 - i,
{
    if i < 0 || i + pat.len() > s.len() {
    } else if s.subrange(i, i + pat.len()) == pat {
    } else {
        lemma_find_from(s, pat, i + 1);
    }
}

/// `str::find` with a string pattern, counted in characters.
pub open spec fn find_sub(s: Seq<char>, pat: Seq<char>) -> Option<int> {
    find_from(s, pat, 0)
}

/// `str::contains` with a string pattern.
pub open spec fn contains_sub(s: Seq<char>, pat: Seq<char>) -> bool {
    find_sub(s, pat) is Some
}

/// `str::starts_with` with a string pattern.
pub open spec fn starts_with(s: Seq<char>, pat: Seq<char>) -> bool {
    pat.len() <= s.len() && s.take(pat.len() as int) == pat
}

/// The first occurrence of `pat` in `s`.
pub fn find_in(s: &[char], pat: &[char]) -> (r: Option<usize>)
    ensures
        match r {
            Some(i) => find_sub(s@, pat@) == Some(i as int) && i + pat@.len() <= s@.len(),
            None => find_sub(s@, pat@) is None,
        },
{
    proof {
        lemma_find_from(s@, pat@, 0);
    }
    let n = s.len();
    let m = pat.len();
    if m > n {
        return None;
    }
    if m == 0 {
        assert(s@.subrange(0, 0) == pat@);
        return Some(0);
    }
    let mut i: usize = 0;
    assert(pat@.subrange(0, m as int) == pat@);
    while i <= n - m
        invariant
            0 < m <= n == s@.len(),
            m == pat@.len(),
            pat@.subrange(0, m as int) == pat@,
            i <= n - m + 1,
            find_from(s@, pat@, 0) == find_from(s@, pat@, i as int),
        decreases n - m + 1 - i,
    {
        if range_eq(s, i, i + m, pat, 0, m) {
            return Some(i);
        }
        i = i + 1;
    }
    None
}

/// Whether `pat` occurs in `s`.
pub fn contains_in(s: &[char], pat: &str) -> (r: bool)
    ensures
        r == contains_sub(s@, pat@),
{
    let p = chars_of(pat);
    find_in(s, p.as_slice()).is_some()
}

/// Whether `s` starts with `pat`.
pub fn starts_with_in(s: &[char], lo: usize, hi: usize, pat: &str) -> (r: bool)
    requires
        lo <= hi <= s@.len(),
    ensures
        r == starts_with(s@.subrange(lo as int, hi as int), pat@),
{
    let p = chars_of(pat);
    let m = p.len();
    if m > hi - lo {
        return false;
    }
    assert(s@.subrange(lo as int, hi as int).take(m as int) == s@.subrange(lo as int, lo + m));
    assert(p@.subrange(0, m as int) == p@);
    range_eq(s, lo, lo + m, p.as_slice(), 0, m)
}

// ---------------------------------------------------------------------------
// Lines and words.
// ---------------------------------------------------------------------------

/// A line as `str::lines` yields it: one `\r` before its `\n` dropped.
pub open spec fn line_at(s: Seq<char>, i: int, e: int) -> Seq<char> {
    if e < s.len() && e > i && s[e - 1] == '\r' {
        s.subrange(i, e - 1)
    } else {
        s.subrange(i, e)
    }
}

/// The lines of `s` from position `i` on.
pub open spec fn lines_from(s: Seq<char>, i: int) -> Seq<Seq<char>>
    decreases s.len() - i,
{
    if i < 0 || i >= s.len() {
        Seq::empty()
    } else {
        let e = i + first_index(s.skip(i), '\n');
        if e >= s.len() {
            seq![line_at(s, i, e)]
        } else {
            seq![line_at(s, i, e)] + lines_from(s, e + 1)
        }
    }
}

/// `str::lines`: the text split at `\n` (and `\r\n`), with no empty last
/// line after a final newline.
pub open spec fn lines(s: Seq<char>) -> Seq<Seq<char>> {
    lines_from(s, 0)
}

/// Where the line that starts at `i` ends: the bounds of its text, and the
/// start of the next line.
pub fn line_bounds(s: &[char], i: usize) -> (r: (usize, usize))
    requires
        i < s@.len(),
    ensures
        ({
            let e = i + first_index(s@.skip(i as int), '\n');
            &&& i <= r.0 <= s@.len()
            &&& s@.subrange(i as int, r.0 as int) == line_at(s@, i as int, e)
            &&& (e >= s@.len() ==> r.1 == s@.len())
            &&& (e < s@.len() ==> r.1 == e + 1)
            &&& i < r.1 <= s@.len()
        }),
{
    let n = s.len();
    let e = find_char(s, i, n, '\n');
    assert(s@.skip(i as int) == s@.subrange(i as int, n as int));
    if e < n {
        if e > i && s[e - 1] == '\r' {
            (e - 1, e + 1)
        } else {
            (e, e + 1)
        }
    } else {
        (e, n)
    }
}

/// The whitespace-separated words of `s` from position `i`, with `cur` the
/// part of a word already read.
pub open spec fn words_from(s: Seq<char>, i: int, cur: Seq<char>) -> Seq<Seq<char>>
    decreases s.len() - i,
{
    if i < 0 || i >= s.len() {
        if cur.len() > 0 {
            seq![cur]
        } else {
            Seq::empty()
        }
    } else if is_ws(s[i]) {
        (if cur.len() > 0 {
            seq![cur]
        } else {
            Seq::empty()
        }) + words_from(s, i + 1, Seq::empty())
    } else {
        words_from(s, i + 1, cur.push(s[i]))
    }
}

/// `str::split_whitespace`.
pub open spec fn words(s: Seq<char>) -> Seq<Seq<char>> {
    words_from(s, 0, Seq::empty())
}

/// The views of a sequence of strings.
pub open spec fn views(v: Seq<String>) -> Seq<Seq<char>> {
    v.map_values(|x: String| x@)
}

/// The views of a list of string pairs.
pub open spec fn pairs_view(v: Seq<(String, String)>) -> Seq<(Seq<char>, Seq<char>)> {
    v.map_values(|p: (String, String)| (p.0@, p.1@))
}

/// The view of an optional string.
pub open spec fn opt_view(o: Option<String>) -> Option<Seq<char>> {
    match o {
        Some(s) => Some(s@),
        None => None,
    }
}

/// A copy of a string.
pub fn copy_string(s: &String) -> (r: String)
    ensures
        r@ == s@,
{
    s.clone()
}

/// A copy of an optional string.
pub fn copy_opt(o: &Option<String>) -> (r: Option<String>)
    ensures
        opt_view(r) == opt_view(*o),
{
    match o {
        Some(s) => Some(s.clone()),
        None => None,
    }
}

/// A copy of a list of strings.
pub fn copy_strings(v: &Vec<String>) -> (r: Vec<String>)
    ensures
        views(r@) == views(v@),
{
    let mut out: Vec<String> = Vec::new();
    let mut i: usize = 0;
    while i < v.len()
        invariant
            i <= v@.len(),
            views(out@) == views(v@).take(i as int),
        decreases v.len() - i,
    {
        let ghost before = out@;
        out.push(v[i].clone());
        assert(views(out@) == views(before) + seq![v@[i as int]@]);
        i = i + 1;
        assert(views(v@).take(i as int) == views(v@).take(i - 1) + seq![views(v@)[i - 1]]);
    }
    assert(views(v@).take(i as int) == views(v@));
    out
}

/// A copy of a list of string pairs.
pub fn copy_pairs(v: &Vec<(String, String)>) -> (r: Vec<(String, String)>)
    ensures
        pairs_view(r@) == pairs_view(v@),
{
    let mut out: Vec<(String, String)> = Vec::new();
    let mut i: usize = 0;
    while i < v.len()
        invariant
            i <= v@.len(),
            pairs_view(out@) == pairs_view(v@).take(i as int),
        decreases v.len() - i,
    {
        let ghost before = out@;
        out.push((v[i].0.clone(), v[i].1.clone()));
        assert(pairs_view(out@) == pairs_view(before) + seq![(v@[i as int].0@, v@[i as int].1@)]);
        i = i + 1;
        assert(pairs_view(v@).take(i as int) == pairs_view(v@).take(i - 1) + seq![
            pairs_view(v@)[i - 1],
        ]);
    }
    assert(pairs_view(v@).take(i as int) == pairs_view(v@));
    out
}

/// Whether `v` holds a string equal to `s`.
pub fn contains_string(v: &Vec<String>, s: &str) -> (r: bool)
    ensures
        r == views(v@).contains(s@),
{
    let sc = chars_of(s);
    let mut i: usize = 0;
    while i < v.len()
        invariant
            i <= v@.len(),
            sc@ == s@,
            forall|j: int| 0 <= j < i ==> #[trigger] v@[j]@ != s@,
        decreases v.len() - i,
    {
        let e = chars_of(v[i].as_str());
        if range_eq(e.as_slice(), 0, e.len(), sc.as_slice(), 0, sc.len()) {
            assert(e@.subrange(0, e@.len() as int) == e@);
            assert(sc@.subrange(0, sc@.len() as int) == sc@);
            assert(views(v@)[i as int] == s@);
            return true;
        }
        assert(e@.subrange(0, e@.len() as int) == e@);
        assert(sc@.subrange(0, sc@.len() as int) == sc@);
        i = i + 1;
    }
    assert forall|j: int| 0 <= j < views(v@).len() implies views(v@)[j] != s@ by {
        assert(views(v@)[j] == v@[j]@);
    }
    false
}

// ---------------------------------------------------------------------------
// Ordering of strings.
// ---------------------------------------------------------------------------

/// The order of `String`: lexicographic by character (which is the order
/// of their UTF-8 bytes).
pub open spec fn str_lt(a: Seq<char>, b: Seq<char>) -> bool
    decreases a.len(),
{
    if a.len() == 0 {
        b.len() > 0
    } else if b.len() == 0 {
        false
    } else if a[0] != b[0] {
        a[0] < b[0]
    } else {
        str_lt(a.drop_first(), b.drop_first())
    }
}

/// `a <= b` for strings.
pub open spec fn str_le(a: Seq<char>, b: Seq<char>) -> bool {
    a == b || str_lt(a, b)
}

/// Whether a list of strings is in ascending order.
pub open spec fn sorted(s: Seq<Seq<char>>) -> bool {
    forall|i: int, j: int| 0 <= i < j < s.len() ==> str_le(#[trigger] s[i], #[trigger] s[j])
}

/// No string is below itself, and of two strings at most one is below the other.
pub proof fn lemma_str_lt_asym(a: Seq<char>, b: Seq<char>)
    ensures
        !str_lt(a, a),
        str_lt(a, b) ==> !str_lt(b, a),
    decreases a.len(),
{
    if a.len() > 0 && b.len() > 0 {
        lemma_str_lt_asym(a.drop_first(), b.drop_first());
    }
    if a.len() > 0 {
        lemma_str_lt_asym(a.drop_first(), a.drop_first());
    }
}

/// Two different strings are ordered one way or the other.
pub proof fn lemma_str_lt_total(a: Seq<char>, b: Seq<char>)
    ensures
        a == b || str_lt(a, b) || str_lt(b, a),
    decreases a.len(),
{
    if a.len() > 0 && b.len() > 0 {
        lemma_str_lt_total(a.drop_first(), b.drop_first());
        if a[0] == b[0] && a.drop_first() == b.drop_first() {
            assert(a == seq![a[0]] + a.drop_first());
            assert(b == seq![b[0]] + b.drop_first());
        }
    } else if a.len() == 0 && b.len() == 0 {
        assert(a == b);
    }
}

/// The order on strings is transitive.
pub proof fn lemma_str_lt_trans(a: Seq<char>, b: Seq<char>, c: Seq<char>)
    requires
        str_lt(a, b),
        str_lt(b, c),
    ensures
        str_lt(a, c),
    decreases a.len(),
{
    if a.len() > 0 && b.len() > 0 && c.len() > 0 && a[0] == b[0] && b[0] == c[0] {
        lemma_str_lt_trans(a.drop_first(), b.drop_first(), c.drop_first());
    }
}

/// Whether the string `a` is below `b`.
pub fn str_less(a: &str, b: &str) -> (r: bool)
    ensures
        r == str_lt(a@, b@),
{
    let x = chars_of(a);
    let y = chars_of(b);
    let mut i: usize = 0;
    assert(x@.skip(0) == x@);
    assert(y@.skip(0) == y@);
    while i < x.len() && i < y.len() && x[i] == y[i]
        invariant
            i <= x@.len(),
            i <= y@.len(),
            x@ == a@,
            y@ == b@,
            str_lt(a@, b@) == str_lt(x@.skip(i as int), y@.skip(i as int)),
        decreases x.len() - i,
    {
        assert(x@.skip(i as int).drop_first() == x@.skip(i + 1));
        assert(y@.skip(i as int).drop_first() == y@.skip(i + 1));
        i = i + 1;
    }
    if i == x.len() {
        i < y.len()
    } else if i == y.len() {
        false
    } else {
        assert(x@.skip(i as int)[0] == x@[i as int]);
        assert(y@.skip(i as int)[0] == y@[i as int]);
        x[i] < y[i]
    }
}

/// Inserting `x` in a sorted list before its first greater element keeps
/// it sorted.
proof fn lemma_insert_sorted(s: Seq<Seq<char>>, k: int, x: Seq<char>)
    requires
        sorted(s),
        0 <= k <= s.len(),
        forall|j: int| 0 <= j < k ==> !str_lt(x, #[trigger] s[j]),
        k < s.len() ==> str_lt(x, s[k]),
    ensures
        sorted(s.insert(k, x)),
{
    let t = s.insert(k, x);
    assert forall|i: int, j: int|
        0 <= i < j < t.len() implies str_le(#[trigger] t[i], #[trigger] t[j]) by {
        if j < k {
            assert(t[i] == s[i] && t[j] == s[j]);
        } else if j == k {
            assert(t[i] == s[i]);
            lemma_str_lt_total(s[i], x);
        } else if i == k {
            assert(t[j] == s[j - 1]);
            assert(str_le(s[k], s[j - 1]));
            if str_lt(s[k], s[j - 1]) {
                lemma_str_lt_trans(x, s[k], s[j - 1]);
            }
        } else if i < k {
            assert(t[i] == s[i] && t[j] == s[j - 1]);
        } else {
            assert(t[i] == s[i - 1] && t[j] == s[j - 1]);
        }
    }
}

/// `v` in ascending order (`Vec::sort` on strings).
pub fn sort_strings(v: Vec<String>) -> (r: Vec<String>)
    ensures
        sorted(views(r@)),
        views(r@).to_multiset() == views(v@).to_multiset(),
{
    broadcast use vstd::seq_lib::group_to_multiset_ensures;
    let mut out: Vec<String> = Vec::new();
    let mut i: usize = 0;
    while i < v.len()
        invariant
            i <= v@.len(),
            sorted(views(out@)),
            views(out@).to_multiset() == views(v@).take(i as int).to_multiset(),
        decreases v.len() - i,
    {
        let x = v[i].clone();
        let mut k: usize = 0;
        while k < out.len() && !str_less(x.as_str(), out[k].as_str())
            invariant
                k <= out@.len(),
                forall|j: int| 0 <= j < k ==> !str_lt(x@, #[trigger] views(out@)[j]),
            decreases out.len() - k,
        {
            k = k + 1;
        }
        let ghost before = views(out@);
        proof {
            lemma_insert_sorted(before, k as int, x@);
        }
        out.insert(k, x);
        assert(views(out@) == before.insert(k as int, v@[i as int]@));
        proof {
            vstd::seq_lib::to_multiset_insert(before, k as int, v@[i as int]@);
            assert(views(v@).take(i + 1) == views(v@).take(i as int).push(views(v@)[i as int]));
            vstd::seq_lib::to_multiset_build(views(v@).take(i as int), v@[i as int]@);
            assert(views(v@)[i as int] == v@[i as int]@);
        }
        i = i + 1;
    }
    assert(views(v@).take(i as int) == views(v@));
    out
}

/// Appends the whitespace-separated words of `s` to `out`.
pub fn push_words(out: &mut Vec<String>, s: &str)
    ensures
        views(final(out)@) == views(old(out)@) + words(s@),
{
    let v = chars_of(s);
    let ghost start = views(out@);
    let mut cur: Vec<char> = Vec::new();
    let mut i: usize = 0;
    while i < v.len()
        invariant
            i <= v@.len(),
            v@ == s@,
            start + words(s@) == views(out@) + words_from(v@, i as int, cur@),
        decreases v.len() - i,
    {
        let c = v[i];
        if is_whitespace(c) {
            if cur.len() > 0 {
                let w = string_of(cur.as_slice());
                let ghost before = out@;
                out.push(w);
                assert(views(out@) == views(before) + seq![cur@]);
            }
            cur = Vec::new();
        } else {
            cur.push(c);
        }
        i = i + 1;
    }
    if cur.len() > 0 {
        let w = string_of(cur.as_slice());
        let ghost before = out@;
        out.push(w);
        assert(views(out@) == views(before) + seq![cur@]);
    }
}

// ---------------------------------------------------------------------------
// Numbers.
// ---------------------------------------------------------------------------

/// Whether every character of `s` is an ASCII digit.
pub open spec fn all_digits(s: Seq<char>) -> bool {
    forall|i: int| 0 <= i < s.len() ==> is_digit(#[trigger] s[i])
}

/// The value of a string of decimal digits.
pub open spec fn digits_value(s: Seq<char>) -> nat
    decreases s.len(),
{
    if s.len() == 0 {
        0
    } else {
        digits_value(s.drop_last()) * 10 + digit_value(s.last())
    }
}

/// `str::parse` for an unsigned integer type whose largest value is `max`:
/// an optional `+`, then one or more ASCII digits, whose value fits.
pub open spec fn parse_uint(s: Seq<char>, max: nat) -> Option<nat> {
    let body = if s.len() > 0 && s[0] == '+' {
        s.drop_first()
    } else {
        s
    };
    if body.len() > 0 && all_digits(body) && digits_value(body) <= max {
        Some(digits_value(body))
    } else {
        None
    }
}

/// A longer digit string is worth at least as much as its prefix.
pub proof fn lemma_digits_value_prefix(s: Seq<char>, k: int)
    requires
        0 <= k <= s.len(),
        all_digits(s),
    ensures
        digits_value(s.take(k)) <= digits_value(s),
    decreases s.len() - k,
{
    if k < s.len() {
        lemma_digits_value_prefix(s, k + 1);
        assert(s.take(k + 1).drop_last() == s.take(k));
        assert(is_digit(s[k]));
    } else {
        assert(s.take(k) == s);
    }
}

/// The value of the digit string `s[lo..hi]`, when it is one and fits in a `u64`.
fn parse_digits_u64(s: &[char], lo: usize, hi: usize) -> (r: Option<u64>)
    requires
        lo <= hi <= s@.len(),
    ensures
        ({
            let body = s@.subrange(lo as int, hi as int);
            match r {
                Some(v) => all_digits(body) && digits_value(body) == v as nat,
                None => !all_digits(body) || digits_value(body) > u64::MAX,
            }
        }),
{
    let ghost body = s@.subrange(lo as int, hi as int);
    let mut i = lo;
    let mut v: u64 = 0;
    while i < hi
        invariant
            lo <= i <= hi <= s@.len(),
            body == s@.subrange(lo as int, hi as int),
            all_digits(body.take(i - lo)),
            v as nat == digits_value(body.take(i - lo)),
        decreases hi - i,
    {
        let c = s[i];
        let ghost k: int = i - lo;
        assert(body[k] == c);
        if !('0' <= c && c <= '9') {
            assert(!is_digit(body[k]));
            return None;
        }
        let d = (c as u32 - '0' as u32) as u64;
        assert(body.take(k + 1).drop_last() == body.take(k));
        assert(body.take(k + 1).last() == c);
        assert(digits_value(body.take(k + 1)) == digits_value(body.take(k)) * 10 + d);
        assert forall|j: int| 0 <= j < k + 1 implies is_digit(#[trigger] body.take(k + 1)[j]) by {
            if j < k {
                assert(body.take(k + 1)[j] == body.take(k)[j]);
            }
        }
        match v.checked_mul(10) {
            Some(m) => match m.checked_add(d) {
                Some(n) => {
                    v = n;
                },
                None => {
                    proof {
                        lemma_overflow_is_none(body, k + 1);
                    }
                    return None;
                },
            },
            None => {
                proof {
                    lemma_overflow_is_none(body, k + 1);
                }
                return None;
            },
        }
        i = i + 1;
    }
    assert(body.take(i - lo) == body);
    Some(v)
}

/// `str::parse::<u64>` on `s[lo..hi]`.
pub fn parse_u64_range(s: &[char], lo: usize, hi: usize) -> (r: Option<u64>)
    requires
        lo <= hi <= s@.len(),
    ensures
        r matches Some(v) ==> parse_uint(s@.subrange(lo as int, hi as int), u64::MAX as nat)
            == Some(v as nat),
        r is None ==> parse_uint(s@.subrange(lo as int, hi as int), u64::MAX as nat) is None,
{
    let ghost whole = s@.subrange(lo as int, hi as int);
    let mut i = lo;
    if i < hi && s[i] == '+' {
        i = i + 1;
    }
    assert(s@.subrange(i as int, hi as int) == (if whole.len() > 0 && whole[0] == '+' {
        whole.drop_first()
    } else {
        whole
    }));
    if i == hi {
        return None;
    }
    parse_digits_u64(s, i, hi)
}

/// Once a prefix of the digits overflows `max`, the whole does too (or is no number).
proof fn lemma_overflow_is_none(body: Seq<char>, k: int)
    requires
        0 < k <= body.len(),
        all_digits(body.take(k)),
        digits_value(body.take(k)) > u64::MAX,
    ensures
        !all_digits(body) || digits_value(body) > u64::MAX,
{
    if all_digits(body) {
        lemma_digits_value_prefix(body, k);
    }
}

/// `str::parse::<u32>` on `s[lo..hi]`.
pub fn parse_u32_range(s: &[char], lo: usize, hi: usize) -> (r: Option<u32>)
    requires
        lo <= hi <= s@.len(),
    ensures
        r matches Some(v) ==> parse_uint(s@.subrange(lo as int, hi as int), u32::MAX as nat)
            == Some(v as nat),
        r is None ==> parse_uint(s@.subrange(lo as int, hi as int), u32::MAX as nat) is None,
{
    match parse_u64_range(s, lo, hi) {
        Some(v) => {
            if v <= u32::MAX as u64 {
                Some(v as u32)
            } else {
                None
            }
        },
        None => None,
    }
}

/// The decimal digits of `n`, most significant first, without leading zeros.
pub open spec fn decimal(n: nat) -> Seq<char>
    decreases n,
{
    if n < 10 {
        seq![digit_char(n)]
    } else {
        decimal(n / 10).push(digit_char(n % 10))
    }
}

/// The lower-case hexadecimal digits of `n` (`{:x}`), most significant first.
pub open spec fn hex(n: nat) -> Seq<char>
    decreases n,
{
    if n < 16 {
        seq![digit_char(n)]
    } else {
        hex(n / 16).push(digit_char(n % 16))
    }
}

/// The character of the digit `d`.
pub fn digit_to_char(d: u64) -> (c: char)
    requires
        d < 16,
    ensures
        c == digit_char(d as nat),
{
    if d < 10 {
        ((d as u8) + 48u8) as char
    } else {
        ((d as u8) + 87u8) as char
    }
}

/// Appends the decimal digits of `n`.
pub fn push_decimal(out: &mut Vec<char>, n: u64)
    ensures
        final(out)@ == old(out)@ + decimal(n as nat),
    decreases n,
{
    if n >= 10 {
        push_decimal(out, n / 10);
    }
    let c = digit_to_char(n % 10);
    out.push(c);
}

/// Appends the lower-case hexadecimal digits of `n`.
pub fn push_hex(out: &mut Vec<char>, n: u64)
    ensures
        final(out)@ == old(out)@ + hex(n as nat),
    decreases n,
{
    if n >= 16 {
        push_hex(out, n / 16);
    }
    let c = digit_to_char(n % 16);
    out.push(c);
}

/// `n.to_string()` for an unsigned integer.
pub fn decimal_string(n: u64) -> (r: String)
    ensures
        r@ == decimal(n as nat),
{
    let mut v: Vec<char> = Vec::new();
    push_decimal(&mut v, n);
    string_of(v.as_slice())
}

// ---------------------------------------------------------------------------
// Maps keyed by strings, held as lists of pairs in ascending key order.
// ---------------------------------------------------------------------------

/// Whether the keys of `s` ascend strictly, so that no key occurs twice.
pub open spec fn keys_sorted<V>(s: Seq<(Seq<char>, V)>) -> bool {
    forall|i: int, j: int| 0 <= i < j < s.len() ==> str_lt(#[trigger] s[i].0, #[trigger] s[j].0)
}

/// Whether no key occurs twice in `s`.
pub open spec fn keys_unique<V>(s: Seq<(Seq<char>, V)>) -> bool {
    forall|i: int, j: int| 0 <= i < j < s.len() ==> #[trigger] s[i].0 != #[trigger] s[j].0
}

/// The number of leading pairs of `s` whose key is below `k`: in a map in
/// key order, where `k` belongs.
pub open spec fn lower_bound<V>(s: Seq<(Seq<char>, V)>, k: Seq<char>) -> nat
    decreases s.len(),
{
    if s.len() == 0 || !str_lt(s[0].0, k) {
        0
    } else {
        1 + lower_bound(s.drop_first(), k)
    }
}

/// The map `s` with `k` set to `v`: the pair of key `k` replaced, or a new
/// pair put where the key order places it (`BTreeMap::insert`).
pub open spec fn map_put<V>(s: Seq<(Seq<char>, V)>, k: Seq<char>, v: V) -> Seq<(Seq<char>, V)> {
    let p = lower_bound(s, k) as int;
    if p < s.len() && s[p].0 == k {
        s.update(p, (k, v))
    } else {
        s.insert(p, (k, v))
    }
}

/// The map made by setting the pairs of `s` one after the other, so that
/// of two pairs with one key the later one wins.
pub open spec fn map_of<V>(s: Seq<(Seq<char>, V)>) -> Seq<(Seq<char>, V)>
    decreases s.len(),
{
    if s.len() == 0 {
        Seq::empty()
    } else {
        map_put(map_of(s.drop_last()), s.last().0, s.last().1)
    }
}

/// Keys in strictly ascending order occur once each.
pub proof fn lemma_sorted_keys_unique<V>(s: Seq<(Seq<char>, V)>)
    requires
        keys_sorted(s),
    ensures
        keys_unique(s),
{
    assert forall|i: int, j: int| 0 <= i < j < s.len() implies #[trigger] s[i].0
        != #[trigger] s[j].0 by {
        lemma_str_lt_asym(s[i].0, s[j].0);
    }
}

/// `lower_bound` counts the keys below `k` before the first one that is not.
proof fn lemma_lower_bound<V>(s: Seq<(Seq<char>, V)>, k: Seq<char>)
    ensures
        lower_bound(s, k) <= s.len(),
        forall|j: int| 0 <= j < lower_bound(s, k) ==> str_lt(#[trigger] s[j].0, k),
        lower_bound(s, k) < s.len() ==> !str_lt(s[lower_bound(s, k) as int].0, k),
    decreases s.len(),
{
    if s.len() > 0 && str_lt(s[0].0, k) {
        lemma_lower_bound(s.drop_first(), k);
        assert forall|j: int| 0 <= j < lower_bound(s, k) implies str_lt(#[trigger] s[j].0, k) by {
            if j > 0 {
                assert(s[j] == s.drop_first()[j - 1]);
            }
        }
    }
}

/// Setting a key keeps the keys in strictly ascending order.
pub proof fn lemma_map_put_sorted<V>(s: Seq<(Seq<char>, V)>, k: Seq<char>, v: V)
    requires
        keys_sorted(s),
    ensures
        keys_sorted(map_put(s, k, v)),
{
    lemma_lower_bound(s, k);
    let p = lower_bound(s, k) as int;
    let t = map_put(s, k, v);
    if p < s.len() && s[p].0 == k {
        assert forall|i: int| 0 <= i < t.len() implies #[trigger] t[i].0 == s[i].0 by {}
        assert forall|i: int, j: int| 0 <= i < j < t.len() implies str_lt(
            #[trigger] t[i].0,
            #[trigger] t[j].0,
        ) by {
            assert(t[i].0 == s[i].0);
            assert(t[j].0 == s[j].0);
        }
    } else {
        if p < s.len() {
            lemma_str_lt_total(s[p].0, k);
        }
        assert forall|i: int, j: int| 0 <= i < j < t.len() implies str_lt(
            #[trigger] t[i].0,
            #[trigger] t[j].0,
        ) by {
            if j < p {
                assert(t[i] == s[i] && t[j] == s[j]);
            } else if j == p {
                assert(t[i] == s[i]);
            } else if i > p {
                assert(t[i] == s[i - 1] && t[j] == s[j - 1]);
            } else if i == p {
                assert(t[j] == s[j - 1]);
                if j - 1 > p {
                    lemma_str_lt_trans(k, s[p].0, s[j - 1].0);
                }
            } else {
                assert(t[i] == s[i] && t[j] == s[j - 1]);
                assert(str_lt(s[i].0, s[p].0));
                if j - 1 > p {
                    lemma_str_lt_trans(s[i].0, s[p].0, s[j - 1].0);
                }
            }
        }
    }
}

/// A map built by `map_of` has its keys in strictly ascending order.
pub proof fn lemma_map_of_sorted<V>(s: Seq<(Seq<char>, V)>)
    ensures
        keys_sorted(map_of(s)),
    decreases s.len(),
{
    if s.len() > 0 {
        lemma_map_of_sorted(s.drop_last());
        lemma_map_put_sorted(map_of(s.drop_last()), s.last().0, s.last().1);
    }
}

/// Sets `k` to `v` in the map `m`, which holds its keys in ascending order.
pub fn map_put_string(m: &mut Vec<(String, String)>, k: String, v: String)
    ensures
        pairs_view(final(m)@) == map_put(pairs_view(old(m)@), k@, v@),
{
    let ghost s = pairs_view(m@);
    let mut i: usize = 0;
    assert(s.skip(0) == s);
    while i < m.len() && str_less(m[i].0.as_str(), k.as_str())
        invariant
            i <= m@.len(),
            s == pairs_view(m@),
            lower_bound(s, k@) == i + lower_bound(s.skip(i as int), k@),
        decreases m.len() - i,
    {
        assert(s.skip(i as int)[0] == s[i as int]);
        assert(s.skip(i as int).drop_first() == s.skip(i + 1));
        i = i + 1;
    }
    if i < m.len() {
        assert(s.skip(i as int)[0] == s[i as int]);
    }
    assert(lower_bound(s, k@) == i);
    let ghost kv = k@;
    let ghost vv = v@;
    if i < m.len() && str_eq(m[i].0.as_str(), k.as_str()) {
        m.set(i, (k, v));
        assert(pairs_view(m@) =~= s.update(i as int, (kv, vv)));
    } else {
        m.insert(i, (k, v));
        assert(pairs_view(m@) =~= s.insert(i as int, (kv, vv)));
    }
}

/// The map made from `pairs` set one after the other, later pairs winning
/// (collecting into a `BTreeMap`).
pub fn map_of_strings(pairs: &Vec<(String, String)>) -> (r: Vec<(String, String)>)
    ensures
        pairs_view(r@) == map_of(pairs_view(pairs@)),
        keys_sorted(pairs_view(r@)),
{
    let ghost s = pairs_view(pairs@);
    let mut out: Vec<(String, String)> = Vec::new();
    let mut i: usize = 0;
    while i < pairs.len()
        invariant
            i <= pairs@.len(),
            s == pairs_view(pairs@),
            pairs_view(out@) == map_of(s.take(i as int)),
        decreases pairs.len() - i,
    {
        assert(s.take(i + 1).drop_last() == s.take(i as int));
        assert(s.take(i + 1).last() == s[i as int]);
        let k = pairs[i].0.clone();
        let v = pairs[i].1.clone();
        map_put_string(&mut out, k, v);
        i = i + 1;
    }
    assert(s.take(i as int) == s);
    proof {
        lemma_map_of_sorted(s);
    }
    out
}

} // verus!
