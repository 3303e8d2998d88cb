//! Release versions: lenient semantic-version parsing, the "is newer"
//! order, and the decision whether a published release is an update.

use vstd::prelude::*;
use crate::text;
use crate::text::{
    chars_of, digits_end, find_char, parse_u64_range, push_str, string_of, string_of_range,
    strip_leading_from, strip_leading_v_from, trim_range,
};

verus! {

/// Where the releases of Package Run are published.
pub const RELEASES_PAGE: &'static str = "https://github.com/xl495/package-run/releases";

/// A newer release that the user can install.
#[derive(Debug, Clone)]
pub struct AvailableUpdate {
    pub version: String,
    pub notes: String,
    pub html_url: String,
}

/// The fields of a GitHub release that the update check reads.
#[derive(Debug, Clone)]
pub struct GhRelease {
    pub tag_name: Option<String>,
    pub name: Option<String>,
    pub body: Option<String>,
    pub html_url: Option<String>,
    pub draft: Option<bool>,
    pub prerelease: Option<bool>,
}

/// `v` trimmed, then stripped of leading `v`s, then of leading `V`s.
pub open spec fn version_core(v: Seq<char>) -> Seq<char> {
    text::strip_leading(text::strip_leading(text::trim(v), 'v'), 'V')
}

/// The patch number read from what follows the second dot: the digits
/// that start its first dot-separated piece, 0 when there are none or
/// they do not fit.
pub open spec fn patch_of(rest: Seq<char>) -> u64 {
    let piece = rest.take(text::first_index(rest, '.') as int);
    match text::parse_uint(piece.take(text::leading_digits(piece) as int), u64::MAX as nat) {
        Some(p) => p as u64,
        None => 0,
    }
}

/// `major.minor[.patch…]`, each of major and minor a `u64`, after trimming
/// and dropping a `v`/`V` prefix. No minor part means no version.
pub open spec fn semver(v: Seq<char>) -> Option<(u64, u64, u64)> {
    let s = version_core(v);
    let i1 = text::first_index(s, '.');
    match text::parse_uint(s.take(i1 as int), u64::MAX as nat) {
        None => None,
        Some(major) => if i1 >= s.len() {
            None
        } else {
            let r1 = s.skip(i1 + 1int);
            let i2 = text::first_index(r1, '.');
            match text::parse_uint(r1.take(i2 as int), u64::MAX as nat) {
                None => None,
                Some(minor) => Some(
                    (
                        major as u64,
                        minor as u64,
                        if i2 >= r1.len() {
                            0u64
                        } else {
                            patch_of(r1.skip(i2 + 1int))
                        },
                    ),
                ),
            }
        },
    }
}

/// Lexicographic "greater than" on version triples.
pub open spec fn triple_gt(a: (u64, u64, u64), b: (u64, u64, u64)) -> bool {
    ||| a.0 > b.0
    ||| a.0 == b.0 && a.1 > b.1
    ||| a.0 == b.0 && a.1 == b.1 && a.2 > b.2
}

/// `remote` is strictly newer than `local`: both are versions and the
/// version of `remote` is the greater. Where either is not a version,
/// neither is newer than the other.
pub open spec fn newer(remote: Seq<char>, local: Seq<char>) -> bool {
    match (semver(remote), semver(local)) {
        (Some(r), Some(l)) => triple_gt(r, l),
        _ => false,
    }
}

/// Parses a lenient semantic version such as `v1.2.3` or `1.2.3-beta`.
pub fn parse_semver(v: &str) -> (r: Option<(u64, u64, u64)>)
    ensures
        r == semver(v@),
{
    let c = chars_of(v);
    let s = c.as_slice();
    let n = c.len();
    let (a0, b) = trim_range(s, 0, n);
    let a1 = strip_leading_from(s, a0, b, 'v');
    let a = strip_leading_from(s, a1, b, 'V');
    proof {
        assert(c@.subrange(0, n as int) == v@);
        assert(s@.subrange(a as int, b as int) == version_core(v@));
    }
    let ghost core = s@.subrange(a as int, b as int);
    let d1 = find_char(s, a, b, '.');
    assert(core.take(d1 - a) == s@.subrange(a as int, d1 as int));
    let major = match parse_u64_range(s, a, d1) {
        Some(m) => m,
        None => {
            return None;
        },
    };
    if d1 >= b {
        return None;
    }
    let ghost r1 = core.skip(d1 - a + 1);
    assert(r1 == s@.subrange(d1 + 1, b as int));
    let d2 = find_char(s, d1 + 1, b, '.');
    assert(r1.take(d2 - (d1 + 1)) == s@.subrange(d1 + 1, d2 as int));
    let minor = match parse_u64_range(s, d1 + 1, d2) {
        Some(m) => m,
        None => {
            return None;
        },
    };
    if d2 >= b {
        return Some((major, minor, 0));
    }
    let ghost r2 = r1.skip(d2 - (d1 + 1) + 1);
    assert(r2 == s@.subrange(d2 + 1, b as int));
    let d3 = find_char(s, d2 + 1, b, '.');
    let ghost piece = r2.take(d3 - (d2 + 1));
    assert(piece == s@.subrange(d2 + 1, d3 as int));
    let e = digits_end(s, d2 + 1, d3);
    assert(piece.take(e - (d2 + 1)) == s@.subrange(d2 + 1, e as int));
    let patch = match parse_u64_range(s, d2 + 1, e) {
        Some(p) => p,
        None => 0,
    };
    Some((major, minor, patch))
}

/// Whether the version `remote` is strictly newer than `local`.
pub fn is_newer(remote: &str, local: &str) -> (r: bool)
    ensures
        r == newer(remote@, local@),
{
    match (parse_semver(remote), parse_semver(local)) {
        (Some(r), Some(l)) => {
            r.0 > l.0 || (r.0 == l.0 && r.1 > l.1) || (r.0 == l.0 && r.1 == l.1 && r.2 > l.2)
        },
        _ => false,
    }
}


/// The release's version text: its tag name, else its name, else empty,
/// trimmed and stripped of a `v`/`V` prefix.
pub open spec fn release_version(r: GhRelease) -> Seq<char> {
    let raw = match r.tag_name {
        Some(t) => t@,
        None => match r.name {
            Some(n) => n@,
            None => Seq::<char>::empty(),
        },
    };
    text::strip_leading_v(text::trim(raw))
}

/// The release page: the one GitHub gives, else the tag page under
/// [`RELEASES_PAGE`].
pub open spec fn release_url(r: GhRelease, version: Seq<char>) -> Seq<char> {
    match r.html_url {
        Some(u) => u@,
        None => RELEASES_PAGE@ + "/tag/v"@ + version,
    }
}

/// The release notes, trimmed.
pub open spec fn release_notes(r: GhRelease) -> Seq<char> {
    match r.body {
        Some(b) => text::trim(b@),
        None => Seq::<char>::empty(),
    }
}

/// A release is offered as an update when it is neither a draft nor a
/// prerelease, has a version, and that version is newer than `current`.
pub open spec fn offers_update(r: GhRelease, current: Seq<char>) -> bool {
    &&& r.draft != Some(true)
    &&& r.prerelease != Some(true)
    &&& release_version(r).len() > 0
    &&& newer(release_version(r), current)
}

/// Decides, from the latest published release, whether an update to
/// `current_version` is available, and describes it.
pub fn check_release(release: &GhRelease, current_version: &str) -> (r: Option<AvailableUpdate>)
    ensures
        r is Some <==> offers_update(*release, current_version@),
        r matches Some(u) ==> {
            &&& u.version@ == release_version(*release)
            &&& u.notes@ == release_notes(*release)
            &&& u.html_url@ == release_url(*release, release_version(*release))
        },
{
    if release.draft == Some(true) || release.prerelease == Some(true) {
        return None;
    }
    let raw: Vec<char> = match &release.tag_name {
        Some(t) => chars_of(t.as_str()),
        None => match &release.name {
            Some(n) => chars_of(n.as_str()),
            None => Vec::new(),
        },
    };
    let (a0, b) = trim_range(raw.as_slice(), 0, raw.len());
    let a = strip_leading_v_from(raw.as_slice(), a0, b);
    assert(raw@.subrange(0, raw@.len() as int) == raw@);
    if a == b {
        return None;
    }
    let version = string_of_range(raw.as_slice(), a, b);
    if !is_newer(version.as_str(), current_version) {
        return None;
    }
    let html_url = match &release.html_url {
        Some(u) => u.clone(),
        None => {
            let mut v: Vec<char> = Vec::new();
            push_str(&mut v, RELEASES_PAGE);
            push_str(&mut v, "/tag/v");
            push_str(&mut v, version.as_str());
            string_of(v.as_slice())
        },
    };
    let notes = match &release.body {
        Some(body) => {
            let bc = chars_of(body.as_str());
            let (na, nb) = trim_range(bc.as_slice(), 0, bc.len());
            assert(bc@.subrange(0, bc@.len() as int) == bc@);
            string_of_range(bc.as_slice(), na, nb)
        },
        None => string_of(&[]),
    };
    Some(AvailableUpdate { version, notes, html_url })
}

// ---------------------------------------------------------------------------
// Laws of the version order.
// ---------------------------------------------------------------------------

/// No version is newer than itself.
pub proof fn lemma_not_newer_than_itself(v: Seq<char>)
    ensures
        !newer(v, v),
{
}

/// Of two texts, at most one is newer than the other.
pub proof fn lemma_newer_asymmetric(a: Seq<char>, b: Seq<char>)
    ensures
        newer(a, b) ==> !newer(b, a),
{
}

/// Between two well-formed versions with different numbers, exactly one
/// is newer than the other.
pub proof fn lemma_newer_total(a: Seq<char>, b: Seq<char>)
    requires
        semver(a) is Some,
        semver(b) is Some,
        semver(a) != semver(b),
    ensures
        newer(a, b) != newer(b, a),
{
}

/// "Newer than" is transitive.
pub proof fn lemma_newer_transitive(a: Seq<char>, b: Seq<char>, c: Seq<char>)
    requires
        newer(a, b),
        newer(b, c),
    ensures
        newer(a, c),
{
}

} // verus!
