use package_run::update::{check_release, is_newer, parse_semver, GhRelease, RELEASES_PAGE};

#[test]
fn semver_newer() {
    assert!(is_newer("0.2.0", "0.1.0"));
    assert!(is_newer("v1.0.0", "0.9.9"));
    assert!(!is_newer("0.1.0", "0.1.0"));
    assert!(!is_newer("0.1.0", "0.2.0"));
}

#[test]
fn semver_parses_lenient_forms() {
    assert_eq!(parse_semver("1.2.3"), Some((1, 2, 3)));
    assert_eq!(parse_semver("  v1.2.3 "), Some((1, 2, 3)));
    assert_eq!(parse_semver("V2.0"), Some((2, 0, 0)));
    assert_eq!(parse_semver("1.2.3-beta.1"), Some((1, 2, 3)));
    assert_eq!(parse_semver("1.2.x"), Some((1, 2, 0)));
    assert_eq!(parse_semver("1.2.3.4"), Some((1, 2, 3)));
    assert_eq!(parse_semver("+1.+2.3"), Some((1, 2, 3)));
    assert_eq!(parse_semver("1"), None);
    assert_eq!(parse_semver("a.b.c"), None);
    assert_eq!(parse_semver(""), None);
    assert_eq!(parse_semver("1..3"), None);
    assert_eq!(parse_semver("18446744073709551616.0.0"), None);
    assert_eq!(parse_semver("1.0.18446744073709551616"), Some((1, 0, 0)));
}

#[test]
fn newer_compares_numerically_not_textually() {
    assert!(is_newer("0.10.0", "0.9.0"));
    assert!(!is_newer("0.9.0", "0.10.0"));
    assert!(is_newer("1.0.1", "1.0.0"));
    assert!(!is_newer("v1.0.0", "1.0.0"));
}

#[test]
fn text_that_is_not_a_version_is_never_newer() {
    assert!(!is_newer("nightly", "0.1.0"));
    assert!(!is_newer("0.1.0", "nightly"));
    assert!(!is_newer("nightly", "beta"));
    assert!(!is_newer("beta", "nightly"));
    assert!(!is_newer("nightly", " vnightly "));
}

fn release(tag: Option<&str>) -> GhRelease {
    GhRelease {
        tag_name: tag.map(String::from),
        name: Some("Release name".to_string()),
        body: Some("  notes here \n".to_string()),
        html_url: None,
        draft: Some(false),
        prerelease: None,
    }
}

#[test]
fn release_newer_than_current_is_offered() {
    let u = check_release(&release(Some("v0.2.0")), "0.1.0").expect("update expected");
    assert_eq!(u.version, "0.2.0");
    assert_eq!(u.notes, "notes here");
    assert_eq!(u.html_url, format!("{RELEASES_PAGE}/tag/v0.2.0"));
}

#[test]
fn release_page_from_github_is_kept() {
    let mut r = release(Some("0.3.0"));
    r.html_url = Some("https://example.com/r".to_string());
    let u = check_release(&r, "0.1.0").unwrap();
    assert_eq!(u.html_url, "https://example.com/r");
}

#[test]
fn release_not_newer_or_unpublished_is_not_offered() {
    assert!(check_release(&release(Some("0.1.0")), "0.1.0").is_none());
    let mut draft = release(Some("9.0.0"));
    draft.draft = Some(true);
    assert!(check_release(&draft, "0.1.0").is_none());
    let mut pre = release(Some("9.0.0"));
    pre.prerelease = Some(true);
    assert!(check_release(&pre, "0.1.0").is_none());
    let mut empty = release(None);
    empty.name = Some("  v ".to_string());
    assert!(check_release(&empty, "0.1.0").is_none());
}

#[test]
fn release_name_used_without_tag() {
    let mut r = release(None);
    r.name = Some(" v0.4.0 ".to_string());
    let u = check_release(&r, "0.1.0").unwrap();
    assert_eq!(u.version, "0.4.0");
    assert!(check_release(&release(None), "0.1.0").is_none());
}

#[test]
fn version_order_is_a_strict_order() {
    let vs = ["0.1.0", "v0.2.0", "0.10.1", "1.0", "V1.0.1", "2.0.0-rc.1", "nightly", ""];
    for a in vs {
        assert!(!is_newer(a, a));
        for b in vs {
            if is_newer(a, b) {
                assert!(!is_newer(b, a));
            }
            for c in vs {
                if is_newer(a, b) && is_newer(b, c) {
                    assert!(is_newer(a, c));
                }
            }
        }
    }
}
