use relkit::semver::{bump, parse_semver, render, render_core, semver_precedes, VersionPart};
use relkit::Error;

#[test]
fn parse_plain_version() {
    let v = parse_semver("1.2.3").unwrap();
    assert_eq!(v.major, 1);
    assert_eq!(v.minor, 2);
    assert_eq!(v.patch, 3);
    assert!(v.pre.is_empty());
    assert!(v.build.is_none());
}

#[test]
fn parse_version_with_build() {
    let v = parse_semver("1.2.3+4").unwrap();
    assert_eq!(v.major, 1);
    assert_eq!(v.patch, 3);
    assert_eq!(v.build.as_deref(), Some("4"));
}

#[test]
fn parse_version_with_prerelease_and_build() {
    let v = parse_semver("2.0.0-alpha.1+007").unwrap();
    assert_eq!(v.pre, vec!["alpha".to_string(), "1".to_string()]);
    assert_eq!(v.build.as_deref(), Some("007"));
}

#[test]
fn parse_rejects_bad_versions() {
    assert_eq!(parse_semver("").unwrap_err(), Error::InvalidSemver);
    assert_eq!(parse_semver("1.2").unwrap_err(), Error::InvalidSemver);
    assert_eq!(parse_semver("1.2.3.4").unwrap_err(), Error::InvalidSemver);
    assert_eq!(parse_semver("01.2.3").unwrap_err(), Error::InvalidSemver);
    assert_eq!(parse_semver("1.2.3-").unwrap_err(), Error::InvalidSemver);
    assert_eq!(parse_semver("1.2.3-alpha..1").unwrap_err(), Error::InvalidSemver);
    assert_eq!(parse_semver("1.2.3-01").unwrap_err(), Error::InvalidSemver);
    assert_eq!(parse_semver("1.2.3+").unwrap_err(), Error::InvalidSemver);
    assert_eq!(parse_semver("a.b.c").unwrap_err(), Error::InvalidSemver);
    assert_eq!(parse_semver("1.2.3 ").unwrap_err(), Error::InvalidSemver);
}

#[test]
fn render_round_trip() {
    for s in ["0.0.1", "1.2.3+4", "2.0.0-alpha.1+build.5", "10.20.30"] {
        let v = parse_semver(s).unwrap();
        assert_eq!(render(&v), s);
    }
}

#[test]
fn render_core_drops_build() {
    let v = parse_semver("1.2.3-rc.1+42").unwrap();
    assert_eq!(render_core(&v), "1.2.3-rc.1");
}

#[test]
fn bump_major_resets_everything() {
    let v = parse_semver("1.2.3-rc.1+9").unwrap();
    let b = bump(v, VersionPart::Major);
    assert_eq!(render(&b), "2.0.0+1");
    assert!(b.pre.is_empty());
    assert_eq!(b.build.as_deref(), Some("1"));
}

#[test]
fn bump_minor_and_patch_reset_lower_fields() {
    let v = parse_semver("1.2.3+7").unwrap();
    let b = bump(v, VersionPart::Minor);
    assert_eq!(render(&b), "1.3.0+1");
    let v = parse_semver("1.2.3-beta+7").unwrap();
    let b = bump(v, VersionPart::Patch);
    assert_eq!(render(&b), "1.2.4+1");
}

#[test]
fn bump_build_increments_numeric_counter() {
    let v = parse_semver("2.0.0+7").unwrap();
    let b = bump(v, VersionPart::Build);
    assert_eq!(render(&b), "2.0.0+8");
}

#[test]
fn bump_build_treats_missing_or_odd_build_as_zero() {
    let v = parse_semver("2.0.0").unwrap();
    let b = bump(v, VersionPart::Build);
    assert_eq!(render(&b), "2.0.0+1");
    let v = parse_semver("2.0.0+abc").unwrap();
    let b = bump(v, VersionPart::Build);
    assert_eq!(render(&b), "2.0.0+1");
    let v = parse_semver("2.0.0+1.2").unwrap();
    let b = bump(v, VersionPart::Build);
    assert_eq!(render(&b), "2.0.0+1");
}

#[test]
fn bump_build_keeps_prerelease() {
    let v = parse_semver("1.0.0-rc.2+3").unwrap();
    let b = bump(v, VersionPart::Build);
    assert_eq!(render(&b), "1.0.0-rc.2+4");
}

#[test]
fn precedence_follows_semver_rules() {
    let cases = [
        ("1.0.0-alpha", "1.0.0-alpha.1"),
        ("1.0.0-alpha.1", "1.0.0-alpha.beta"),
        ("1.0.0-alpha.beta", "1.0.0-beta"),
        ("1.0.0-beta", "1.0.0-beta.2"),
        ("1.0.0-beta.2", "1.0.0-beta.11"),
        ("1.0.0-beta.11", "1.0.0-rc.1"),
        ("1.0.0-rc.1", "1.0.0"),
        ("1.0.0", "2.0.0"),
        ("2.0.0", "2.1.0"),
        ("2.1.0", "2.1.1"),
    ];
    for (lo, hi) in cases {
        let a = parse_semver(lo).unwrap();
        let b = parse_semver(hi).unwrap();
        assert!(semver_precedes(&a, &b), "{lo} should precede {hi}");
        assert!(!semver_precedes(&b, &a), "{hi} should not precede {lo}");
    }
}

#[test]
fn precedence_ignores_build_metadata() {
    let a = parse_semver("1.0.0+1").unwrap();
    let b = parse_semver("1.0.0+999").unwrap();
    assert!(!semver_precedes(&a, &b));
    assert!(!semver_precedes(&b, &a));
}
