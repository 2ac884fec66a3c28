use relkit::manifest::{bump_manifest, read_pubspec_version, BumpOutcome};
use relkit::semver::VersionPart;
use relkit::Error;

#[test]
fn reads_version_from_structured_document() {
    let content = "name: demo\ndescription: a demo app\nversion: 1.2.3+4\n";
    assert_eq!(read_pubspec_version(content).as_deref(), Some("1.2.3+4"));
}

#[test]
fn reads_version_regardless_of_key_order() {
    let content = "version: 0.9.0\nname: demo\n";
    assert_eq!(read_pubspec_version(content).as_deref(), Some("0.9.0"));
}

#[test]
fn falls_back_to_line_scan_on_broken_document() {
    // an unclosed flow mapping is not parseable, but the line is still there
    let content = "name: {broken\nversion: 3.1.4\n";
    assert_eq!(read_pubspec_version(content).as_deref(), Some("3.1.4"));
}

#[test]
fn no_version_yields_none() {
    assert_eq!(read_pubspec_version("name: demo\n"), None);
    assert_eq!(read_pubspec_version(""), None);
    assert_eq!(read_pubspec_version("version:\n"), None);
}

#[test]
fn bump_patch_rewrites_only_the_version_line() {
    let content = "name: demo # comment\nversion: 1.2.3+4\n# trailing comment\n";
    match bump_manifest(content, VersionPart::Patch).unwrap() {
        BumpOutcome::Bumped { content: c, version } => {
            assert_eq!(version, "1.2.4+1");
            assert_eq!(c, "name: demo # comment\nversion: 1.2.4+1\n# trailing comment\n");
        },
        BumpOutcome::NoVersionLine => panic!("expected a bump"),
    }
}

#[test]
fn bump_build_increments_counter() {
    let content = "version: 2.0.0+7\n";
    match bump_manifest(content, VersionPart::Build).unwrap() {
        BumpOutcome::Bumped { content: c, version } => {
            assert_eq!(version, "2.0.0+8");
            assert_eq!(c, "version: 2.0.0+8\n");
        },
        BumpOutcome::NoVersionLine => panic!("expected a bump"),
    }
}

#[test]
fn bump_without_version_line_reports_it() {
    assert_eq!(
        bump_manifest("name: demo\n", VersionPart::Patch).unwrap(),
        BumpOutcome::NoVersionLine
    );
}

#[test]
fn bump_with_invalid_version_fails() {
    assert_eq!(
        bump_manifest("version: not-semver\n", VersionPart::Patch).unwrap_err(),
        Error::InvalidSemver
    );
}

#[test]
fn bump_normalizes_spacing_of_the_version_line() {
    let content = "version:    1.0.0   \n";
    match bump_manifest(content, VersionPart::Major).unwrap() {
        BumpOutcome::Bumped { content: c, version } => {
            assert_eq!(version, "2.0.0+1");
            assert_eq!(c, "version: 2.0.0+1\n");
        },
        BumpOutcome::NoVersionLine => panic!("expected a bump"),
    }
}
