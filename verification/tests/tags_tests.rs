use relkit::tags::{
    detect_current_tag, find_previous_tag, plan_tag_sync, resolve_tag, sorted_version_tags,
    SyncState, Tag, TagPrefix,
};
use relkit::Error;

fn names(list: &[&str]) -> Vec<String> {
    list.iter().map(|s| s.to_string()).collect()
}

#[test]
fn sync_plans_a_prefixed_tag_at_head() {
    let content = "version: 1.2.3+4\n".to_string();
    let tags: Vec<String> = Vec::new();
    let plan = plan_tag_sync(true, Some(&content), true, &tags, TagPrefix::Prefixed);
    assert_eq!(plan, SyncState::NeedsTag("v1.2.3".to_string()));
}

#[test]
fn sync_plans_a_bare_tag_when_preferred() {
    let content = "version: 1.2.3\n".to_string();
    let tags: Vec<String> = Vec::new();
    let plan = plan_tag_sync(true, Some(&content), true, &tags, TagPrefix::Bare);
    assert_eq!(plan, SyncState::NeedsTag("1.2.3".to_string()));
}

#[test]
fn either_tag_convention_blocks_creation() {
    let content = "version: 1.2.3+4\n".to_string();
    let bare = names(&["1.2.3"]);
    let prefixed = names(&["v1.2.3"]);
    assert_eq!(
        plan_tag_sync(true, Some(&content), true, &bare, TagPrefix::Prefixed),
        SyncState::AlreadyTagged
    );
    assert_eq!(
        plan_tag_sync(true, Some(&content), true, &prefixed, TagPrefix::Bare),
        SyncState::AlreadyTagged
    );
}

#[test]
fn sync_is_idempotent_at_runtime() {
    let content = "version: 0.5.0\n".to_string();
    let mut tags: Vec<String> = Vec::new();
    let first = plan_tag_sync(true, Some(&content), true, &tags, TagPrefix::Prefixed);
    let created = match first {
        SyncState::NeedsTag(t) => t,
        other => panic!("expected a creation plan, got {:?}", other),
    };
    tags.push(created);
    let second = plan_tag_sync(true, Some(&content), true, &tags, TagPrefix::Prefixed);
    assert_eq!(second, SyncState::AlreadyTagged);
}

#[test]
fn sync_skips_outside_a_repository_and_on_bad_input() {
    let tags: Vec<String> = Vec::new();
    let content = "version: 1.0.0\n".to_string();
    let bad = "version: nope\n".to_string();
    let empty = "name: x\n".to_string();
    assert_eq!(
        plan_tag_sync(false, Some(&content), true, &tags, TagPrefix::Prefixed),
        SyncState::NotARepo
    );
    assert_eq!(
        plan_tag_sync(true, None, true, &tags, TagPrefix::Prefixed),
        SyncState::NoVersion
    );
    assert_eq!(
        plan_tag_sync(true, Some(&empty), true, &tags, TagPrefix::Prefixed),
        SyncState::NoVersion
    );
    assert_eq!(
        plan_tag_sync(true, Some(&bad), true, &tags, TagPrefix::Prefixed),
        SyncState::InvalidVersion
    );
    assert_eq!(
        plan_tag_sync(true, Some(&content), false, &tags, TagPrefix::Prefixed),
        SyncState::UnbornHead
    );
}

#[test]
fn sync_ignores_build_metadata_in_tag_names() {
    let content = "version: 1.2.3+99\n".to_string();
    let tags = names(&["v1.2.3"]);
    assert_eq!(
        plan_tag_sync(true, Some(&content), true, &tags, TagPrefix::Prefixed),
        SyncState::AlreadyTagged
    );
}

#[test]
fn sorted_tags_are_descending_and_exclude_invalid() {
    let tags = names(&["v1.0.0", "not-a-version", "v2.0.0", "1.5.0", "v0.9.0-rc.1"]);
    let sorted = sorted_version_tags(&tags);
    let got: Vec<&str> = sorted.iter().map(|t| t.name.as_str()).collect();
    assert_eq!(got, vec!["v2.0.0", "1.5.0", "v1.0.0", "v0.9.0-rc.1"]);
}

#[test]
fn three_tags_resolve_current_and_previous() {
    let tags = names(&["v1.0.0", "v1.1.0", "v2.0.0"]);
    let sorted = sorted_version_tags(&tags);
    let snapshot = vec![
        Tag { name: "v1.0.0".into(), target: "a".repeat(40) },
        Tag { name: "v1.1.0".into(), target: "b".repeat(40) },
        Tag { name: "v2.0.0".into(), target: "c".repeat(40) },
    ];
    let head = "c".repeat(40);
    let current = detect_current_tag(&snapshot, &head, None).unwrap();
    assert_eq!(current, "v2.0.0");
    let prev = find_previous_tag(&sorted, &current).unwrap();
    assert_eq!(prev, "v1.1.0");
}

#[test]
fn both_conventions_of_one_version_are_kept() {
    let tags = names(&["1.0.0", "v1.0.0", "v2.0.0"]);
    let sorted = sorted_version_tags(&tags);
    assert_eq!(sorted.len(), 3);
    assert_eq!(sorted[0].name, "v2.0.0");
    // the two 1.0.0 entries follow in some order
    let rest: Vec<&str> = sorted[1..].iter().map(|t| t.name.as_str()).collect();
    assert!(rest.contains(&"1.0.0") && rest.contains(&"v1.0.0"));
}

#[test]
fn previous_tag_of_a_mid_list_tag_is_the_list_head() {
    let tags = names(&["v1.0.0", "v1.1.0", "v2.0.0"]);
    let sorted = sorted_version_tags(&tags);
    assert_eq!(find_previous_tag(&sorted, "v1.1.0").as_deref(), Some("v2.0.0"));
}

#[test]
fn earliest_tag_has_no_previous() {
    let tags = names(&["v1.0.0"]);
    let sorted = sorted_version_tags(&tags);
    assert_eq!(find_previous_tag(&sorted, "v1.0.0"), None);
}

#[test]
fn explicit_tag_overrides_detection() {
    let snapshot: Vec<Tag> = Vec::new();
    let explicit = "v9.9.9".to_string();
    let current = detect_current_tag(&snapshot, "0000", Some(&explicit)).unwrap();
    assert_eq!(current, "v9.9.9");
}

#[test]
fn no_tag_on_head_is_an_error() {
    let snapshot = vec![Tag { name: "v1.0.0".into(), target: "a".repeat(40) }];
    let head = "b".repeat(40);
    assert_eq!(detect_current_tag(&snapshot, &head, None).unwrap_err(), Error::NoTagOnHead);
}

#[test]
fn resolve_tag_finds_the_target_commit() {
    let snapshot = vec![
        Tag { name: "v1.0.0".into(), target: "a".repeat(40) },
        Tag { name: "v2.0.0".into(), target: "b".repeat(40) },
    ];
    assert_eq!(resolve_tag(&snapshot, "v2.0.0").unwrap(), "b".repeat(40));
    assert_eq!(resolve_tag(&snapshot, "v3.0.0").unwrap_err(), Error::TagNotFound);
}
