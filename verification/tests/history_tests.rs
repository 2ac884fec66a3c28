use relkit::history::{extract_history, Commit};
use relkit::Error;

fn hex_id(c: char) -> String {
    std::iter::repeat(c).take(40).collect()
}

fn commit(id: char, parents: &[char], summary: &str) -> Commit {
    Commit {
        id: hex_id(id),
        parent_ids: parents.iter().map(|p| hex_id(*p)).collect(),
        summary: summary.to_string(),
    }
}

#[test]
fn extracts_mainline_history_newest_first() {
    let commits = vec![
        commit('a', &['b'], "add feature"),
        commit('b', &['c'], "fix bug"),
        commit('c', &[], "initial commit"),
    ];
    let head = hex_id('a');
    let lines = extract_history(&commits, &head, None, 50).unwrap();
    assert_eq!(
        lines,
        vec![
            format!("{} add feature", "a".repeat(7)),
            format!("{} fix bug", "b".repeat(7)),
            format!("{} initial commit", "c".repeat(7)),
        ]
    );
}

#[test]
fn merge_commits_are_skipped_without_consuming_the_cap() {
    let commits = vec![
        commit('a', &['b'], "add feature"),
        commit('b', &['c'], "Merge branch 'x'"),
        commit('c', &[], "initial commit"),
    ];
    let head = hex_id('a');
    let lines = extract_history(&commits, &head, None, 2).unwrap();
    assert_eq!(lines.len(), 2);
    assert!(lines[0].ends_with("add feature"));
    assert!(lines[1].ends_with("initial commit"));
}

#[test]
fn multi_parent_commits_are_skipped() {
    let commits = vec![
        commit('a', &['b', 'd'], "merged without a marker"),
        commit('b', &[], "base"),
        commit('d', &[], "side"),
    ];
    let head = hex_id('a');
    let lines = extract_history(&commits, &head, None, 10).unwrap();
    assert_eq!(lines, vec![format!("{} base", "b".repeat(7))]);
}

#[test]
fn boundary_commit_is_excluded() {
    let commits = vec![
        commit('a', &['b'], "newest"),
        commit('b', &['c'], "middle"),
        commit('c', &[], "boundary target"),
    ];
    let head = hex_id('a');
    let boundary = hex_id('c');
    let lines = extract_history(&commits, &head, Some(&boundary), 50).unwrap();
    assert_eq!(lines.len(), 2);
    assert!(lines.iter().all(|l| !l.contains("boundary target")));
}

#[test]
fn cap_limits_emitted_lines() {
    let commits = vec![
        commit('a', &['b'], "one"),
        commit('b', &['c'], "two"),
        commit('c', &[], "three"),
    ];
    let head = hex_id('a');
    let lines = extract_history(&commits, &head, None, 2).unwrap();
    assert_eq!(lines.len(), 2);
    assert!(lines[1].ends_with("two"));
}

#[test]
fn empty_range_is_an_error() {
    let commits = vec![commit('a', &[], "only")];
    let head = hex_id('a');
    let boundary = hex_id('a');
    assert_eq!(
        extract_history(&commits, &head, Some(&boundary), 50).unwrap_err(),
        Error::NoCommitsFound
    );
}
