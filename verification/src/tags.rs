//! The tag namespace: naming conventions, the tag-synchronization state
//! machine, version-tag ordering, and change-range resolution.
//!
//! All functions here work on a snapshot of the tag namespace (tag names, and
//! where needed the commit each tag resolves to) handed in by the caller.

use vstd::prelude::*;

use crate::manifest::{read_pubspec_version, version_of_manifest};
use crate::semver::{
    is_version_tag, parse_semver, parsed_build, parsed_major, parsed_minor, parsed_patch,
    parsed_pre, render_core, semver_eq, semver_lt, semver_precedes, tag_core_of, tag_version_str,
    SemVer, lemma_semver_lt_connected, lemma_semver_lt_irrefl, lemma_semver_lt_trans,
    valid_semver,
};
use crate::text::{str_eq, substr};
use crate::Error;

verus! {

/// The naming convention for tags this tool creates: `v1.2.3` or `1.2.3`.
#[derive(Copy, Clone, PartialEq, Eq, Structural, Debug)]
pub enum TagPrefix {
    Prefixed,
    Bare,
}

/// The outcome of one tag-synchronization decision.
#[derive(Debug, Clone, PartialEq, Eq)]
pub enum SyncState {
    /// Not inside a repository: skip.
    NotARepo,
    /// The manifest is unreadable or holds no version: skip.
    NoVersion,
    /// The manifest version does not parse as semver: skip.
    InvalidVersion,
    /// The repository has no commits to point a tag at: skip.
    UnbornHead,
    /// A tag for the current version already exists under either convention.
    AlreadyTagged,
    /// Create a lightweight tag with this name at HEAD.
    NeedsTag(String),
}

/// The prefixed variant of a tag core: `v` + core.
pub open spec fn prefixed_name(core: Seq<char>) -> Seq<char> {
    seq!['v'] + core
}

/// The tag name the synchronizer would create for a manifest version string.
pub open spec fn preferred_name(vs: Seq<char>, prefix: TagPrefix) -> Seq<char> {
    match prefix {
        TagPrefix::Prefixed => prefixed_name(tag_core_of(vs)),
        TagPrefix::Bare => tag_core_of(vs),
    }
}

/// Is the version already tagged under either naming convention?
pub open spec fn version_tagged(vs: Seq<char>, names: Seq<Seq<char>>) -> bool {
    names.contains(tag_core_of(vs)) || names.contains(prefixed_name(tag_core_of(vs)))
}

/// The version string the synchronizer reads from the manifest, if any.
pub open spec fn sync_version(in_repo: bool, content: Option<Seq<char>>) -> Option<Seq<char>> {
    if !in_repo {
        None
    } else {
        match content {
            Some(c) => version_of_manifest(c),
            None => None,
        }
    }
}

/// The tag that one synchronization run creates, if any: the preferred name,
/// exactly when the manifest version is valid, neither naming convention is
/// already present, and HEAD exists.
pub open spec fn sync_creates(
    in_repo: bool,
    content: Option<Seq<char>>,
    head_exists: bool,
    names: Seq<Seq<char>>,
    prefix: TagPrefix,
) -> Option<Seq<char>> {
    match sync_version(in_repo, content) {
        Some(vs) => if valid_semver(vs) && !version_tagged(vs, names) && head_exists {
            Some(preferred_name(vs, prefix))
        } else {
            None
        },
        None => None,
    }
}

/// Decide one tag-synchronization step, from a snapshot of the world: whether
/// a repository was found, the manifest text (if readable), whether HEAD
/// resolves to a commit, and every existing tag name.
///
/// Both naming conventions are checked before any creation is planned, and
/// either alone suffices to plan none.
pub fn plan_tag_sync(
    in_repo: bool,
    content: Option<&String>,
    head_exists: bool,
    tag_names: &Vec<String>,
    prefix: TagPrefix,
) -> (r: SyncState)
    ensures
        r == SyncState::NotARepo <==> !in_repo,
        in_repo ==> {
            let ver = sync_version(in_repo, match content {
                Some(c) => Some(c@),
                None => None,
            });
            match ver {
                None => r == SyncState::NoVersion,
                Some(vs) => {
                    &&& !valid_semver(vs) ==> r == SyncState::InvalidVersion
                    &&& valid_semver(vs) && version_tagged(vs, tag_names.deep_view()) ==> r
                        == SyncState::AlreadyTagged
                    &&& valid_semver(vs) && !version_tagged(vs, tag_names.deep_view())
                        && !head_exists ==> r == SyncState::UnbornHead
                    &&& valid_semver(vs) && !version_tagged(vs, tag_names.deep_view())
                        && head_exists ==> (r matches SyncState::NeedsTag(t) && t@
                        == preferred_name(vs, prefix))
                },
            }
        },
        match sync_creates(
            in_repo,
            match content {
                Some(c) => Some(c@),
                None => None,
            },
            head_exists,
            tag_names.deep_view(),
            prefix,
        ) {
            Some(nm) => r matches SyncState::NeedsTag(t) && t@ == nm,
            None => !(r matches SyncState::NeedsTag(_)),
        },
{
    if !in_repo {
        return SyncState::NotARepo;
    }
    let text = match content {
        Some(c) => c,
        None => {
            return SyncState::NoVersion;
        },
    };
    let version_str = match read_pubspec_version(text.as_str()) {
        Some(v) => v,
        None => {
            return SyncState::NoVersion;
        },
    };
    let v = match parse_semver(version_str.as_str()) {
        Ok(v) => v,
        Err(_) => {
            return SyncState::InvalidVersion;
        },
    };
    let bare = render_core(&v);
    let mut prefixed = String::new();
    proof {
        reveal_strlit("v");
        assert("v"@ =~= seq!['v']);
    }
    prefixed.append("v");
    prefixed.append(bare.as_str());
    proof {
        assert(prefixed@ =~= prefixed_name(bare@));
        assert(bare@ == tag_core_of(version_str@));
    }
    if contains_str(tag_names, bare.as_str()) || contains_str(tag_names, prefixed.as_str()) {
        return SyncState::AlreadyTagged;
    }
    if !head_exists {
        return SyncState::UnbornHead;
    }
    match prefix {
        TagPrefix::Prefixed => SyncState::NeedsTag(prefixed),
        TagPrefix::Bare => SyncState::NeedsTag(bare),
    }
}

/// Tag synchronization is idempotent: when a run plans a tag creation for a
/// given manifest version and HEAD, a second run over the namespace that now
/// holds that tag plans none, so at most one tag is ever created for the pair.
pub proof fn lemma_tag_sync_idempotent(
    in_repo: bool,
    content: Option<Seq<char>>,
    head_exists: bool,
    names: Seq<Seq<char>>,
    prefix: TagPrefix,
)
    ensures
        match sync_creates(in_repo, content, head_exists, names, prefix) {
            Some(t) => sync_creates(in_repo, content, head_exists, names.push(t), prefix)
                is None,
            None => true,
        },
{
    match sync_creates(in_repo, content, head_exists, names, prefix) {
        Some(t) => {
            let vs = sync_version(in_repo, content).unwrap();
            assert(names.push(t).contains(t)) by {
                assert(names.push(t)[names.len() as int] == t);
            }
            assert(version_tagged(vs, names.push(t)));
        },
        None => {},
    }
}

/// Either existing naming convention alone suffices to block tag creation.
pub proof fn lemma_either_convention_blocks(
    in_repo: bool,
    content: Option<Seq<char>>,
    head_exists: bool,
    names: Seq<Seq<char>>,
    prefix: TagPrefix,
)
    ensures
        match sync_version(in_repo, content) {
            Some(vs) => (names.contains(tag_core_of(vs)) || names.contains(
                prefixed_name(tag_core_of(vs)),
            )) ==> sync_creates(in_repo, content, head_exists, names, prefix) is None,
            None => true,
        },
{
}

// ---------------------------------------------------------------------------
// version-tag ordering and change ranges
// ---------------------------------------------------------------------------

/// A tag whose name denotes a version, with the parsed version.
#[derive(Debug, Clone)]
pub struct VersionTag {
    pub version: SemVer,
    pub name: String,
}

/// A tag of the snapshot: its name and the commit it resolves (peels) to.
#[derive(Debug, Clone)]
pub struct Tag {
    pub name: String,
    pub target: String,
}

/// A version-tag entry is faithful to its name: the parsed fields are the
/// reading of the name with an optional leading `v` stripped.
pub open spec fn entry_faithful(e: VersionTag) -> bool {
    &&& is_version_tag(e.name@)
    &&& e.version.wf()
    &&& e.version.major == parsed_major(tag_version_str(e.name@))
    &&& e.version.minor == parsed_minor(tag_version_str(e.name@))
    &&& e.version.patch == parsed_patch(tag_version_str(e.name@))
    &&& e.version.pre_view() == parsed_pre(tag_version_str(e.name@))
    &&& e.version.build_view() == parsed_build(tag_version_str(e.name@))
}

/// How many names denote versions.
pub open spec fn count_version_tags(names: Seq<Seq<char>>) -> nat
    decreases names.len(),
{
    if names.len() == 0 {
        0nat
    } else {
        count_version_tags(names.drop_last()) + if is_version_tag(names.last()) {
            1nat
        } else {
            0nat
        }
    }
}

/// Strip one leading `v`, if present.
fn strip_v(name: &str) -> (r: String)
    ensures
        r@ == tag_version_str(name@),
{
    let n = name.unicode_len();
    if n > 0 && name.get_char(0) == 'v' {
        let r = substr(name, 1, n);
        proof {
            assert(name@.subrange(1, n as int) =~= name@.drop_first());
        }
        r
    } else {
        name.to_owned()
    }
}

/// Keep the tags whose names denote versions, each with its parsed version,
/// in input order.
fn filter_version_tags(names: &Vec<String>) -> (r: Vec<VersionTag>)
    ensures
        forall|i: int|
            0 <= i < r.len() ==> entry_faithful(#[trigger] r@[i]) && names.deep_view().contains(
                r@[i].name@,
            ),
        forall|j: int|
            0 <= j < names.len() && is_version_tag(#[trigger] names.deep_view()[j]) ==> exists|
                i: int,
            | 0 <= i < r.len() && (#[trigger] r@[i]).name@ == names.deep_view()[j],
        r.len() == count_version_tags(names.deep_view()),
{
    let n = names.len();
    let mut out: Vec<VersionTag> = Vec::new();
    let mut j: usize = 0;
    while j < n
        invariant
            n == names.len(),
            0 <= j <= n,
            forall|i: int|
                0 <= i < out.len() ==> entry_faithful(#[trigger] out@[i])
                    && names.deep_view().contains(out@[i].name@),
            forall|k: int|
                0 <= k < j && is_version_tag(#[trigger] names.deep_view()[k]) ==> exists|i: int|
                    0 <= i < out.len() && (#[trigger] out@[i]).name@ == names.deep_view()[k],
            out.len() == count_version_tags(names.deep_view().take(j as int)),
        decreases n - j,
    {
        let name = &names[j];
        let core = strip_v(name.as_str());
        proof {
            assert(names.deep_view()[j as int] == names@[j as int]@);
        }
        let ghost prev = out@;
        match parse_semver(core.as_str()) {
            Ok(v) => {
                let entry = VersionTag { version: v, name: name.clone() };
                out.push(entry);
                proof {
                    assert(out@[prev.len() as int].name@ == names.deep_view()[j as int]);
                    assert(forall|i: int| 0 <= i < prev.len() ==> out@[i] == prev[i]);
                }
            },
            Err(_) => {},
        }
        proof {
            let dv = names.deep_view();
            assert(dv.take(j + 1).drop_last() =~= dv.take(j as int));
            assert(dv.take(j + 1).last() == dv[j as int]);
            assert forall|k: int|
                0 <= k < j + 1 && is_version_tag(#[trigger] dv[k]) implies exists|i: int|
                0 <= i < out.len() && (#[trigger] out@[i]).name@ == dv[k] by {
                if k < j {
                    let i = choose|i: int|
                        0 <= i < prev.len() && (#[trigger] prev[i]).name@ == dv[k];
                    assert(out@[i].name@ == dv[k]);
                } else {
                    assert(out@[out.len() - 1].name@ == dv[k]);
                }
            }
        }
        j += 1;
    }
    proof {
        assert(names.deep_view().take(n as int) =~= names.deep_view());
    }
    out
}

/// Sort version tags descending by precedence. The result is a permutation of
/// the input (as a multiset) in which no entry precedes an earlier one.
fn sort_tags_desc(entries: Vec<VersionTag>) -> (r: Vec<VersionTag>)
    requires
        forall|i: int| 0 <= i < entries.len() ==> (#[trigger] entries@[i]).version.wf(),
    ensures
        r@.to_multiset() == entries@.to_multiset(),
        forall|i: int, j: int|
            0 <= i < j < r.len() ==> !semver_lt(
                (#[trigger] r@[i]).version,
                (#[trigger] r@[j]).version,
            ),
{
    broadcast use vstd::seq_lib::group_to_multiset_ensures;

    let mut rest = entries;
    let mut out: Vec<VersionTag> = Vec::new();
    proof {
        assert(out@.to_multiset().add(rest@.to_multiset()) =~= rest@.to_multiset());
    }
    while rest.len() > 0
        invariant
            out@.to_multiset().add(rest@.to_multiset()) == entries@.to_multiset(),
            forall|i: int| 0 <= i < rest.len() ==> (#[trigger] rest@[i]).version.wf(),
            forall|i: int| 0 <= i < out.len() ==> (#[trigger] out@[i]).version.wf(),
            forall|i: int, j: int|
                0 <= i < j < out.len() ==> !semver_lt(
                    (#[trigger] out@[i]).version,
                    (#[trigger] out@[j]).version,
                ),
            forall|i: int, k: int|
                0 <= i < out.len() && 0 <= k < rest.len() ==> !semver_lt(
                    (#[trigger] out@[i]).version,
                    (#[trigger] rest@[k]).version,
                ),
        decreases rest.len(),
    {
        // find the greatest remaining entry
        let n = rest.len();
        let mut mi: usize = 0;
        let mut k: usize = 1;
        proof {
            lemma_semver_lt_irrefl(rest@[0].version);
        }
        while k < n
            invariant
                n == rest.len(),
                n > 0,
                forall|i: int| 0 <= i < rest.len() ==> (#[trigger] rest@[i]).version.wf(),
                0 <= mi < n,
                1 <= k <= n,
                forall|j: int| 0 <= j < k ==> !semver_lt(rest@[mi as int].version, (#[trigger] rest@[j]).version),
            decreases n - k,
        {
            if semver_precedes(&rest[mi].version, &rest[k].version) {
                proof {
                    assert forall|j: int| 0 <= j < k + 1 implies !semver_lt(
                        rest@[k as int].version,
                        (#[trigger] rest@[j]).version,
                    ) by {
                        if j == k as int {
                            lemma_semver_lt_irrefl(rest@[k as int].version);
                        } else if semver_lt(rest@[k as int].version, rest@[j].version) {
                            lemma_semver_lt_trans(
                                rest@[mi as int].version,
                                rest@[k as int].version,
                                rest@[j].version,
                            );
                        }
                    }
                }
                mi = k;
            }
            k += 1;
        }
        let ghost old_rest = rest@;
        let ghost old_out = out@;
        let item = rest.remove(mi);
        out.push(item);
        proof {
            broadcast use vstd::multiset::group_multiset_axioms;

            assert(rest@ == old_rest.remove(mi as int));
            vstd::seq_lib::to_multiset_remove(old_rest, mi as int);
            assert(rest@.to_multiset() == old_rest.to_multiset().remove(old_rest[mi as int]));
            vstd::seq_lib::to_multiset_contains(old_rest, old_rest[mi as int]);
            assert(old_rest.to_multiset().contains(old_rest[mi as int])) by {
                assert(old_rest.contains(old_rest[mi as int]));
            }
            vstd::seq_lib::to_multiset_build(old_out, old_rest[mi as int]);
            assert(out@.to_multiset() == old_out.to_multiset().insert(old_rest[mi as int]));
            assert(out@.to_multiset().add(rest@.to_multiset()) =~= old_out.to_multiset().add(
                old_rest.to_multiset(),
            ));
            // every remaining entry sits somewhere in the old rest
            assert forall|i: int| 0 <= i < rest@.len() implies exists|j: int|
                0 <= j < old_rest.len() && old_rest[j] == #[trigger] rest@[i] by {
                if i < mi as int {
                    assert(old_rest[i] == rest@[i]);
                } else {
                    assert(old_rest[i + 1] == rest@[i]);
                }
            }
        }
    }
    proof {
        assert(out@.to_multiset().add(rest@.to_multiset()) =~= out@.to_multiset());
    }
    out
}

/// Collect every tag whose name denotes a version and sort them descending by
/// semver precedence; names with invalid version text are excluded.
pub fn sorted_version_tags(names: &Vec<String>) -> (r: Vec<VersionTag>)
    ensures
        forall|i: int|
            0 <= i < r.len() ==> entry_faithful(#[trigger] r@[i]) && names.deep_view().contains(
                r@[i].name@,
            ),
        forall|j: int|
            0 <= j < names.len() && is_version_tag(#[trigger] names.deep_view()[j]) ==> exists|
                i: int,
            | 0 <= i < r.len() && (#[trigger] r@[i]).name@ == names.deep_view()[j],
        r.len() == count_version_tags(names.deep_view()),
        forall|i: int, j: int|
            0 <= i < j < r.len() ==> !semver_lt(
                (#[trigger] r@[i]).version,
                (#[trigger] r@[j]).version,
            ),
{
    broadcast use vstd::seq_lib::group_to_multiset_ensures;

    let entries = filter_version_tags(names);
    let ghost ent = entries@;
    let r = sort_tags_desc(entries);
    proof {
        assert(r@.len() == ent.len()) by {
            assert(r@.to_multiset().len() == ent.to_multiset().len());
        }
        assert forall|i: int| 0 <= i < r@.len() implies entry_faithful(#[trigger] r@[i])
            && names.deep_view().contains(r@[i].name@) by {
            assert(r@.to_multiset().contains(r@[i])) by {
                assert(r@.contains(r@[i]));
            }
            assert(ent.to_multiset().contains(r@[i]));
            assert(ent.contains(r@[i]));
            let j = choose|j: int| 0 <= j < ent.len() && ent[j] == r@[i];
            assert(entry_faithful(ent[j]));
        }
        assert forall|j: int|
            0 <= j < names.len() && is_version_tag(#[trigger] names.deep_view()[j]) implies exists|
            i: int,
        | 0 <= i < r@.len() && (#[trigger] r@[i]).name@ == names.deep_view()[j] by {
            let i0 = choose|i0: int|
                0 <= i0 < ent.len() && (#[trigger] ent[i0]).name@ == names.deep_view()[j];
            assert(ent.to_multiset().contains(ent[i0])) by {
                assert(ent.contains(ent[i0]));
            }
            assert(r@.to_multiset().contains(ent[i0]));
            assert(r@.contains(ent[i0]));
            let i = choose|i: int| 0 <= i < r@.len() && r@[i] == ent[i0];
            assert(r@[i].name@ == names.deep_view()[j]);
        }
    }
    r
}

/// The sorted tag listing is totally ordered by semver precedence: of any two
/// entries, the later one strictly precedes the earlier one or the two have
/// equal precedence (build metadata ignored).
pub proof fn lemma_sorted_tags_totally_ordered(r: Seq<VersionTag>)
    requires
        forall|i: int| 0 <= i < r.len() ==> entry_faithful(#[trigger] r[i]),
        forall|i: int, j: int|
            0 <= i < j < r.len() ==> !semver_lt((#[trigger] r[i]).version, (#[trigger] r[j]).version),
    ensures
        forall|i: int, j: int|
            0 <= i < j < r.len() ==> semver_lt((#[trigger] r[j]).version, (#[trigger] r[i]).version)
                || semver_eq(r[j].version, r[i].version),
{
    assert forall|i: int, j: int| 0 <= i < j < r.len() implies semver_lt(
        (#[trigger] r[j]).version,
        (#[trigger] r[i]).version,
    ) || semver_eq(r[j].version, r[i].version) by {
        if !semver_lt(r[j].version, r[i].version) {
            lemma_semver_lt_connected(r[i].version, r[j].version);
        }
    }
}

/// Index of the first entry whose name differs from `cur`, or -1.
pub open spec fn first_other_idx(entries: Seq<VersionTag>, cur: Seq<char>) -> int
    decreases entries.len(),
{
    if entries.len() == 0 {
        -1
    } else if entries[0].name@ != cur {
        0
    } else {
        let r = first_other_idx(entries.drop_first(), cur);
        if r < 0 {
            -1
        } else {
            r + 1
        }
    }
}

/// The previous release tag: the first entry of the descending order whose
/// name is not the current tag, or `None` when there is none — the legitimate
/// initial-release state.
pub fn find_previous_tag(sorted: &Vec<VersionTag>, current: &str) -> (r: Option<String>)
    ensures
        match r {
            Some(name) => {
                let i = first_other_idx(sorted@, current@);
                &&& 0 <= i < sorted@.len()
                &&& name@ == sorted@[i].name@
                &&& name@ != current@
            },
            None => first_other_idx(sorted@, current@) == -1,
        },
{
    let n = sorted.len();
    let mut i: usize = 0;
    while i < n
        invariant
            n == sorted.len(),
            0 <= i <= n,
            forall|j: int| 0 <= j < i ==> (#[trigger] sorted@[j]).name@ == current@,
        decreases n - i,
    {
        if !str_eq(sorted[i].name.as_str(), current) {
            proof {
                lemma_first_other_idx(sorted@, current@);
            }
            return Some(sorted[i].name.clone());
        }
        i += 1;
    }
    proof {
        lemma_first_other_idx(sorted@, current@);
    }
    None
}

proof fn lemma_first_other_idx(entries: Seq<VersionTag>, cur: Seq<char>)
    ensures
        first_other_idx(entries, cur) == -1 ==> forall|i: int|
            0 <= i < entries.len() ==> (#[trigger] entries[i]).name@ == cur,
        first_other_idx(entries, cur) != -1 ==> {
            &&& 0 <= first_other_idx(entries, cur) < entries.len()
            &&& entries[first_other_idx(entries, cur)].name@ != cur
            &&& forall|i: int|
                0 <= i < first_other_idx(entries, cur) ==> (#[trigger] entries[i]).name@ == cur
        },
        first_other_idx(entries, cur) != -1 ==> (forall|i: int|
            0 <= i < entries.len() && (#[trigger] entries[i]).name@ != cur ==> first_other_idx(
                entries,
                cur,
            ) <= i),
    decreases entries.len(),
{
    if entries.len() > 0 && entries[0].name@ == cur {
        let t = entries.drop_first();
        lemma_first_other_idx(t, cur);
        let r = first_other_idx(t, cur);
        assert(forall|i: int| 0 <= i < t.len() ==> #[trigger] t[i] == entries[i + 1]);
        if r < 0 {
            assert forall|i: int| 0 <= i < entries.len() implies (#[trigger] entries[i]).name@
                == cur by {
                if i > 0 {
                    assert(entries[i] == t[i - 1]);
                }
            }
        } else {
            assert(entries[r + 1] == t[r]);
            assert forall|i: int| 0 <= i < r + 1 implies (#[trigger] entries[i]).name@ == cur by {
                if i > 0 {
                    assert(entries[i] == t[i - 1]);
                }
            }
        }
    }
}

/// When the current tag heads the descending order and names are distinct,
/// the previous tag is the immediate descending neighbor: the second entry,
/// which every later entry fails to exceed; with a single entry the current
/// tag is the earliest and there is no previous tag.
pub proof fn lemma_previous_is_immediate_neighbor(entries: Seq<VersionTag>, cur: Seq<char>)
    requires
        entries.len() > 0,
        entries[0].name@ == cur,
        forall|i: int, j: int|
            0 <= i < j < entries.len() ==> (#[trigger] entries[i]).name@ != (
            #[trigger] entries[j]).name@,
        forall|i: int, j: int|
            0 <= i < j < entries.len() ==> !semver_lt(
                (#[trigger] entries[i]).version,
                (#[trigger] entries[j]).version,
            ),
    ensures
        entries.len() == 1 ==> first_other_idx(entries, cur) == -1,
        entries.len() > 1 ==> first_other_idx(entries, cur) == 1,
        entries.len() > 1 ==> forall|j: int|
            1 <= j < entries.len() ==> !semver_lt(
                entries[1].version,
                (#[trigger] entries[j]).version,
            ),
{
    lemma_first_other_idx(entries, cur);
    if entries.len() > 1 {
        assert(entries[1].name@ != cur);
        assert(first_other_idx(entries, cur) != -1);
        assert(first_other_idx(entries, cur) <= 1);
        if first_other_idx(entries, cur) == 0 {
            assert(entries[0].name@ == cur);
        }
        assert forall|j: int| 1 <= j < entries.len() implies !semver_lt(
            entries[1].version,
            (#[trigger] entries[j]).version,
        ) by {
            if j == 1 {
                crate::semver::lemma_semver_lt_irrefl(entries[1].version);
            }
        }
    }
}

/// The tag pointing at HEAD: an explicit override is used verbatim; otherwise
/// the first tag of the snapshot that resolves to the HEAD commit. With no
/// override and no match, the caller must name a tag: `NoTagOnHead`.
pub fn detect_current_tag(tags: &Vec<Tag>, head: &str, explicit: Option<&String>) -> (r: Result<
    String,
    Error,
>)
    ensures
        match explicit {
            Some(t) => r matches Ok(n) && n@ == t@,
            None => match r {
                Ok(n) => exists|i: int|
                    0 <= i < tags@.len() && (#[trigger] tags@[i]).target@ == head@ && n@
                        == tags@[i].name@ && forall|j: int|
                        0 <= j < i ==> (#[trigger] tags@[j]).target@ != head@,
                Err(e) => e == Error::NoTagOnHead && forall|i: int|
                    0 <= i < tags@.len() ==> (#[trigger] tags@[i]).target@ != head@,
            },
        },
{
    match explicit {
        Some(t) => Ok(t.clone()),
        None => {
            let n = tags.len();
            let mut i: usize = 0;
            while i < n
                invariant
                    n == tags.len(),
                    explicit is None,
                    0 <= i <= n,
                    forall|j: int| 0 <= j < i ==> (#[trigger] tags@[j]).target@ != head@,
                decreases n - i,
            {
                if str_eq(tags[i].target.as_str(), head) {
                    return Ok(tags[i].name.clone());
                }
                i += 1;
            }
            Err(Error::NoTagOnHead)
        },
    }
}

/// The commit a tag name resolves to in the snapshot, or `TagNotFound`.
pub fn resolve_tag(tags: &Vec<Tag>, name: &str) -> (r: Result<String, Error>)
    ensures
        match r {
            Ok(c) => exists|i: int|
                0 <= i < tags@.len() && (#[trigger] tags@[i]).name@ == name@ && c@
                    == tags@[i].target@ && forall|j: int|
                    0 <= j < i ==> (#[trigger] tags@[j]).name@ != name@,
            Err(e) => e == Error::TagNotFound && forall|i: int|
                0 <= i < tags@.len() ==> (#[trigger] tags@[i]).name@ != name@,
        },
{
    let n = tags.len();
    let mut i: usize = 0;
    while i < n
        invariant
            n == tags.len(),
            0 <= i <= n,
            forall|j: int| 0 <= j < i ==> (#[trigger] tags@[j]).name@ != name@,
        decreases n - i,
    {
        if str_eq(tags[i].name.as_str(), name) {
            return Ok(tags[i].target.clone());
        }
        i += 1;
    }
    Err(Error::TagNotFound)
}

/// Does the vector hold a string with this view?
pub fn contains_str(names: &Vec<String>, s: &str) -> (r: bool)
    ensures
        r == names.deep_view().contains(s@),
{
    let n = names.len();
    let mut i: usize = 0;
    while i < n
        invariant
            n == names.len(),
            0 <= i <= n,
            forall|j: int| 0 <= j < i ==> names.deep_view()[j] != s@,
        decreases n - i,
    {
        if str_eq(names[i].as_str(), s) {
            proof {
                assert(names.deep_view()[i as int] == s@);
            }
            return true;
        }
        i += 1;
    }
    proof {
        if names.deep_view().contains(s@) {
            let j = choose|j: int| 0 <= j < names.deep_view().len() && names.deep_view()[j] == s@;
            assert(false);
        }
    }
    false
}

} // verus!
