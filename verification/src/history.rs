//! Mainline commit-history extraction: walk first-parent ancestry from HEAD,
//! stop at a boundary commit or a cap, skip merges, and format one line per
//! commit, newest first.

use vstd::prelude::*;

use crate::text::{is_digit, str_eq, substr};
use crate::Error;

verus! {

/// A commit of the snapshot: its id, its parent ids in order (the first is
/// the mainline parent), and the first line of its message.
#[derive(Debug, Clone)]
pub struct Commit {
    pub id: String,
    pub parent_ids: Vec<String>,
    pub summary: String,
}

/// A lowercase hexadecimal digit.
pub open spec fn is_hex_char(c: char) -> bool {
    is_digit(c) || ('a' <= c && c <= 'f')
}

/// A full commit id: forty hexadecimal characters.
pub open spec fn valid_commit_id(s: Seq<char>) -> bool {
    s.len() == 40 && forall|i: int| 0 <= i < s.len() ==> is_hex_char(#[trigger] s[i])
}

pub open spec fn commits_wf(cs: Seq<Commit>) -> bool {
    forall|i: int| 0 <= i < cs.len() ==> valid_commit_id((#[trigger] cs[i]).id@)
}

/// The six characters that mark a merge summary.
pub open spec fn merge_prefix() -> Seq<char> {
    seq!['M', 'e', 'r', 'g', 'e', ' ']
}

/// A merge commit: more than one parent, or a summary starting `Merge `.
pub open spec fn is_merge(c: Commit) -> bool {
    c.parent_ids.len() > 1 || (c.summary@.len() >= 6 && c.summary@.take(6) == merge_prefix())
}

/// The formatted log line of a commit: its first seven id characters, a
/// space, and the summary.
pub open spec fn commit_line(c: Commit) -> Seq<char> {
    c.id@.take(7) + seq![' '] + c.summary@
}

/// Index of the first commit with this id, or -1.
pub open spec fn commit_idx(cs: Seq<Commit>, id: Seq<char>) -> int
    decreases cs.len(),
{
    if cs.len() == 0 {
        -1
    } else if cs[0].id@ == id {
        0
    } else {
        let r = commit_idx(cs.drop_first(), id);
        if r < 0 {
            -1
        } else {
            r + 1
        }
    }
}

proof fn lemma_commit_idx(cs: Seq<Commit>, id: Seq<char>)
    ensures
        commit_idx(cs, id) == -1 ==> forall|i: int|
            0 <= i < cs.len() ==> (#[trigger] cs[i]).id@ != id,
        commit_idx(cs, id) != -1 ==> {
            &&& 0 <= commit_idx(cs, id) < cs.len()
            &&& cs[commit_idx(cs, id)].id@ == id
            &&& forall|i: int| 0 <= i < commit_idx(cs, id) ==> (#[trigger] cs[i]).id@ != id
        },
    decreases cs.len(),
{
    if cs.len() > 0 && cs[0].id@ != id {
        let t = cs.drop_first();
        lemma_commit_idx(t, id);
        let r = commit_idx(t, id);
        assert(forall|i: int| 0 <= i < t.len() ==> #[trigger] t[i] == cs[i + 1]);
        if r < 0 {
            assert forall|i: int| 0 <= i < cs.len() implies (#[trigger] cs[i]).id@ != id by {
                if i > 0 {
                    assert(cs[i] == t[i - 1]);
                }
            }
        } else {
            assert(cs[r + 1] == t[r]);
            assert forall|i: int| 0 <= i < r + 1 implies (#[trigger] cs[i]).id@ != id by {
                if i > 0 {
                    assert(cs[i] == t[i - 1]);
                }
            }
        }
    }
}

/// The walk: starting at `cur`, follow first parents. Stop before emitting
/// the boundary commit, when the emission cap is exhausted, or when the
/// current id is unknown (the root's parent, or a truncated snapshot). A
/// merge commit is skipped without consuming the cap. `fuel` bounds the steps
/// and exceeds any acyclic ancestry when it starts above the snapshot size.
pub open spec fn walk_spec(
    cs: Seq<Commit>,
    cur: Seq<char>,
    boundary: Option<Seq<char>>,
    cap: nat,
    fuel: nat,
) -> Seq<Seq<char>>
    decreases fuel,
{
    if fuel == 0 {
        Seq::empty()
    } else if boundary matches Some(b) && cur == b {
        Seq::empty()
    } else if cap == 0 {
        Seq::empty()
    } else {
        let i = commit_idx(cs, cur);
        if i < 0 {
            Seq::empty()
        } else {
            let c = cs[i];
            if c.parent_ids.len() == 0 {
                if is_merge(c) {
                    Seq::empty()
                } else {
                    seq![commit_line(c)]
                }
            } else {
                let parent = c.parent_ids.deep_view()[0];
                if is_merge(c) {
                    walk_spec(cs, parent, boundary, cap, (fuel - 1) as nat)
                } else {
                    seq![commit_line(c)] + walk_spec(
                        cs,
                        parent,
                        boundary,
                        (cap - 1) as nat,
                        (fuel - 1) as nat,
                    )
                }
            }
        }
    }
}

/// The full extraction: the walk from `head` with enough fuel for the whole
/// snapshot.
pub open spec fn history_spec(
    cs: Seq<Commit>,
    head: Seq<char>,
    boundary: Option<Seq<char>>,
    cap: nat,
) -> Seq<Seq<char>> {
    walk_spec(cs, head, boundary, cap, (cs.len() + 1) as nat)
}

/// The line of some non-merge, non-boundary commit of the snapshot.
pub open spec fn line_from_snapshot(
    cs: Seq<Commit>,
    boundary: Option<Seq<char>>,
    line: Seq<char>,
) -> bool {
    exists|i: int|
        {
            &&& 0 <= i < cs.len()
            &&& !is_merge(#[trigger] cs[i])
            &&& line == commit_line(cs[i])
            &&& (boundary matches Some(b) ==> cs[i].id@ != b)
        }
}

/// The extracted history never exceeds the cap, and every line is the line of
/// a non-merge commit of the snapshot that is not the boundary commit.
pub proof fn lemma_walk_properties(
    cs: Seq<Commit>,
    cur: Seq<char>,
    boundary: Option<Seq<char>>,
    cap: nat,
    fuel: nat,
)
    ensures
        walk_spec(cs, cur, boundary, cap, fuel).len() <= cap,
        forall|k: int|
            0 <= k < walk_spec(cs, cur, boundary, cap, fuel).len() ==> line_from_snapshot(
                cs,
                boundary,
                #[trigger] walk_spec(cs, cur, boundary, cap, fuel)[k],
            ),
    decreases fuel,
{
    let w = walk_spec(cs, cur, boundary, cap, fuel);
    if fuel == 0 {
    } else if boundary matches Some(b) && cur == b {
    } else if cap == 0 {
    } else {
        let i = commit_idx(cs, cur);
        lemma_commit_idx(cs, cur);
        if i >= 0 {
            let c = cs[i];
            if c.parent_ids.len() == 0 {
                if !is_merge(c) {
                    assert forall|k: int| 0 <= k < w.len() implies line_from_snapshot(
                        cs,
                        boundary,
                        #[trigger] w[k],
                    ) by {
                        assert(w[k] == commit_line(cs[i]));
                        assert(cs[i].id@ == cur);
                        assert(!is_merge(cs[i]));
                    }
                }
            } else {
                let parent = c.parent_ids.deep_view()[0];
                if is_merge(c) {
                    let sub = walk_spec(cs, parent, boundary, cap, (fuel - 1) as nat);
                    lemma_walk_properties(cs, parent, boundary, cap, (fuel - 1) as nat);
                    assert forall|k: int| 0 <= k < w.len() implies line_from_snapshot(
                        cs,
                        boundary,
                        #[trigger] w[k],
                    ) by {
                        assert(w[k] == sub[k]);
                        assert(line_from_snapshot(cs, boundary, sub[k]));
                    }
                } else {
                    let rest = walk_spec(cs, parent, boundary, (cap - 1) as nat, (fuel - 1) as nat);
                    lemma_walk_properties(cs, parent, boundary, (cap - 1) as nat, (fuel - 1) as nat);
                    assert forall|k: int| 0 <= k < w.len() implies line_from_snapshot(
                        cs,
                        boundary,
                        #[trigger] w[k],
                    ) by {
                        if k == 0 {
                            assert(w[0] == commit_line(cs[i]));
                            assert(cs[i].id@ == cur);
                            assert(!is_merge(cs[i]));
                        } else {
                            assert(w[k] == rest[k - 1]);
                            assert(line_from_snapshot(cs, boundary, rest[k - 1]));
                        }
                    }
                }
            }
        }
    }
}

/// Find the first commit with this id.
fn find_commit(commits: &Vec<Commit>, id: &str) -> (r: Option<usize>)
    ensures
        match r {
            Some(i) => i == commit_idx(commits@, id@),
            None => commit_idx(commits@, id@) == -1,
        },
{
    let n = commits.len();
    let mut i: usize = 0;
    while i < n
        invariant
            n == commits.len(),
            0 <= i <= n,
            forall|j: int| 0 <= j < i ==> (#[trigger] commits@[j]).id@ != id@,
        decreases n - i,
    {
        if str_eq(commits[i].id.as_str(), id) {
            proof {
                lemma_commit_idx(commits@, id@);
            }
            return Some(i);
        }
        i += 1;
    }
    proof {
        lemma_commit_idx(commits@, id@);
    }
    None
}

/// One step view of an optional boundary.
pub open spec fn opt_view(b: Option<&String>) -> Option<Seq<char>> {
    match b {
        Some(s) => Some(s@),
        None => None,
    }
}

/// The recursive walk, mirroring `walk_spec`.
fn walk_exec(
    commits: &Vec<Commit>,
    cur: &str,
    boundary: Option<&String>,
    cap: usize,
    fuel: usize,
) -> (r: Vec<String>)
    requires
        commits_wf(commits@),
    ensures
        r.deep_view() == walk_spec(commits@, cur@, opt_view(boundary), cap as nat, fuel as nat),
    decreases fuel,
{
    let mut out: Vec<String> = Vec::new();
    if fuel == 0 {
        proof {
            assert(out.deep_view() =~~= Seq::<Seq<char>>::empty());
        }
        return out;
    }
    match boundary {
        Some(b) => {
            if str_eq(cur, b.as_str()) {
                proof {
                    assert(out.deep_view() =~~= Seq::<Seq<char>>::empty());
                }
                return out;
            }
        },
        None => {},
    }
    if cap == 0 {
        proof {
            assert(out.deep_view() =~~= Seq::<Seq<char>>::empty());
        }
        return out;
    }
    let i = match find_commit(commits, cur) {
        Some(i) => i,
        None => {
            proof {
                assert(out.deep_view() =~~= Seq::<Seq<char>>::empty());
            }
            return out;
        },
    };
    proof {
        lemma_commit_idx(commits@, cur@);
    }
    let c = &commits[i];
    let merge = is_merge_exec(c);
    if c.parent_ids.len() == 0 {
        if merge {
            proof {
                assert(out.deep_view() =~~= Seq::<Seq<char>>::empty());
            }
            return out;
        }
        let line = format_line(c);
        out.push(line);
        proof {
            assert(out.deep_view() =~~= seq![commit_line(commits@[i as int])]);
        }
        return out;
    }
    let parent = &c.parent_ids[0];
    proof {
        assert(c.parent_ids.deep_view()[0] == c.parent_ids@[0]@);
    }
    if merge {
        let r = walk_exec(commits, parent.as_str(), boundary, cap, fuel - 1);
        return r;
    }
    let line = format_line(c);
    let rest = walk_exec(commits, parent.as_str(), boundary, cap - 1, fuel - 1);
    out.push(line);
    let mut k: usize = 0;
    let n = rest.len();
    while k < n
        invariant
            n == rest.len(),
            0 <= k <= n,
            out.deep_view() =~~= seq![commit_line(commits@[i as int])] + rest.deep_view().take(
                k as int,
            ),
        decreases n - k,
    {
        let ghost prev = out.deep_view();
        out.push(rest[k].clone());
        proof {
            assert(out.deep_view() =~~= prev.push(rest.deep_view()[k as int]));
            assert(rest.deep_view().take(k + 1) =~~= rest.deep_view().take(k as int).push(
                rest.deep_view()[k as int],
            ));
        }
        k += 1;
    }
    proof {
        assert(rest.deep_view().take(n as int) =~~= rest.deep_view());
        assert(out.deep_view() =~~= walk_spec(
            commits@,
            cur@,
            opt_view(boundary),
            cap as nat,
            fuel as nat,
        ));
    }
    out
}

/// Executable merge test.
fn is_merge_exec(c: &Commit) -> (r: bool)
    ensures
        r == is_merge(*c),
{
    if c.parent_ids.len() > 1 {
        return true;
    }
    proof {
        reveal_strlit("Merge ");
        assert("Merge "@ =~= merge_prefix());
    }
    let r = crate::text::starts_with(c.summary.as_str(), "Merge ");
    proof {
        if r {
            assert(c.summary@.take(6) =~= merge_prefix());
        } else {
            if c.summary@.len() >= 6 && c.summary@.take(6) == merge_prefix() {
                assert(merge_prefix().is_prefix_of(c.summary@));
            }
        }
    }
    r
}

/// Format one log line.
fn format_line(c: &Commit) -> (r: String)
    requires
        valid_commit_id(c.id@),
    ensures
        r@ == commit_line(*c),
{
    let mut out = substr(c.id.as_str(), 0, 7);
    proof {
        reveal_strlit(" ");
        assert(" "@ =~= seq![' ']);
        assert(c.id@.subrange(0, 7) =~= c.id@.take(7));
    }
    out.append(" ");
    out.append(c.summary.as_str());
    proof {
        assert(out@ =~= commit_line(*c));
    }
    out
}

/// Extract the mainline history between HEAD and an optional boundary tag
/// commit: newest first, boundary excluded, merges skipped without consuming
/// the cap, at most `max_commits` lines, each `7-char id` + space + summary.
/// An empty range is `NoCommitsFound`.
pub fn extract_history(
    commits: &Vec<Commit>,
    head: &String,
    boundary: Option<&String>,
    max_commits: usize,
) -> (r: Result<Vec<String>, Error>)
    requires
        commits_wf(commits@),
        commits.len() < usize::MAX,
    ensures
        match r {
            Ok(lines) => {
                &&& lines.deep_view() == history_spec(
                    commits@,
                    head@,
                    opt_view(boundary),
                    max_commits as nat,
                )
                &&& lines.len() > 0
                &&& lines.len() <= max_commits
            },
            Err(e) => {
                &&& e == Error::NoCommitsFound
                &&& history_spec(commits@, head@, opt_view(boundary), max_commits as nat).len()
                    == 0
            },
        },
{
    let fuel = commits.len() + 1;
    let lines = walk_exec(commits, head.as_str(), boundary, max_commits, fuel);
    proof {
        lemma_walk_properties(
            commits@,
            head@,
            opt_view(boundary),
            max_commits as nat,
            fuel as nat,
        );
    }
    if lines.len() == 0 {
        Err(Error::NoCommitsFound)
    } else {
        Ok(lines)
    }
}

} // verus!
