//! Reading and rewriting the manifest's `version:` line.
//!
//! The version is found by a structured document parse first, with a fallback
//! scan for the first `version:` line; a bump rewrites only that line's value
//! and leaves every other byte of the manifest untouched.

use vstd::prelude::*;

use crate::semver::{
    bump, bumped_render, build_counter_str, parse_semver, parsed_build, parsed_major,
    parsed_minor, parsed_patch, render, valid_semver, VersionPart,
};
use crate::text::{occurs_at, split_on, split_spec, substr, trim, trim_spec, join_spec, join_with};
use crate::Error;

verus! {

/// What a structured parse of the manifest yields for its `version` key: the
/// key's string value when the text parses as a document and has one.
pub uninterp spec fn yaml_version_of(content: Seq<char>) -> Option<Seq<char>>;

/// Relies on serde_yaml's `from_str`, `Value::get` and `Value::as_str`: the
/// string value of the document's top-level `version` key, when the text
/// parses as YAML and that key holds a string.
#[verifier::external_body]
fn yaml_version_field(content: &str) -> (r: Option<String>)
    ensures
        r.deep_view() == yaml_version_of(content@),
{
    match serde_yaml::from_str::<serde_yaml::Value>(content) {
        Ok(doc) => match doc.get("version").and_then(|v| v.as_str()) {
            Some(s) => Some(s.to_string()),
            None => None,
        },
        Err(_) => None,
    }
}

/// The eight characters that open a version line.
pub open spec fn version_line_prefix() -> Seq<char> {
    seq!['v', 'e', 'r', 's', 'i', 'o', 'n', ':']
}

/// A line that declares the version: `version:` at the start, with at least
/// one character after the colon.
pub open spec fn is_version_line(l: Seq<char>) -> bool {
    l.len() > 8 && l.take(8) == version_line_prefix()
}

/// Index of the first version line, or -1.
pub open spec fn first_version_line(lines: Seq<Seq<char>>) -> int
    decreases lines.len(),
{
    if lines.len() == 0 {
        -1
    } else if is_version_line(lines[0]) {
        0
    } else {
        let r = first_version_line(lines.drop_first());
        if r < 0 {
            -1
        } else {
            r + 1
        }
    }
}

pub proof fn lemma_first_version_line(lines: Seq<Seq<char>>)
    ensures
        first_version_line(lines) == -1 ==> forall|i: int|
            0 <= i < lines.len() ==> !is_version_line(#[trigger] lines[i]),
        first_version_line(lines) != -1 ==> {
            &&& 0 <= first_version_line(lines) < lines.len()
            &&& is_version_line(lines[first_version_line(lines)])
            &&& forall|i: int|
                0 <= i < first_version_line(lines) ==> !is_version_line(#[trigger] lines[i])
        },
    decreases lines.len(),
{
    if lines.len() > 0 && !is_version_line(lines[0]) {
        let t = lines.drop_first();
        lemma_first_version_line(t);
        let r = first_version_line(t);
        if r < 0 {
            assert forall|i: int| 0 <= i < lines.len() implies !is_version_line(
                #[trigger] lines[i],
            ) by {
                if i > 0 {
                    assert(lines[i] == t[i - 1]);
                }
            }
        } else {
            assert(lines[r + 1] == t[r]);
            assert forall|i: int| 0 <= i < r + 1 implies !is_version_line(#[trigger] lines[i]) by {
                if i > 0 {
                    assert(lines[i] == t[i - 1]);
                }
            }
        }
    }
}

/// The trimmed value of the first version line, if the manifest has one.
pub open spec fn manifest_line_value(content: Seq<char>) -> Option<Seq<char>> {
    let lines = split_spec(content, '\n');
    let i = first_version_line(lines);
    if i < 0 {
        None
    } else {
        Some(trim_spec(lines[i].skip(8)))
    }
}

/// The fallback reading: the first version line's value, when nonempty.
pub open spec fn fallback_version(content: Seq<char>) -> Option<Seq<char>> {
    match manifest_line_value(content) {
        Some(v) => if v.len() > 0 {
            Some(v)
        } else {
            None
        },
        None => None,
    }
}

/// The version string a manifest declares: the structured parse's `version`
/// value (trimmed) when it is nonempty, else the fallback line scan.
pub open spec fn version_of_manifest(content: Seq<char>) -> Option<Seq<char>> {
    match yaml_version_of(content) {
        Some(v) => if trim_spec(v).len() > 0 {
            Some(trim_spec(v))
        } else {
            fallback_version(content)
        },
        None => fallback_version(content),
    }
}

/// Executable version-line test.
fn is_version_line_exec(l: &str) -> (r: bool)
    ensures
        r == is_version_line(l@),
{
    let n = l.unicode_len();
    if n <= 8 {
        return false;
    }
    proof {
        reveal_strlit("version:");
        assert("version:"@ =~= version_line_prefix());
    }
    let r = occurs_at(l, "version:", 0);
    proof {
        assert(l@.subrange(0, 8) =~= l@.take(8));
    }
    r
}

/// Read the version a manifest declares, or `None` when it has none — the
/// callers treat that as "version unknown", not as an error.
pub fn read_pubspec_version(content: &str) -> (r: Option<String>)
    ensures
        match r {
            Some(v) => version_of_manifest(content@) == Some(v@),
            None => version_of_manifest(content@) is None,
        },
{
    match yaml_version_field(content) {
        Some(v) => {
            let t = trim(v.as_str());
            if t.unicode_len() > 0 {
                return Some(t);
            }
        },
        None => {},
    }
    let lines = split_on(content, '\n');
    let n = lines.len();
    let mut i: usize = 0;
    while i < n
        invariant
            n == lines.len(),
            lines.deep_view() == split_spec(content@, '\n'),
            0 <= i <= n,
            forall|j: int| 0 <= j < i ==> !is_version_line(#[trigger] lines.deep_view()[j]),
            match yaml_version_of(content@) {
                Some(v) => trim_spec(v).len() == 0,
                None => true,
            },
        decreases n - i,
    {
        let line = &lines[i];
        if is_version_line_exec(line.as_str()) {
            let llen = line.as_str().unicode_len();
            let val = trim(substr(line.as_str(), 8, llen).as_str());
            proof {
                assert(lines.deep_view()[i as int] == lines@[i as int]@);
                lemma_first_version_line(lines.deep_view());
                assert(first_version_line(lines.deep_view()) == i as int) by {
                    let fv = first_version_line(lines.deep_view());
                    if fv < i as int {
                    } else if fv > i as int {
                    }
                }
                assert(line@.subrange(8, llen as int) =~= line@.skip(8));
            }
            if val.unicode_len() > 0 {
                return Some(val);
            } else {
                return None;
            }
        }
        proof {
            assert(lines.deep_view()[i as int] == lines@[i as int]@);
        }
        i += 1;
    }
    proof {
        lemma_first_version_line(lines.deep_view());
        assert(first_version_line(lines.deep_view()) == -1) by {
            let fv = first_version_line(lines.deep_view());
            if fv >= 0 {
            }
        }
    }
    None
}

/// The result of a manifest bump.
#[derive(Debug, Clone, PartialEq, Eq)]
pub enum BumpOutcome {
    /// The manifest has no version line; nothing to rewrite.
    NoVersionLine,
    /// The rewritten manifest text and the new version string.
    Bumped { content: String, version: String },
}

/// The bumped part's counter stays within machine range.
pub open spec fn bump_part_ok(content: Seq<char>, part: VersionPart) -> bool {
    match manifest_line_value(content) {
        Some(vs) => valid_semver(vs) ==> match part {
            VersionPart::Major => parsed_major(vs) < u64::MAX,
            VersionPart::Minor => parsed_minor(vs) < u64::MAX,
            VersionPart::Patch => parsed_patch(vs) < u64::MAX,
            VersionPart::Build => build_counter_str(parsed_build(vs)) < u64::MAX,
        },
        None => true,
    }
}

/// Bump the version declared on the manifest's first `version:` line.
///
/// Exactly that line is replaced by `version: ` followed by the new version;
/// every other line is kept, in order. A manifest without a version line is
/// reported as such; a version value that does not parse is `InvalidSemver`.
pub fn bump_manifest(content: &str, part: VersionPart) -> (r: Result<BumpOutcome, Error>)
    requires
        bump_part_ok(content@, part),
    ensures
        ({
            let lines = split_spec(content@, '\n');
            let idx = first_version_line(lines);
            match manifest_line_value(content@) {
                None => r == Ok::<BumpOutcome, Error>(BumpOutcome::NoVersionLine),
                Some(vs) => {
                    &&& !valid_semver(vs) ==> r == Err::<BumpOutcome, Error>(Error::InvalidSemver)
                    &&& valid_semver(vs) ==> (r matches Ok(
                        BumpOutcome::Bumped { content: c, version: ver },
                    ) && ver@ == bumped_render(vs, part) && c@ == join_spec(
                        lines.update(
                            idx,
                            version_line_prefix() + seq![' '] + bumped_render(vs, part),
                        ),
                        seq!['\n'],
                    ))
                },
            }
        }),
{
    let lines = split_on(content, '\n');
    let n = lines.len();
    let mut i: usize = 0;
    while i < n
        invariant
            n == lines.len(),
            lines.deep_view() == split_spec(content@, '\n'),
            bump_part_ok(content@, part),
            0 <= i <= n,
            forall|j: int| 0 <= j < i ==> !is_version_line(#[trigger] lines.deep_view()[j]),
        decreases n - i,
    {
        let line = &lines[i];
        if is_version_line_exec(line.as_str()) {
            proof {
                assert(lines.deep_view()[i as int] == lines@[i as int]@);
                lemma_first_version_line(lines.deep_view());
                assert(first_version_line(lines.deep_view()) == i as int) by {
                    let fv = first_version_line(lines.deep_view());
                    if fv < i as int {
                    } else if fv > i as int {
                    }
                }
            }
            let llen = line.as_str().unicode_len();
            let val = trim(substr(line.as_str(), 8, llen).as_str());
            proof {
                assert(line@.subrange(8, llen as int) =~= line@.skip(8));
                assert(manifest_line_value(content@) == Some(val@));
            }
            let v = match parse_semver(val.as_str()) {
                Ok(v) => v,
                Err(_) => {
                    return Err(Error::InvalidSemver);
                },
            };
            let ghost vs = val@;
            let bumped = bump(v, part);
            let ver = render(&bumped);
            proof {
                if part != VersionPart::Build {
                    assert(bumped.pre_view() =~~= Seq::<Seq<char>>::empty());
                }
                assert(ver@ == bumped_render(vs, part));
            }
            // rebuild the manifest with only this line replaced
            let mut new_line = String::new();
            proof {
                reveal_strlit("version: ");
                assert("version: "@ =~= version_line_prefix() + seq![' ']);
            }
            new_line.append("version: ");
            new_line.append(ver.as_str());
            let mut new_lines: Vec<String> = Vec::new();
            let mut k: usize = 0;
            let ghost target = lines.deep_view().update(i as int, new_line@);
            while k < n
                invariant
                    n == lines.len(),
                    0 <= k <= n,
                    i < n,
                    target == lines.deep_view().update(i as int, new_line@),
                    new_lines.deep_view() =~~= target.take(k as int),
                decreases n - k,
            {
                let ghost prev = new_lines.deep_view();
                if k == i {
                    new_lines.push(new_line.clone());
                } else {
                    new_lines.push(lines[k].clone());
                }
                proof {
                    assert(new_lines.deep_view() =~~= prev.push(target[k as int]));
                    assert(target.take(k + 1) =~~= target.take(k as int).push(target[k as int]));
                }
                k += 1;
            }
            proof {
                assert(target.take(n as int) =~~= target);
            }
            let new_content = join_with(&new_lines, "\n");
            proof {
                reveal_strlit("\n");
                assert("\n"@ =~= seq!['\n']);
                assert(new_line@ =~= version_line_prefix() + seq![' '] + bumped_render(vs, part));
            }
            return Ok(BumpOutcome::Bumped { content: new_content, version: ver });
        }
        proof {
            assert(lines.deep_view()[i as int] == lines@[i as int]@);
        }
        i += 1;
    }
    proof {
        lemma_first_version_line(lines.deep_view());
        assert(first_version_line(lines.deep_view()) == -1) by {
            let fv = first_version_line(lines.deep_view());
            if fv >= 0 {
            }
        }
    }
    Ok(BumpOutcome::NoVersionLine)
}

} // verus!
