//! Semantic versions: grammar, parsing, rendering, precedence and bumping.
//!
//! A version is `MAJOR.MINOR.PATCH[-PRERELEASE][+BUILD]`. The numeric triple
//! must have no leading zeros and fit in `u64`; prerelease identifiers are
//! dot-separated, nonempty, drawn from `[0-9A-Za-z-]`, and purely numeric ones
//! must have no leading zeros; build identifiers are dot-separated, nonempty
//! and drawn from `[0-9A-Za-z-]`. Precedence ignores build metadata.

use vstd::prelude::*;

use crate::text::{
    all_digits, all_ident_chars, dec_str, dec_value, digit_val, find_idx, is_numeric, join_spec,
    parse_u64, split_on, split_spec, substr, u64_to_dec, find_char, is_digit_exec,
    is_ident_char_exec, join_with, lemma_split_no_sep,
};
use crate::Error;

verus! {

/// The parts of a semantic version that a bump can target.
#[derive(Copy, Clone, PartialEq, Eq, Structural, Debug)]
pub enum VersionPart {
    Major,
    Minor,
    Patch,
    Build,
}

/// A parsed semantic version. `build` is kept verbatim (it may contain dots);
/// `pre` holds the dot-separated prerelease identifiers.
#[derive(Debug, Clone)]
pub struct SemVer {
    pub major: u64,
    pub minor: u64,
    pub patch: u64,
    pub pre: Vec<String>,
    pub build: Option<String>,
}

// ---------------------------------------------------------------------------
// validity
// ---------------------------------------------------------------------------

/// A numeral of the version core: nonempty digits, no leading zero, fits u64.
pub open spec fn valid_num(s: Seq<char>) -> bool {
    &&& is_numeric(s)
    &&& (s.len() > 1 ==> s[0] != '0')
    &&& dec_value(s) <= u64::MAX
}

/// A prerelease identifier: nonempty, `[0-9A-Za-z-]`, and if purely numeric,
/// no leading zero.
pub open spec fn valid_pre_ident(s: Seq<char>) -> bool {
    &&& s.len() > 0
    &&& all_ident_chars(s)
    &&& (all_digits(s) && s.len() > 1 ==> s[0] != '0')
}

/// A build identifier: nonempty, `[0-9A-Za-z-]` (leading zeros allowed).
pub open spec fn valid_build_ident(s: Seq<char>) -> bool {
    s.len() > 0 && all_ident_chars(s)
}

/// Valid build metadata: dot-separated build identifiers.
pub open spec fn valid_build(s: Seq<char>) -> bool {
    forall|i: int|
        0 <= i < split_spec(s, '.').len() ==> valid_build_ident(#[trigger] split_spec(s, '.')[i])
}

/// Valid prerelease text: dot-separated prerelease identifiers.
pub open spec fn valid_pre(s: Seq<char>) -> bool {
    forall|i: int|
        0 <= i < split_spec(s, '.').len() ==> valid_pre_ident(#[trigger] split_spec(s, '.')[i])
}

impl SemVer {
    /// The prerelease identifiers as a sequence of character sequences.
    pub open spec fn pre_view(&self) -> Seq<Seq<char>> {
        self.pre.deep_view()
    }

    /// The build metadata as an optional character sequence.
    pub open spec fn build_view(&self) -> Option<Seq<char>> {
        match self.build {
            Some(b) => Some(b@),
            None => None,
        }
    }

    /// Structural invariant: all stored identifiers obey the grammar.
    pub open spec fn wf(&self) -> bool {
        &&& forall|i: int|
            0 <= i < self.pre_view().len() ==> valid_pre_ident(#[trigger] self.pre_view()[i])
        &&& match self.build_view() {
            Some(b) => valid_build(b),
            None => true,
        }
    }
}

// ---------------------------------------------------------------------------
// grammar over whole strings
// ---------------------------------------------------------------------------

/// Everything before the first `+` (the core and prerelease).
pub open spec fn sv_head(s: Seq<char>) -> Seq<char> {
    let i = find_idx(s, '+');
    if i < 0 {
        s
    } else {
        s.subrange(0, i)
    }
}

/// Everything after the first `+`, if any.
pub open spec fn sv_build_part(s: Seq<char>) -> Option<Seq<char>> {
    let i = find_idx(s, '+');
    if i < 0 {
        None
    } else {
        Some(s.subrange(i + 1, s.len() as int))
    }
}

/// The `MAJOR.MINOR.PATCH` triple of the head.
pub open spec fn sv_core(s: Seq<char>) -> Seq<char> {
    let h = sv_head(s);
    let i = find_idx(h, '-');
    if i < 0 {
        h
    } else {
        h.subrange(0, i)
    }
}

/// The prerelease text of the head, if any.
pub open spec fn sv_pre_part(s: Seq<char>) -> Option<Seq<char>> {
    let h = sv_head(s);
    let i = find_idx(h, '-');
    if i < 0 {
        None
    } else {
        Some(h.subrange(i + 1, h.len() as int))
    }
}

/// `s` conforms to the semantic-version grammar.
pub open spec fn valid_semver(s: Seq<char>) -> bool {
    let core_parts = split_spec(sv_core(s), '.');
    &&& core_parts.len() == 3
    &&& valid_num(core_parts[0])
    &&& valid_num(core_parts[1])
    &&& valid_num(core_parts[2])
    &&& match sv_pre_part(s) {
        Some(p) => valid_pre(p),
        None => true,
    }
    &&& match sv_build_part(s) {
        Some(b) => valid_build(b),
        None => true,
    }
}

/// The reading of a valid version string, field by field.
pub open spec fn parsed_major(s: Seq<char>) -> nat {
    dec_value(split_spec(sv_core(s), '.')[0])
}

pub open spec fn parsed_minor(s: Seq<char>) -> nat {
    dec_value(split_spec(sv_core(s), '.')[1])
}

pub open spec fn parsed_patch(s: Seq<char>) -> nat {
    dec_value(split_spec(sv_core(s), '.')[2])
}

pub open spec fn parsed_pre(s: Seq<char>) -> Seq<Seq<char>> {
    match sv_pre_part(s) {
        Some(p) => split_spec(p, '.'),
        None => Seq::empty(),
    }
}

pub open spec fn parsed_build(s: Seq<char>) -> Option<Seq<char>> {
    sv_build_part(s)
}

// ---------------------------------------------------------------------------
// parsing
// ---------------------------------------------------------------------------

/// Check one core numeral.
fn check_num(s: &str) -> (r: Option<u64>)
    ensures
        match r {
            Some(v) => valid_num(s@) && v == dec_value(s@),
            None => !valid_num(s@),
        },
{
    let n = s.unicode_len();
    if n > 1 && s.get_char(0) == '0' {
        return None;
    }
    parse_u64(s)
}

/// Check one prerelease identifier.
fn check_pre_ident(s: &str) -> (r: bool)
    ensures
        r == valid_pre_ident(s@),
{
    let n = s.unicode_len();
    if n == 0 {
        return false;
    }
    let mut digits_only = true;
    let mut i: usize = 0;
    while i < n
        invariant
            n == s@.len(),
            0 <= i <= n,
            all_ident_chars(s@.take(i as int)),
            digits_only == all_digits(s@.take(i as int)),
        decreases n - i,
    {
        let c = s.get_char(i);
        if !is_ident_char_exec(c) {
            assert(!all_ident_chars(s@));
            return false;
        }
        if !is_digit_exec(c) {
            digits_only = false;
        }
        proof {
            assert(s@.take(i + 1) =~= s@.take(i as int).push(s@[i as int]));
            if !crate::text::is_digit(s@[i as int]) {
                assert(!crate::text::is_digit(s@.take(i + 1)[i as int]));
            }
            if !all_digits(s@.take(i as int)) {
                let j = choose|j: int|
                    0 <= j < i && !crate::text::is_digit(#[trigger] s@.take(i as int)[j]);
                assert(!crate::text::is_digit(s@.take(i + 1)[j]));
            }
        }
        i += 1;
    }
    proof {
        assert(s@.take(n as int) =~= s@);
    }
    if digits_only && n > 1 && s.get_char(0) == '0' {
        return false;
    }
    true
}

/// Check one build identifier.
fn check_build_ident(s: &str) -> (r: bool)
    ensures
        r == valid_build_ident(s@),
{
    let n = s.unicode_len();
    if n == 0 {
        return false;
    }
    let mut i: usize = 0;
    while i < n
        invariant
            n == s@.len(),
            0 <= i <= n,
            all_ident_chars(s@.take(i as int)),
        decreases n - i,
    {
        if !is_ident_char_exec(s.get_char(i)) {
            assert(!all_ident_chars(s@));
            return false;
        }
        proof {
            assert(s@.take(i + 1) =~= s@.take(i as int).push(s@[i as int]));
        }
        i += 1;
    }
    proof {
        assert(s@.take(n as int) =~= s@);
    }
    true
}

/// Parse a semantic version. Returns `InvalidSemver` exactly on strings that
/// do not conform to the grammar.
pub fn parse_semver(s: &str) -> (r: Result<SemVer, Error>)
    ensures
        r.is_ok() <==> valid_semver(s@),
        match r {
            Ok(v) => {
                &&& v.wf()
                &&& v.major == parsed_major(s@)
                &&& v.minor == parsed_minor(s@)
                &&& v.patch == parsed_patch(s@)
                &&& v.pre_view() == parsed_pre(s@)
                &&& v.build_view() == parsed_build(s@)
            },
            Err(e) => e == Error::InvalidSemver,
        },
{
    let slen = s.unicode_len();
    // Split off build metadata at the first '+'.
    let (head, build) = match find_char(s, '+') {
        Some(i) => (substr(s, 0, i), Some(substr(s, i + 1, slen))),
        None => (substr(s, 0, slen), None),
    };
    proof {
        assert(s@.subrange(0, slen as int) =~= s@);
    }
    // Split the head into core and prerelease at the first '-'.
    let hlen = head.unicode_len();
    let (core, pre) = match find_char(head.as_str(), '-') {
        Some(i) => (substr(head.as_str(), 0, i), Some(substr(head.as_str(), i + 1, hlen))),
        None => (substr(head.as_str(), 0, hlen), None),
    };
    proof {
        assert(head@.subrange(0, hlen as int) =~= head@);
    }

    // The core triple.
    let core_parts = split_on(core.as_str(), '.');
    if core_parts.len() != 3 {
        return Err(Error::InvalidSemver);
    }
    let major = match check_num(core_parts[0].as_str()) {
        Some(v) => v,
        None => {
            return Err(Error::InvalidSemver);
        },
    };
    let minor = match check_num(core_parts[1].as_str()) {
        Some(v) => v,
        None => {
            return Err(Error::InvalidSemver);
        },
    };
    let patch = match check_num(core_parts[2].as_str()) {
        Some(v) => v,
        None => {
            return Err(Error::InvalidSemver);
        },
    };

    // Prerelease identifiers.
    let mut pre_idents: Vec<String> = Vec::new();
    match pre {
        Some(p) => {
            let parts = split_on(p.as_str(), '.');
            let n = parts.len();
            let mut i: usize = 0;
            proof {
                assert(pre_idents.deep_view() =~~= parts.deep_view().take(0));
            }
            while i < n
                invariant
                    n == parts.len(),
                    0 <= i <= n,
                    parts.deep_view() == split_spec(p@, '.'),
                    sv_pre_part(s@) == Some(p@),
                    pre_idents.deep_view() =~~= parts.deep_view().take(i as int),
                    forall|j: int|
                        0 <= j < i ==> valid_pre_ident(#[trigger] parts.deep_view()[j]),
                decreases n - i,
            {
                if !check_pre_ident(parts[i].as_str()) {
                    proof {
                        assert(parts.deep_view()[i as int] == parts[i as int]@);
                        assert(!valid_pre_ident(split_spec(p@, '.')[i as int]));
                        assert(i < split_spec(p@, '.').len());
                        assert(!valid_pre(p@));
                        assert(!valid_semver(s@));
                    }
                    return Err(Error::InvalidSemver);
                }
                let ghost prev = pre_idents.deep_view();
                pre_idents.push(parts[i].clone());
                proof {
                    assert(pre_idents.deep_view() =~~= prev.push(parts.deep_view()[i as int]));
                    assert(parts.deep_view().take(i + 1) =~~= parts.deep_view().take(
                        i as int,
                    ).push(parts.deep_view()[i as int]));
                }
                i += 1;
            }
            proof {
                assert(parts.deep_view().take(n as int) =~~= parts.deep_view());
            }
        },
        None => {},
    }

    // Build identifiers.
    match &build {
        Some(b) => {
            let parts = split_on(b.as_str(), '.');
            let n = parts.len();
            let mut i: usize = 0;
            while i < n
                invariant
                    n == parts.len(),
                    0 <= i <= n,
                    parts.deep_view() == split_spec(b@, '.'),
                    sv_build_part(s@) == Some(b@),
                    forall|j: int|
                        0 <= j < i ==> valid_build_ident(#[trigger] parts.deep_view()[j]),
                decreases n - i,
            {
                if !check_build_ident(parts[i].as_str()) {
                    proof {
                        assert(parts.deep_view()[i as int] == parts[i as int]@);
                        assert(!valid_build_ident(split_spec(b@, '.')[i as int]));
                    }
                    return Err(Error::InvalidSemver);
                }
                i += 1;
            }
        },
        None => {},
    }

    let v = SemVer { major, minor, patch, pre: pre_idents, build };
    proof {
        assert(v.pre_view() =~~= parsed_pre(s@));
    }
    Ok(v)
}

// ---------------------------------------------------------------------------
// rendering
// ---------------------------------------------------------------------------

/// Render version fields as `M.m.p[-pre][+build]`.
pub open spec fn render_parts(
    major: nat,
    minor: nat,
    patch: nat,
    pre: Seq<Seq<char>>,
    build: Option<Seq<char>>,
) -> Seq<char> {
    let core = dec_str(major) + seq!['.'] + dec_str(minor) + seq!['.'] + dec_str(patch);
    let with_pre = if pre.len() > 0 {
        core + seq!['-'] + join_spec(pre, seq!['.'])
    } else {
        core
    };
    match build {
        Some(b) => with_pre + seq!['+'] + b,
        None => with_pre,
    }
}

/// The rendered core and prerelease: `M.m.p[-pre]`. This is also the logical
/// tag name of a version (build metadata never appears in tag names).
pub open spec fn render_core_pre(v: SemVer) -> Seq<char> {
    render_parts(v.major as nat, v.minor as nat, v.patch as nat, v.pre_view(), None)
}

/// The full rendering: `M.m.p[-pre][+build]`.
pub open spec fn render_spec(v: SemVer) -> Seq<char> {
    render_parts(v.major as nat, v.minor as nat, v.patch as nat, v.pre_view(), v.build_view())
}

/// The logical tag core of a valid version string: its core and prerelease,
/// build metadata dropped.
pub open spec fn tag_core_of(vs: Seq<char>) -> Seq<char> {
    render_parts(parsed_major(vs), parsed_minor(vs), parsed_patch(vs), parsed_pre(vs), None)
}

/// A tag name's version text: an optional single leading `v` stripped.
pub open spec fn tag_version_str(name: Seq<char>) -> Seq<char> {
    if name.len() > 0 && name[0] == 'v' {
        name.drop_first()
    } else {
        name
    }
}

/// A tag name denoting a version: its version text is valid semver.
pub open spec fn is_version_tag(name: Seq<char>) -> bool {
    valid_semver(tag_version_str(name))
}

/// The numeric reading of optional build metadata: its value if it is a plain
/// numeral within `u64`, and 0 when absent or not numeric.
pub open spec fn build_counter_str(build: Option<Seq<char>>) -> nat {
    match build {
        Some(b) => if is_numeric(b) && dec_value(b) <= u64::MAX {
            dec_value(b)
        } else {
            0
        },
        None => 0,
    }
}

/// The rendering of a valid version string after one bump.
pub open spec fn bumped_render(vs: Seq<char>, part: VersionPart) -> Seq<char> {
    match part {
        VersionPart::Major => render_parts(
            parsed_major(vs) + 1,
            0,
            0,
            Seq::empty(),
            Some(dec_str(1)),
        ),
        VersionPart::Minor => render_parts(
            parsed_major(vs),
            parsed_minor(vs) + 1,
            0,
            Seq::empty(),
            Some(dec_str(1)),
        ),
        VersionPart::Patch => render_parts(
            parsed_major(vs),
            parsed_minor(vs),
            parsed_patch(vs) + 1,
            Seq::empty(),
            Some(dec_str(1)),
        ),
        VersionPart::Build => render_parts(
            parsed_major(vs),
            parsed_minor(vs),
            parsed_patch(vs),
            parsed_pre(vs),
            Some(dec_str(build_counter_str(parsed_build(vs)) + 1)),
        ),
    }
}

/// Render `M.m.p[-pre]`, the version's logical tag core.
pub fn render_core(v: &SemVer) -> (r: String)
    ensures
        r@ == render_core_pre(*v),
{
    proof {
        reveal_strlit(".");
        reveal_strlit("-");
        assert("."@ =~= seq!['.']);
        assert("-"@ =~= seq!['-']);
    }
    let mut out = u64_to_dec(v.major);
    out.append(".");
    let m = u64_to_dec(v.minor);
    out.append(m.as_str());
    out.append(".");
    let p = u64_to_dec(v.patch);
    out.append(p.as_str());
    if v.pre.len() > 0 {
        out.append("-");
        let joined = join_with(&v.pre, ".");
        out.append(joined.as_str());
    }
    proof {
        assert(out@ =~= render_core_pre(*v));
    }
    out
}

/// Render the full version string.
pub fn render(v: &SemVer) -> (r: String)
    ensures
        r@ == render_spec(*v),
{
    let mut out = render_core(v);
    match &v.build {
        Some(b) => {
            proof {
                reveal_strlit("+");
                assert("+"@ =~= seq!['+']);
            }
            out.append("+");
            out.append(b.as_str());
            proof {
                assert(out@ =~= render_spec(*v));
            }
        },
        None => {},
    }
    out
}

// ---------------------------------------------------------------------------
// bumping
// ---------------------------------------------------------------------------

/// The numeric reading of a version's build metadata.
pub open spec fn build_counter(v: SemVer) -> nat {
    build_counter_str(v.build_view())
}

/// Every canonical numeral is a nonempty digit string.
pub proof fn lemma_dec_str_digits(n: nat)
    ensures
        dec_str(n).len() >= 1,
        all_digits(dec_str(n)),
    decreases n,
{
    if n >= 10 {
        lemma_dec_str_digits(n / 10);
        assert forall|i: int| 0 <= i < dec_str(n).len() implies crate::text::is_digit(
            #[trigger] dec_str(n)[i],
        ) by {
            if i < dec_str(n / 10).len() {
                assert(dec_str(n)[i] == dec_str(n / 10)[i]);
            }
        }
    }
}

/// A canonical numeral is valid build metadata (one dot-free identifier).
pub proof fn lemma_dec_str_valid_build(n: nat)
    ensures
        valid_build(dec_str(n)),
{
    lemma_dec_str_digits(n);
    assert forall|i: int| 0 <= i < dec_str(n).len() implies dec_str(n)[i] != '.' by {
        assert(crate::text::is_digit(dec_str(n)[i]));
    }
    lemma_split_no_sep(dec_str(n), '.');
    assert forall|i: int| 0 <= i < split_spec(dec_str(n), '.').len() implies valid_build_ident(
        #[trigger] split_spec(dec_str(n), '.')[i],
    ) by {
        assert(split_spec(dec_str(n), '.')[0] == dec_str(n));
        assert forall|j: int| 0 <= j < dec_str(n).len() implies crate::text::is_ident_char(
            #[trigger] dec_str(n)[j],
        ) by {
            assert(crate::text::is_digit(dec_str(n)[j]));
        }
    }
}

/// Executable build counter.
pub fn read_build_counter(v: &SemVer) -> (r: u64)
    ensures
        r == build_counter(*v),
{
    match &v.build {
        Some(b) => match parse_u64(b.as_str()) {
            Some(n) => n,
            None => 0,
        },
        None => 0,
    }
}

/// Bump one part of a version.
///
/// Major, minor and patch bumps reset the lower core fields, clear the
/// prerelease, and reset the build counter to 1. A build bump increments the
/// numeric reading of the build metadata (0 when absent or non-numeric) and
/// leaves every other field unchanged.
pub fn bump(v: SemVer, part: VersionPart) -> (r: SemVer)
    requires
        v.wf(),
        part == VersionPart::Major ==> v.major < u64::MAX,
        part == VersionPart::Minor ==> v.minor < u64::MAX,
        part == VersionPart::Patch ==> v.patch < u64::MAX,
        part == VersionPart::Build ==> build_counter(v) < u64::MAX,
    ensures
        r.wf(),
        part == VersionPart::Major ==> r.major == v.major + 1 && r.minor == 0 && r.patch == 0,
        part == VersionPart::Minor ==> r.major == v.major && r.minor == v.minor + 1 && r.patch
            == 0,
        part == VersionPart::Patch ==> r.major == v.major && r.minor == v.minor && r.patch
            == v.patch + 1,
        part != VersionPart::Build ==> r.pre_view().len() == 0 && r.build_view() == Some(
            dec_str(1),
        ),
        part == VersionPart::Build ==> {
            &&& r.major == v.major
            &&& r.minor == v.minor
            &&& r.patch == v.patch
            &&& r.pre_view() == v.pre_view()
            &&& r.build_view() == Some(dec_str(build_counter(v) + 1))
        },
{
    proof {
        lemma_dec_str_valid_build(1);
        lemma_dec_str_valid_build(build_counter(v) + 1);
    }
    let r = match part {
        VersionPart::Major => SemVer {
            major: v.major + 1,
            minor: 0,
            patch: 0,
            pre: Vec::new(),
            build: Some(u64_to_dec(1)),
        },
        VersionPart::Minor => SemVer {
            major: v.major,
            minor: v.minor + 1,
            patch: 0,
            pre: Vec::new(),
            build: Some(u64_to_dec(1)),
        },
        VersionPart::Patch => SemVer {
            major: v.major,
            minor: v.minor,
            patch: v.patch + 1,
            pre: Vec::new(),
            build: Some(u64_to_dec(1)),
        },
        VersionPart::Build => {
            let n = read_build_counter(&v);
            SemVer {
                major: v.major,
                minor: v.minor,
                patch: v.patch,
                pre: v.pre,
                build: Some(u64_to_dec(n + 1)),
            }
        },
    };
    proof {
        if part != VersionPart::Build {
            assert(r.pre_view() =~~= Seq::<Seq<char>>::empty());
            assert(r.pre_view().len() == 0);
        } else {
            assert(r.pre_view() == v.pre_view());
            assert(forall|i: int|
                0 <= i < r.pre_view().len() ==> valid_pre_ident(#[trigger] r.pre_view()[i]));
        }
        assert(r.wf());
    }
    r
}

// ---------------------------------------------------------------------------
// precedence
// ---------------------------------------------------------------------------

/// Strict lexicographic order on character sequences by code point.
pub open spec fn lex_lt(a: Seq<char>, b: Seq<char>) -> bool
    decreases a.len() + b.len(),
{
    if b.len() == 0 {
        false
    } else if a.len() == 0 {
        true
    } else if (a[0] as u32) < (b[0] as u32) {
        true
    } else if a[0] == b[0] {
        lex_lt(a.drop_first(), b.drop_first())
    } else {
        false
    }
}

/// Strict precedence order on prerelease identifiers: numeric identifiers
/// compare by value and precede alphanumeric ones; alphanumeric identifiers
/// compare lexically.
pub open spec fn ident_lt(a: Seq<char>, b: Seq<char>) -> bool {
    if is_numeric(a) && is_numeric(b) {
        dec_value(a) < dec_value(b)
    } else if is_numeric(a) {
        true
    } else if is_numeric(b) {
        false
    } else {
        lex_lt(a, b)
    }
}

/// Strict order on prerelease identifier sequences: identifier by identifier,
/// a strict prefix preceding its extensions.
pub open spec fn pre_seq_lt(a: Seq<Seq<char>>, b: Seq<Seq<char>>) -> bool
    decreases a.len() + b.len(),
{
    if b.len() == 0 {
        false
    } else if a.len() == 0 {
        true
    } else if ident_lt(a[0], b[0]) {
        true
    } else if a[0] == b[0] {
        pre_seq_lt(a.drop_first(), b.drop_first())
    } else {
        false
    }
}

/// Strict semantic-version precedence: the core triple first, then the rule
/// that any prerelease precedes the release, then identifier order. Build
/// metadata never participates.
pub open spec fn semver_lt(a: SemVer, b: SemVer) -> bool {
    if a.major != b.major {
        a.major < b.major
    } else if a.minor != b.minor {
        a.minor < b.minor
    } else if a.patch != b.patch {
        a.patch < b.patch
    } else if a.pre_view().len() > 0 && b.pre_view().len() == 0 {
        true
    } else if a.pre_view().len() == 0 {
        false
    } else {
        pre_seq_lt(a.pre_view(), b.pre_view())
    }
}

/// Equal precedence: equal core and equal prerelease (build ignored).
pub open spec fn semver_eq(a: SemVer, b: SemVer) -> bool {
    a.major == b.major && a.minor == b.minor && a.patch == b.patch && a.pre_view() == b.pre_view()
}

// ---------------------------------------------------------------------------
// numeral order lemmas
// ---------------------------------------------------------------------------

pub open spec fn pow10(n: nat) -> nat
    decreases n,
{
    if n == 0 {
        1
    } else {
        10 * pow10((n - 1) as nat)
    }
}

proof fn lemma_pow10_pos(n: nat)
    ensures
        pow10(n) >= 1,
    decreases n,
{
    if n > 0 {
        lemma_pow10_pos((n - 1) as nat);
    }
}

proof fn lemma_pow10_mono(m: nat, n: nat)
    requires
        m <= n,
    ensures
        pow10(m) <= pow10(n),
    decreases n,
{
    if m < n {
        lemma_pow10_mono(m, (n - 1) as nat);
        lemma_pow10_pos((n - 1) as nat);
    }
}

proof fn lemma_dec_value_upper(s: Seq<char>)
    requires
        all_digits(s),
    ensures
        dec_value(s) < pow10(s.len() as nat),
    decreases s.len(),
{
    if s.len() > 0 {
        let t = s.drop_last();
        assert(all_digits(t)) by {
            assert(forall|i: int| 0 <= i < t.len() ==> t[i] == s[i]);
        }
        lemma_dec_value_upper(t);
        assert(crate::text::is_digit(s.last()));
        assert(digit_val(s.last()) <= 9);
        assert(dec_value(t) * 10 + 9 < pow10(t.len() as nat) * 10) by (nonlinear_arith)
            requires
                dec_value(t) < pow10(t.len() as nat),
        ;
        assert(pow10(s.len() as nat) == 10 * pow10(t.len() as nat));
    }
}

proof fn lemma_dec_value_lower(s: Seq<char>)
    requires
        all_digits(s),
        s.len() > 0,
        s[0] != '0',
    ensures
        dec_value(s) >= pow10((s.len() - 1) as nat),
    decreases s.len(),
{
    if s.len() == 1 {
        assert(crate::text::is_digit(s[0]));
        assert(digit_val(s[0]) >= 1);
        assert(dec_value(s) == dec_value(s.drop_last()) * 10 + digit_val(s.last()));
        assert(s.drop_last().len() == 0);
    } else {
        let t = s.drop_last();
        assert(all_digits(t)) by {
            assert(forall|i: int| 0 <= i < t.len() ==> t[i] == s[i]);
        }
        assert(t[0] == s[0]);
        lemma_dec_value_lower(t);
        assert(dec_value(t) * 10 >= pow10((t.len() - 1) as nat) * 10) by (nonlinear_arith)
            requires
                dec_value(t) >= pow10((t.len() - 1) as nat),
        ;
        assert(pow10((s.len() - 1) as nat) == 10 * pow10((s.len() - 2) as nat));
    }
}

/// A shorter numeral is smaller than a longer one without a leading zero.
proof fn lemma_numeral_len_order(a: Seq<char>, b: Seq<char>)
    requires
        all_digits(a),
        all_digits(b),
        a.len() < b.len(),
        b[0] != '0',
        b.len() > 0,
    ensures
        dec_value(a) < dec_value(b),
{
    lemma_dec_value_upper(a);
    lemma_pow10_mono(a.len() as nat, (b.len() - 1) as nat);
    lemma_dec_value_lower(b);
}

/// Reading a numeral from the front.
proof fn lemma_dec_value_front(s: Seq<char>)
    requires
        all_digits(s),
        s.len() > 0,
    ensures
        dec_value(s) == digit_val(s[0]) * pow10((s.len() - 1) as nat) + dec_value(s.drop_first()),
    decreases s.len(),
{
    if s.len() == 1 {
        assert(s.drop_last().len() == 0);
        assert(s.drop_first().len() == 0);
        assert(dec_value(s.drop_last()) == 0);
        assert(dec_value(s.drop_first()) == 0);
        assert(s.last() == s[0]);
        assert(dec_value(s) == digit_val(s[0]));
        assert(pow10((s.len() - 1) as nat) == 1);
        assert(dec_value(s) == digit_val(s[0]) * pow10((s.len() - 1) as nat) + dec_value(
            s.drop_first(),
        ));
    } else {
        let t = s.drop_last();
        assert(all_digits(t)) by {
            assert(forall|i: int| 0 <= i < t.len() ==> t[i] == s[i]);
        }
        assert(t[0] == s[0]);
        lemma_dec_value_front(t);
        let p = pow10((t.len() - 1) as nat);
        let d0 = digit_val(s[0]);
        let dl = digit_val(s.last());
        assert(dec_value(s) == dec_value(t) * 10 + dl);
        assert(dec_value(t) == d0 * p + dec_value(t.drop_first()));
        assert((d0 * p + dec_value(t.drop_first())) * 10 == d0 * (p * 10) + dec_value(
            t.drop_first(),
        ) * 10) by (nonlinear_arith);
        assert(pow10((s.len() - 1) as nat) == 10 * pow10((s.len() - 2) as nat));
        assert(p * 10 == pow10((s.len() - 1) as nat));
        // the tail of s is the tail of t extended by the last digit
        assert(s.drop_first().drop_last() =~= t.drop_first());
        assert(s.drop_first().len() > 0);
        assert(s.drop_first().last() == s.last());
        assert(dec_value(s.drop_first()) == dec_value(t.drop_first()) * 10 + dl);
        assert(dec_value(s) == (d0 * p + dec_value(t.drop_first())) * 10 + dl);
        assert(p * 10 == pow10((s.len() - 1) as nat));
        assert(dec_value(s) == d0 * (p * 10) + (dec_value(t.drop_first()) * 10 + dl));
        assert(d0 * (p * 10) == d0 * pow10((s.len() - 1) as nat));
        assert(dec_value(s) == digit_val(s[0]) * pow10((s.len() - 1) as nat) + dec_value(
            s.drop_first(),
        ));
    }
}

/// On equal-length numerals, lexicographic order is numeric order.
proof fn lemma_numeral_lex_order(a: Seq<char>, b: Seq<char>)
    requires
        all_digits(a),
        all_digits(b),
        a.len() == b.len(),
    ensures
        lex_lt(a, b) <==> dec_value(a) < dec_value(b),
    decreases a.len(),
{
    if a.len() > 0 {
        let p = pow10((a.len() - 1) as nat);
        lemma_dec_value_front(a);
        lemma_dec_value_front(b);
        let ta = a.drop_first();
        let tb = b.drop_first();
        assert(all_digits(ta)) by {
            assert(forall|i: int| 0 <= i < ta.len() ==> ta[i] == a[i + 1]);
        }
        assert(all_digits(tb)) by {
            assert(forall|i: int| 0 <= i < tb.len() ==> tb[i] == b[i + 1]);
        }
        lemma_dec_value_upper(ta);
        lemma_dec_value_upper(tb);
        let da = digit_val(a[0]);
        let db = digit_val(b[0]);
        assert(crate::text::is_digit(a[0]));
        assert(crate::text::is_digit(b[0]));
        if da < db {
            assert((a[0] as u32) < (b[0] as u32));
            assert(da * p + dec_value(ta) < db * p + dec_value(tb)) by (nonlinear_arith)
                requires
                    da < db,
                    dec_value(ta) < p,
                    dec_value(tb) >= 0,
            ;
        } else if da > db {
            assert((a[0] as u32) > (b[0] as u32));
            assert(db * p + dec_value(tb) < da * p + dec_value(ta)) by (nonlinear_arith)
                requires
                    db < da,
                    dec_value(tb) < p,
                    dec_value(ta) >= 0,
            ;
        } else {
            assert(a[0] == b[0]) by {
                assert(a[0] as u32 == 48 + da);
                assert(b[0] as u32 == 48 + db);
                vstd::utf8::char_u32_cast(a[0], a[0] as u32);
                vstd::utf8::char_u32_cast(b[0], b[0] as u32);
            }
            lemma_numeral_lex_order(ta, tb);
        }
    }
}

/// Equal-length numerals with equal values are the same numeral.
proof fn lemma_numeral_inj(a: Seq<char>, b: Seq<char>)
    requires
        all_digits(a),
        all_digits(b),
        a.len() == b.len(),
        dec_value(a) == dec_value(b),
    ensures
        a == b,
    decreases a.len(),
{
    lemma_numeral_lex_order(a, b);
    lemma_numeral_lex_order(b, a);
    lemma_lex_lt_connected(a, b);
}

/// Lexicographic order is connected: incomparable sequences are equal.
proof fn lemma_lex_lt_connected(a: Seq<char>, b: Seq<char>)
    requires
        !lex_lt(a, b),
        !lex_lt(b, a),
    ensures
        a == b,
    decreases a.len() + b.len(),
{
    if a.len() == 0 && b.len() == 0 {
        assert(a =~= b);
    } else if a.len() > 0 && b.len() > 0 {
        if a[0] == b[0] {
            lemma_lex_lt_connected(a.drop_first(), b.drop_first());
            assert(a =~= seq![a[0]] + a.drop_first());
            assert(b =~= seq![b[0]] + b.drop_first());
        } else {
            vstd::utf8::char_u32_cast(a[0], a[0] as u32);
            vstd::utf8::char_u32_cast(b[0], b[0] as u32);
            assert((a[0] as u32) != (b[0] as u32));
            assert(false);
        }
    }
}

/// Lexicographic order is irreflexive.
proof fn lemma_lex_lt_irrefl(a: Seq<char>)
    ensures
        !lex_lt(a, a),
    decreases a.len(),
{
    if a.len() > 0 {
        lemma_lex_lt_irrefl(a.drop_first());
    }
}

/// Lexicographic order is transitive.
proof fn lemma_lex_lt_trans(a: Seq<char>, b: Seq<char>, c: Seq<char>)
    requires
        lex_lt(a, b),
        lex_lt(b, c),
    ensures
        lex_lt(a, c),
    decreases a.len() + b.len() + c.len(),
{
    if a.len() > 0 && b.len() > 0 && c.len() > 0 {
        if a[0] == b[0] && b[0] == c[0] {
            lemma_lex_lt_trans(a.drop_first(), b.drop_first(), c.drop_first());
        }
    }
}

/// Identifier order is connected on valid prerelease identifiers.
proof fn lemma_ident_lt_connected(a: Seq<char>, b: Seq<char>)
    requires
        valid_pre_ident(a),
        valid_pre_ident(b),
        !ident_lt(a, b),
        !ident_lt(b, a),
    ensures
        a == b,
{
    if is_numeric(a) && is_numeric(b) {
        if a.len() < b.len() {
            lemma_numeral_len_order(a, b);
        } else if b.len() < a.len() {
            lemma_numeral_len_order(b, a);
        } else {
            lemma_numeral_inj(a, b);
        }
    } else if !is_numeric(a) && !is_numeric(b) {
        lemma_lex_lt_connected(a, b);
    }
}

/// Identifier order is transitive on valid prerelease identifiers.
proof fn lemma_ident_lt_trans(a: Seq<char>, b: Seq<char>, c: Seq<char>)
    requires
        ident_lt(a, b),
        ident_lt(b, c),
    ensures
        ident_lt(a, c),
{
    if !is_numeric(a) && !is_numeric(b) && !is_numeric(c) {
        lemma_lex_lt_trans(a, b, c);
    }
}

/// Prerelease-sequence order is connected.
proof fn lemma_pre_seq_lt_connected(a: Seq<Seq<char>>, b: Seq<Seq<char>>)
    requires
        forall|i: int| 0 <= i < a.len() ==> valid_pre_ident(#[trigger] a[i]),
        forall|i: int| 0 <= i < b.len() ==> valid_pre_ident(#[trigger] b[i]),
        !pre_seq_lt(a, b),
        !pre_seq_lt(b, a),
    ensures
        a == b,
    decreases a.len() + b.len(),
{
    if a.len() == 0 && b.len() == 0 {
        assert(a =~= b);
    } else if a.len() > 0 && b.len() > 0 {
        lemma_ident_lt_connected(a[0], b[0]);
        let ta = a.drop_first();
        let tb = b.drop_first();
        assert(forall|i: int| 0 <= i < ta.len() ==> #[trigger] ta[i] == a[i + 1]);
        assert(forall|i: int| 0 <= i < tb.len() ==> #[trigger] tb[i] == b[i + 1]);
        lemma_pre_seq_lt_connected(ta, tb);
        assert(a =~= seq![a[0]] + ta);
        assert(b =~= seq![b[0]] + tb);
    }
}

/// Prerelease-sequence order is transitive.
proof fn lemma_pre_seq_lt_trans(a: Seq<Seq<char>>, b: Seq<Seq<char>>, c: Seq<Seq<char>>)
    requires
        forall|i: int| 0 <= i < a.len() ==> valid_pre_ident(#[trigger] a[i]),
        forall|i: int| 0 <= i < b.len() ==> valid_pre_ident(#[trigger] b[i]),
        forall|i: int| 0 <= i < c.len() ==> valid_pre_ident(#[trigger] c[i]),
        pre_seq_lt(a, b),
        pre_seq_lt(b, c),
    ensures
        pre_seq_lt(a, c),
    decreases a.len() + b.len() + c.len(),
{
    if a.len() > 0 && b.len() > 0 && c.len() > 0 {
        if ident_lt(a[0], b[0]) {
            if ident_lt(b[0], c[0]) {
                lemma_ident_lt_trans(a[0], b[0], c[0]);
            } else {
                assert(b[0] == c[0]);
            }
        } else {
            assert(a[0] == b[0]);
            if ident_lt(b[0], c[0]) {
            } else {
                assert(b[0] == c[0]);
                let ta = a.drop_first();
                let tb = b.drop_first();
                let tc = c.drop_first();
                assert(forall|i: int| 0 <= i < ta.len() ==> #[trigger] ta[i] == a[i + 1]);
                assert(forall|i: int| 0 <= i < tb.len() ==> #[trigger] tb[i] == b[i + 1]);
                assert(forall|i: int| 0 <= i < tc.len() ==> #[trigger] tc[i] == c[i + 1]);
                lemma_pre_seq_lt_trans(ta, tb, tc);
            }
        }
    }
}

/// Semantic-version precedence is connected: two well-formed versions that
/// neither precedes the other have equal precedence.
pub proof fn lemma_semver_lt_connected(a: SemVer, b: SemVer)
    requires
        a.wf(),
        b.wf(),
        !semver_lt(a, b),
        !semver_lt(b, a),
    ensures
        semver_eq(a, b),
{
    if a.major == b.major && a.minor == b.minor && a.patch == b.patch {
        if a.pre_view().len() > 0 && b.pre_view().len() > 0 {
            lemma_pre_seq_lt_connected(a.pre_view(), b.pre_view());
        } else {
            assert(a.pre_view() =~~= b.pre_view());
        }
    }
}

proof fn lemma_lex_lt_skip(a: Seq<char>, b: Seq<char>, i: int)
    requires
        0 <= i <= a.len(),
        i <= b.len(),
        forall|j: int| 0 <= j < i ==> a[j] == b[j],
    ensures
        lex_lt(a, b) == lex_lt(a.skip(i), b.skip(i)),
    decreases i,
{
    if i > 0 {
        assert(a[0] == b[0]);
        let ta = a.drop_first();
        let tb = b.drop_first();
        assert(forall|j: int| 0 <= j < i - 1 ==> #[trigger] ta[j] == tb[j]) by {
            assert(forall|j: int| 0 <= j < i - 1 ==> #[trigger] ta[j] == a[j + 1]);
            assert(forall|j: int| 0 <= j < i - 1 ==> #[trigger] tb[j] == b[j + 1]);
        }
        lemma_lex_lt_skip(ta, tb, i - 1);
        assert(ta.skip(i - 1) =~= a.skip(i));
        assert(tb.skip(i - 1) =~= b.skip(i));
    } else {
        assert(a.skip(0) =~= a);
        assert(b.skip(0) =~= b);
    }
}

/// Executable lexicographic comparison.
fn lex_precedes(a: &str, b: &str) -> (r: bool)
    ensures
        r == lex_lt(a@, b@),
{
    let alen = a.unicode_len();
    let blen = b.unicode_len();
    let mut i: usize = 0;
    while i < alen && i < blen
        invariant
            alen == a@.len(),
            blen == b@.len(),
            0 <= i <= alen,
            i <= blen,
            forall|j: int| 0 <= j < i ==> a@[j] == b@[j],
        decreases alen - i,
    {
        let ca = a.get_char(i);
        let cb = b.get_char(i);
        if ca as u32 != cb as u32 {
            proof {
                lemma_lex_lt_skip(a@, b@, i as int);
                vstd::utf8::char_u32_cast(ca, ca as u32);
                vstd::utf8::char_u32_cast(cb, cb as u32);
                assert(a@.skip(i as int)[0] == ca);
                assert(b@.skip(i as int)[0] == cb);
            }
            return (ca as u32) < (cb as u32);
        }
        i += 1;
    }
    proof {
        lemma_lex_lt_skip(a@, b@, i as int);
        if i < blen {
            assert(a@.skip(i as int).len() == 0);
            assert(b@.skip(i as int).len() > 0);
        } else {
            assert(b@.skip(i as int).len() == 0);
        }
    }
    i < blen
}

/// Executable test for a nonempty all-digit string.
fn is_numeric_exec(s: &str) -> (r: bool)
    ensures
        r == is_numeric(s@),
{
    let n = s.unicode_len();
    if n == 0 {
        return false;
    }
    let mut i: usize = 0;
    while i < n
        invariant
            n == s@.len(),
            0 <= i <= n,
            forall|j: int| 0 <= j < i ==> crate::text::is_digit(#[trigger] s@[j]),
        decreases n - i,
    {
        if !is_digit_exec(s.get_char(i)) {
            return false;
        }
        i += 1;
    }
    true
}

/// Executable prerelease-identifier comparison.
fn ident_precedes(a: &str, b: &str) -> (r: bool)
    requires
        valid_pre_ident(a@),
        valid_pre_ident(b@),
    ensures
        r == ident_lt(a@, b@),
{
    let a_num = is_numeric_exec(a);
    let b_num = is_numeric_exec(b);
    if a_num && b_num {
        let alen = a.unicode_len();
        let blen = b.unicode_len();
        if alen < blen {
            proof {
                lemma_numeral_len_order(a@, b@);
            }
            true
        } else if blen < alen {
            proof {
                lemma_numeral_len_order(b@, a@);
            }
            false
        } else {
            proof {
                lemma_numeral_lex_order(a@, b@);
            }
            lex_precedes(a, b)
        }
    } else if a_num {
        true
    } else if b_num {
        false
    } else {
        lex_precedes(a, b)
    }
}

proof fn lemma_pre_seq_lt_skip(a: Seq<Seq<char>>, b: Seq<Seq<char>>, i: int)
    requires
        0 <= i <= a.len(),
        i <= b.len(),
        forall|j: int| 0 <= j < i ==> a[j] == b[j],
    ensures
        pre_seq_lt(a, b) == pre_seq_lt(a.skip(i), b.skip(i)),
    decreases i,
{
    if i > 0 {
        assert(a[0] == b[0]);
        assert(!ident_lt(a[0], b[0])) by {
            lemma_lex_lt_irrefl(a[0]);
        }
        let ta = a.drop_first();
        let tb = b.drop_first();
        assert(forall|j: int| 0 <= j < i - 1 ==> #[trigger] ta[j] == tb[j]) by {
            assert(forall|j: int| 0 <= j < i - 1 ==> #[trigger] ta[j] == a[j + 1]);
            assert(forall|j: int| 0 <= j < i - 1 ==> #[trigger] tb[j] == b[j + 1]);
        }
        lemma_pre_seq_lt_skip(ta, tb, i - 1);
        assert(ta.skip(i - 1) =~= a.skip(i));
        assert(tb.skip(i - 1) =~= b.skip(i));
    } else {
        assert(a.skip(0) =~= a);
        assert(b.skip(0) =~= b);
    }
}

/// Executable semantic-version precedence: does `a` strictly precede `b`?
pub fn semver_precedes(a: &SemVer, b: &SemVer) -> (r: bool)
    requires
        a.wf(),
        b.wf(),
    ensures
        r == semver_lt(*a, *b),
{
    if a.major != b.major {
        return a.major < b.major;
    }
    if a.minor != b.minor {
        return a.minor < b.minor;
    }
    if a.patch != b.patch {
        return a.patch < b.patch;
    }
    let an = a.pre.len();
    let bn = b.pre.len();
    if an > 0 && bn == 0 {
        return true;
    }
    if an == 0 {
        return false;
    }
    let mut i: usize = 0;
    while i < an && i < bn
        invariant
            an == a.pre_view().len(),
            bn == b.pre_view().len(),
            a.wf(),
            b.wf(),
            a.major == b.major,
            a.minor == b.minor,
            a.patch == b.patch,
            an > 0,
            bn > 0,
            0 <= i <= an,
            i <= bn,
            forall|j: int| 0 <= j < i ==> a.pre_view()[j] == b.pre_view()[j],
        decreases an - i,
    {
        let ai = &a.pre[i];
        let bi = &b.pre[i];
        proof {
            assert(a.pre_view()[i as int] == a.pre@[i as int]@);
            assert(b.pre_view()[i as int] == b.pre@[i as int]@);
        }
        if ident_precedes(ai.as_str(), bi.as_str()) {
            proof {
                lemma_pre_seq_lt_skip(a.pre_view(), b.pre_view(), i as int);
                assert(a.pre_view().skip(i as int)[0] == a.pre_view()[i as int]);
                assert(b.pre_view().skip(i as int)[0] == b.pre_view()[i as int]);
                assert(a.pre_view().skip(i as int).len() > 0);
                assert(b.pre_view().skip(i as int).len() > 0);
                assert(pre_seq_lt(a.pre_view().skip(i as int), b.pre_view().skip(i as int)));
                assert(semver_lt(*a, *b));
            }
            return true;
        }
        if !crate::text::str_eq(ai.as_str(), bi.as_str()) {
            proof {
                lemma_pre_seq_lt_skip(a.pre_view(), b.pre_view(), i as int);
                assert(a.pre_view().skip(i as int)[0] == a.pre_view()[i as int]);
                assert(b.pre_view().skip(i as int)[0] == b.pre_view()[i as int]);
                assert(a.pre_view().skip(i as int).len() > 0);
                assert(b.pre_view().skip(i as int).len() > 0);
                assert(!pre_seq_lt(a.pre_view().skip(i as int), b.pre_view().skip(i as int)));
                assert(!semver_lt(*a, *b));
            }
            return false;
        }
        i += 1;
    }
    proof {
        lemma_pre_seq_lt_skip(a.pre_view(), b.pre_view(), i as int);
        if i < bn {
            assert(a.pre_view().skip(i as int).len() == 0);
            assert(b.pre_view().skip(i as int).len() > 0);
        } else {
            assert(b.pre_view().skip(i as int).len() == 0);
        }
    }
    i < bn
}

proof fn lemma_pre_seq_lt_irrefl(a: Seq<Seq<char>>)
    ensures
        !pre_seq_lt(a, a),
    decreases a.len(),
{
    if a.len() > 0 {
        lemma_lex_lt_irrefl(a[0]);
        lemma_pre_seq_lt_irrefl(a.drop_first());
    }
}

/// Semantic-version precedence is irreflexive.
pub proof fn lemma_semver_lt_irrefl(a: SemVer)
    ensures
        !semver_lt(a, a),
{
    if a.pre_view().len() > 0 {
        lemma_pre_seq_lt_irrefl(a.pre_view());
    }
}

/// Semantic-version precedence is transitive.
pub proof fn lemma_semver_lt_trans(a: SemVer, b: SemVer, c: SemVer)
    requires
        a.wf(),
        b.wf(),
        c.wf(),
        semver_lt(a, b),
        semver_lt(b, c),
    ensures
        semver_lt(a, c),
{
    if a.major == c.major && a.minor == c.minor && a.patch == c.patch {
        if a.pre_view().len() > 0 && b.pre_view().len() > 0 && c.pre_view().len() > 0 {
            lemma_pre_seq_lt_trans(a.pre_view(), b.pre_view(), c.pre_view());
        }
    }
}

} // verus!
