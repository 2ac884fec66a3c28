//! Verified text utilities: character classes, decimal numerals, trimming,
//! splitting, joining, searching and replacement over `&str` / `String`.

use vstd::prelude::*;

verus! {

// ---------------------------------------------------------------------------
// character classes
// ---------------------------------------------------------------------------

/// ASCII decimal digit.
pub open spec fn is_digit(c: char) -> bool {
    '0' <= c && c <= '9'
}

/// Numeric value of an ASCII digit.
pub open spec fn digit_val(c: char) -> nat {
    (c as u32 - '0' as u32) as nat
}

/// ASCII whitespace, the only kind this library trims.
pub open spec fn is_space(c: char) -> bool {
    c == ' ' || c == '\t' || c == '\r' || c == '\n'
}

/// A character allowed in a semantic-version prerelease or build identifier.
pub open spec fn is_ident_char(c: char) -> bool {
    is_digit(c) || ('a' <= c && c <= 'z') || ('A' <= c && c <= 'Z') || c == '-'
}

pub open spec fn all_digits(s: Seq<char>) -> bool {
    forall|i: int| 0 <= i < s.len() ==> is_digit(#[trigger] s[i])
}

pub open spec fn all_ident_chars(s: Seq<char>) -> bool {
    forall|i: int| 0 <= i < s.len() ==> is_ident_char(#[trigger] s[i])
}

/// A nonempty run of decimal digits.
pub open spec fn is_numeric(s: Seq<char>) -> bool {
    s.len() > 0 && all_digits(s)
}

// ---------------------------------------------------------------------------
// decimal numerals
// ---------------------------------------------------------------------------

/// Value of a digit string read as a decimal numeral.
pub open spec fn dec_value(s: Seq<char>) -> nat
    decreases s.len(),
{
    if s.len() == 0 {
        0
    } else {
        dec_value(s.drop_last()) * 10 + digit_val(s.last())
    }
}

/// The canonical decimal numeral of `n` (no leading zeros).
pub open spec fn dec_digit(d: nat) -> char {
    if d == 0 { '0' } else if d == 1 { '1' } else if d == 2 { '2' } else if d == 3 { '3' }
    else if d == 4 { '4' } else if d == 5 { '5' } else if d == 6 { '6' } else if d == 7 { '7' }
    else if d == 8 { '8' } else { '9' }
}

pub open spec fn dec_str(n: nat) -> Seq<char>
    decreases n,
{
    if n < 10 {
        seq![dec_digit(n)]
    } else {
        dec_str(n / 10).push(dec_digit(n % 10))
    }
}

// ---------------------------------------------------------------------------
// searching
// ---------------------------------------------------------------------------

/// Index of the first occurrence of `c` in `s`, or -1.
pub open spec fn find_idx(s: Seq<char>, c: char) -> int
    decreases s.len(),
{
    if s.len() == 0 {
        -1
    } else if s[0] == c {
        0
    } else {
        let r = find_idx(s.drop_first(), c);
        if r < 0 {
            -1
        } else {
            r + 1
        }
    }
}

pub proof fn lemma_find_idx(s: Seq<char>, c: char)
    ensures
        find_idx(s, c) == -1 ==> forall|i: int| 0 <= i < s.len() ==> s[i] != c,
        find_idx(s, c) != -1 ==> {
            &&& 0 <= find_idx(s, c) < s.len()
            &&& s[find_idx(s, c)] == c
            &&& forall|i: int| 0 <= i < find_idx(s, c) ==> s[i] != c
        },
    decreases s.len(),
{
    if s.len() > 0 && s[0] != c {
        let t = s.drop_first();
        lemma_find_idx(t, c);
        let r = find_idx(t, c);
        if r < 0 {
            assert forall|i: int| 0 <= i < s.len() implies s[i] != c by {
                if i > 0 {
                    assert(s[i] == t[i - 1]);
                }
            }
        } else {
            assert(s[r + 1] == t[r]);
            assert forall|i: int| 0 <= i < r + 1 implies s[i] != c by {
                if i > 0 {
                    assert(s[i] == t[i - 1]);
                }
            }
        }
    }
}

/// `pat` occurs in `s` at position `i`.
pub open spec fn matches_at(s: Seq<char>, pat: Seq<char>, i: int) -> bool {
    0 <= i && i + pat.len() <= s.len() && s.subrange(i, i + pat.len() as int) == pat
}

// ---------------------------------------------------------------------------
// trimming
// ---------------------------------------------------------------------------

/// Count of leading ASCII whitespace characters.
pub open spec fn trim_start_idx(s: Seq<char>) -> int
    decreases s.len(),
{
    if s.len() == 0 || !is_space(s[0]) {
        0
    } else {
        1 + trim_start_idx(s.drop_first())
    }
}

/// One past the last non-whitespace character.
pub open spec fn trim_end_idx(s: Seq<char>) -> int
    decreases s.len(),
{
    if s.len() == 0 || !is_space(s.last()) {
        s.len() as int
    } else {
        trim_end_idx(s.drop_last())
    }
}

/// `s` with leading and trailing ASCII whitespace removed.
pub open spec fn trim_spec(s: Seq<char>) -> Seq<char> {
    if trim_start_idx(s) >= trim_end_idx(s) {
        Seq::empty()
    } else {
        s.subrange(trim_start_idx(s), trim_end_idx(s))
    }
}

proof fn lemma_trim_start_idx(s: Seq<char>)
    ensures
        0 <= trim_start_idx(s) <= s.len(),
        forall|i: int| 0 <= i < trim_start_idx(s) ==> is_space(#[trigger] s[i]),
        trim_start_idx(s) < s.len() ==> !is_space(s[trim_start_idx(s)]),
    decreases s.len(),
{
    if s.len() > 0 && is_space(s[0]) {
        let t = s.drop_first();
        lemma_trim_start_idx(t);
        assert forall|i: int| 0 <= i < trim_start_idx(s) implies is_space(#[trigger] s[i]) by {
            if i > 0 {
                assert(s[i] == t[i - 1]);
            }
        }
        if trim_start_idx(s) < s.len() {
            assert(s[trim_start_idx(s)] == t[trim_start_idx(t)]);
        }
    }
}

proof fn lemma_trim_end_idx(s: Seq<char>)
    ensures
        0 <= trim_end_idx(s) <= s.len(),
        forall|i: int| trim_end_idx(s) <= i < s.len() ==> is_space(#[trigger] s[i]),
        trim_end_idx(s) > 0 ==> !is_space(s[trim_end_idx(s) - 1]),
    decreases s.len(),
{
    if s.len() > 0 && is_space(s.last()) {
        let t = s.drop_last();
        lemma_trim_end_idx(t);
        assert forall|i: int| trim_end_idx(s) <= i < s.len() implies is_space(#[trigger] s[i]) by {
            if i < s.len() - 1 {
                assert(s[i] == t[i]);
            }
        }
        if trim_end_idx(s) > 0 {
            assert(s[trim_end_idx(s) - 1] == t[trim_end_idx(t) - 1]);
        }
    }
}

// ---------------------------------------------------------------------------
// splitting and joining
// ---------------------------------------------------------------------------

/// Split `s` at every occurrence of `sep`; the empty string yields one empty
/// segment, and separators at the edges yield empty segments.
pub open spec fn split_spec(s: Seq<char>, sep: char) -> Seq<Seq<char>>
    decreases s.len(),
{
    if s.len() == 0 {
        seq![Seq::empty()]
    } else if s[0] == sep {
        seq![Seq::<char>::empty()] + split_spec(s.drop_first(), sep)
    } else {
        let rest = split_spec(s.drop_first(), sep);
        seq![seq![s[0]] + rest[0]] + rest.drop_first()
    }
}

/// Splitting a separator-free string yields that string alone.
pub proof fn lemma_split_no_sep(s: Seq<char>, sep: char)
    requires
        forall|i: int| 0 <= i < s.len() ==> s[i] != sep,
    ensures
        split_spec(s, sep) =~~= seq![s],
    decreases s.len(),
{
    if s.len() > 0 {
        let t = s.drop_first();
        assert forall|i: int| 0 <= i < t.len() implies t[i] != sep by {
            assert(t[i] == s[i + 1]);
        }
        lemma_split_no_sep(t, sep);
        assert(seq![s[0]] + t =~= s);
    }
}

/// Splitting at the first separator: if `a` is separator-free, the split of
/// `a + [sep] + b` is `a` followed by the split of `b`.
pub proof fn lemma_split_at_sep(a: Seq<char>, b: Seq<char>, sep: char)
    requires
        forall|i: int| 0 <= i < a.len() ==> a[i] != sep,
    ensures
        split_spec(a + seq![sep] + b, sep) =~~= seq![a] + split_spec(b, sep),
    decreases a.len(),
{
    let s = a + seq![sep] + b;
    if a.len() == 0 {
        assert(s[0] == sep);
        assert(s.drop_first() =~= b);
    } else {
        let a2 = a.drop_first();
        assert forall|i: int| 0 <= i < a2.len() implies a2[i] != sep by {
            assert(a2[i] == a[i + 1]);
        }
        lemma_split_at_sep(a2, b, sep);
        assert(s[0] == a[0]);
        assert(s[0] != sep);
        assert(s.drop_first() =~= a2 + seq![sep] + b);
        let rest = split_spec(s.drop_first(), sep);
        assert(rest =~~= seq![a2] + split_spec(b, sep));
        assert(rest[0] == a2);
        assert(seq![s[0]] + rest[0] =~= a);
        assert(rest.drop_first() =~~= split_spec(b, sep));
    }
}

/// Join segments with `sep` between them.
pub open spec fn join_spec(parts: Seq<Seq<char>>, sep: Seq<char>) -> Seq<char>
    decreases parts.len(),
{
    if parts.len() == 0 {
        Seq::empty()
    } else if parts.len() == 1 {
        parts[0]
    } else {
        parts[0] + sep + join_spec(parts.drop_first(), sep)
    }
}

// ---------------------------------------------------------------------------
// lowercasing
// ---------------------------------------------------------------------------

/// ASCII lowercase of one character.
pub open spec fn lower_char(c: char) -> char {
    match c {
        'A' => 'a', 'B' => 'b', 'C' => 'c', 'D' => 'd', 'E' => 'e', 'F' => 'f',
        'G' => 'g', 'H' => 'h', 'I' => 'i', 'J' => 'j', 'K' => 'k', 'L' => 'l',
        'M' => 'm', 'N' => 'n', 'O' => 'o', 'P' => 'p', 'Q' => 'q', 'R' => 'r',
        'S' => 's', 'T' => 't', 'U' => 'u', 'V' => 'v', 'W' => 'w', 'X' => 'x',
        'Y' => 'y', 'Z' => 'z', _ => c,
    }
}

pub open spec fn lower_spec(s: Seq<char>) -> Seq<char> {
    s.map_values(|c: char| lower_char(c))
}

// ---------------------------------------------------------------------------
// executable helpers
// ---------------------------------------------------------------------------

/// Character-by-character string equality.
pub fn str_eq(a: &str, b: &str) -> (r: bool)
    ensures
        r == (a@ == b@),
{
    let alen = a.unicode_len();
    let blen = b.unicode_len();
    if alen != blen {
        assert(a@ != b@);
        return false;
    }
    let mut i: usize = 0;
    while i < alen
        invariant
            alen == a@.len(),
            alen == b@.len(),
            0 <= i <= alen,
            forall|j: int| 0 <= j < i ==> a@[j] == b@[j],
        decreases alen - i,
    {
        if a.get_char(i) != b.get_char(i) {
            return false;
        }
        i += 1;
    }
    proof {
        assert(a@ =~= b@);
    }
    true
}

/// Does `pat` occur in `s` at position `at`?
pub fn occurs_at(s: &str, pat: &str, at: usize) -> (r: bool)
    requires
        at + pat@.len() <= s@.len(),
    ensures
        r == matches_at(s@, pat@, at as int),
{
    let plen = pat.unicode_len();
    let slen = s.unicode_len();
    let mut i: usize = 0;
    while i < plen
        invariant
            plen == pat@.len(),
            slen == s@.len(),
            at + plen <= slen,
            0 <= i <= plen,
            forall|j: int| 0 <= j < i ==> s@[at + j] == pat@[j],
        decreases plen - i,
    {
        if s.get_char(at + i) != pat.get_char(i) {
            assert(s@.subrange(at as int, at + pat@.len() as int)[i as int] != pat@[i as int]);
            return false;
        }
        i += 1;
    }
    proof {
        assert(s@.subrange(at as int, at + pat@.len() as int) =~= pat@);
    }
    true
}

/// Does `s` start with `pat`?
pub fn starts_with(s: &str, pat: &str) -> (r: bool)
    ensures
        r == pat@.is_prefix_of(s@),
{
    let plen = pat.unicode_len();
    if plen > s.unicode_len() {
        return false;
    }
    let r = occurs_at(s, pat, 0);
    proof {
        assert(s@.subrange(0, pat@.len() as int) =~= s@.take(pat@.len() as int));
    }
    r
}

/// First occurrence of `pat` in `s`.
pub fn find_str(s: &str, pat: &str) -> (r: Option<usize>)
    requires
        pat@.len() > 0,
    ensures
        match r {
            Some(i) => matches_at(s@, pat@, i as int) && forall|j: int|
                0 <= j < i ==> !matches_at(s@, pat@, j),
            None => forall|j: int| !matches_at(s@, pat@, j),
        },
{
    let slen = s.unicode_len();
    let plen = pat.unicode_len();
    if plen > slen {
        return None;
    }
    let last = slen - plen;
    let mut i: usize = 0;
    while i <= last
        invariant
            slen == s@.len(),
            plen == pat@.len(),
            plen > 0,
            plen <= slen,
            last == slen - plen,
            0 <= i <= last + 1,
            forall|j: int| 0 <= j < i ==> !matches_at(s@, pat@, j),
        decreases last + 1 - i,
    {
        if occurs_at(s, pat, i) {
            return Some(i);
        }
        i += 1;
    }
    assert forall|j: int| !matches_at(s@, pat@, j) by {
        if j >= i {
            assert(j + pat@.len() > s@.len());
        }
    }
    None
}

/// First occurrence of the character `c` in `s`.
pub fn find_char(s: &str, c: char) -> (r: Option<usize>)
    ensures
        match r {
            Some(i) => i == find_idx(s@, c) && i < s@.len() && s@[i as int] == c && forall|j: int|
                0 <= j < i ==> s@[j] != c,
            None => find_idx(s@, c) == -1 && forall|j: int| 0 <= j < s@.len() ==> s@[j] != c,
        },
{
    let slen = s.unicode_len();
    let mut i: usize = 0;
    while i < slen
        invariant
            slen == s@.len(),
            0 <= i <= slen,
            forall|j: int| 0 <= j < i ==> s@[j] != c,
        decreases slen - i,
    {
        if s.get_char(i) == c {
            proof {
                lemma_find_idx(s@, c);
            }
            return Some(i);
        }
        i += 1;
    }
    proof {
        lemma_find_idx(s@, c);
    }
    None
}

/// Copy a character range of `s` into a fresh `String`.
pub fn substr(s: &str, from: usize, to: usize) -> (r: String)
    requires
        from <= to <= s@.len(),
    ensures
        r@ == s@.subrange(from as int, to as int),
{
    let sub = s.substring_char(from, to);
    sub.to_owned()
}

/// Remove leading and trailing ASCII whitespace.
pub fn trim(s: &str) -> (r: String)
    ensures
        r@ == trim_spec(s@),
{
    let slen = s.unicode_len();
    proof {
        lemma_trim_start_idx(s@);
        lemma_trim_end_idx(s@);
    }
    let mut a: usize = 0;
    while a < slen && is_space_exec(s.get_char(a))
        invariant
            slen == s@.len(),
            0 <= a <= slen,
            forall|j: int| 0 <= j < a ==> is_space(#[trigger] s@[j]),
            a <= trim_start_idx(s@),
        decreases slen - a,
    {
        proof {
            lemma_trim_start_idx(s@);
        }
        a += 1;
        proof {
            lemma_trim_start_idx(s@);
            if a > trim_start_idx(s@) {
                assert(!is_space(s@[trim_start_idx(s@)]));
            }
        }
    }
    proof {
        lemma_trim_start_idx(s@);
        if a < slen {
            assert(a >= trim_start_idx(s@));
        } else {
            assert(a == slen);
        }
        assert(a == trim_start_idx(s@));
    }
    let mut b: usize = slen;
    while b > a && is_space_exec(s.get_char(b - 1))
        invariant
            slen == s@.len(),
            a == trim_start_idx(s@),
            a <= b <= slen,
            forall|j: int| b <= j < slen ==> is_space(#[trigger] s@[j]),
            b >= trim_end_idx(s@) || b == slen,
            b >= trim_end_idx(s@),
        decreases b,
    {
        proof {
            lemma_trim_end_idx(s@);
        }
        b -= 1;
        proof {
            lemma_trim_end_idx(s@);
            if b < trim_end_idx(s@) {
                assert(!is_space(s@[trim_end_idx(s@) - 1]));
            }
        }
    }
    proof {
        lemma_trim_end_idx(s@);
        lemma_trim_start_idx(s@);
        if b > a {
            assert(!is_space(s@[b - 1]));
            assert(b <= trim_end_idx(s@));
            assert(b == trim_end_idx(s@));
        } else {
            assert(b == a);
            if trim_end_idx(s@) > a {
                assert(!is_space(s@[trim_end_idx(s@) - 1]));
                assert(trim_end_idx(s@) - 1 >= b);
                assert(false);
            }
        }
    }
    let r = substr(s, a, b);
    proof {
        if b > a {
            assert(r@ =~= trim_spec(s@));
        } else {
            assert(r@ =~= trim_spec(s@));
        }
    }
    r
}

/// Executable ASCII-whitespace test.
pub fn is_space_exec(c: char) -> (r: bool)
    ensures
        r == is_space(c),
{
    c == ' ' || c == '\t' || c == '\r' || c == '\n'
}

/// Executable ASCII-digit test.
pub fn is_digit_exec(c: char) -> (r: bool)
    ensures
        r == is_digit(c),
{
    let u = c as u32;
    48 <= u && u <= 57
}

/// Executable identifier-character test.
pub fn is_ident_char_exec(c: char) -> (r: bool)
    ensures
        r == is_ident_char(c),
{
    let u = c as u32;
    (48 <= u && u <= 57) || (97 <= u && u <= 122) || (65 <= u && u <= 90) || c == '-'
}

/// Split `s` at every occurrence of `sep`.
pub fn split_on(s: &str, sep: char) -> (r: Vec<String>)
    ensures
        r.deep_view() == split_spec(s@, sep),
{
    let slen = s.unicode_len();
    let mut parts: Vec<String> = Vec::new();
    proof {
        assert(s@.subrange(0, slen as int) =~= s@);
        assert(parts.deep_view() =~~= Seq::<Seq<char>>::empty());
        assert(Seq::<Seq<char>>::empty() + split_spec(s@, sep) =~~= split_spec(s@, sep));
    }
    let mut start: usize = 0;
    let mut i: usize = 0;
    while i < slen
        invariant
            slen == s@.len(),
            0 <= start <= i <= slen,
            forall|j: int| start <= j < i ==> s@[j] != sep,
            split_spec(s@, sep) =~~= parts.deep_view() + split_spec(
                s@.subrange(start as int, slen as int),
                sep,
            ),
        decreases slen - i,
    {
        if s.get_char(i) == sep {
            let seg = substr(s, start, i);
            let ghost prev = parts.deep_view();
            parts.push(seg);
            proof {
                let rem = s@.subrange(start as int, slen as int);
                let a = s@.subrange(start as int, i as int);
                let b = s@.subrange(i + 1, slen as int);
                assert forall|j: int| 0 <= j < a.len() implies a[j] != sep by {
                    assert(a[j] == s@[start + j]);
                }
                assert(rem =~= a + seq![sep] + b);
                lemma_split_at_sep(a, b, sep);
                assert(parts.deep_view() =~~= prev.push(seg@));
            }
            start = i + 1;
        }
        i += 1;
    }
    let seg = substr(s, start, slen);
    let ghost prev = parts.deep_view();
    parts.push(seg);
    proof {
        let rem = s@.subrange(start as int, slen as int);
        assert forall|j: int| 0 <= j < rem.len() implies rem[j] != sep by {
            assert(rem[j] == s@[start + j]);
        }
        lemma_split_no_sep(rem, sep);
        assert(parts.deep_view() =~~= prev.push(seg@));
        assert(parts.deep_view() =~~= split_spec(s@, sep));
    }
    parts
}

/// Joining after pushing one more segment appends a separator and the segment
/// (or is just the segment, when it is the first).
pub proof fn lemma_join_push(parts: Seq<Seq<char>>, x: Seq<char>, sep: Seq<char>)
    ensures
        parts.len() == 0 ==> join_spec(parts.push(x), sep) =~= x,
        parts.len() > 0 ==> join_spec(parts.push(x), sep) =~= join_spec(parts, sep) + sep + x,
    decreases parts.len(),
{
    if parts.len() == 0 {
        assert(join_spec(parts.push(x), sep) == parts.push(x)[0]);
        assert(parts.push(x)[0] =~= x);
    } else if parts.len() == 1 {
        assert(parts.push(x).drop_first() =~= seq![x]);
        assert(join_spec(seq![x], sep) == x);
    } else {
        let t = parts.drop_first();
        lemma_join_push(t, x, sep);
        assert(parts.push(x).drop_first() =~= t.push(x));
        assert(join_spec(parts.push(x), sep) == parts[0] + sep + join_spec(t.push(x), sep));
    }
}

/// Join segments with `sep` between them.
pub fn join_with(parts: &Vec<String>, sep: &str) -> (r: String)
    ensures
        r@ == join_spec(parts.deep_view(), sep@),
{
    let mut out = String::new();
    let n = parts.len();
    let mut i: usize = 0;
    while i < n
        invariant
            n == parts.len(),
            0 <= i <= n,
            out@ =~= join_spec(parts.deep_view().take(i as int), sep@),
        decreases n - i,
    {
        if i > 0 {
            out.append(sep);
        }
        out.append(parts[i].as_str());
        proof {
            let pv = parts.deep_view();
            assert(pv.take(i + 1) =~= pv.take(i as int).push(pv[i as int]));
            lemma_join_push(pv.take(i as int), pv[i as int], sep@);
        }
        i += 1;
    }
    proof {
        assert(parts.deep_view().take(n as int) =~= parts.deep_view());
    }
    out
}

/// Position of the first occurrence of `p` in `s`, or -1.
pub open spec fn first_match(s: Seq<char>, p: Seq<char>) -> int
    decreases s.len(),
{
    if p.len() > s.len() {
        -1
    } else if s.subrange(0, p.len() as int) == p {
        0
    } else if s.len() == 0 {
        -1
    } else {
        let r = first_match(s.drop_first(), p);
        if r < 0 {
            -1
        } else {
            r + 1
        }
    }
}

pub proof fn lemma_first_match(s: Seq<char>, p: Seq<char>)
    ensures
        first_match(s, p) == -1 ==> forall|j: int| !matches_at(s, p, j),
        first_match(s, p) != -1 ==> {
            &&& matches_at(s, p, first_match(s, p))
            &&& forall|j: int| 0 <= j < first_match(s, p) ==> !matches_at(s, p, j)
        },
    decreases s.len(),
{
    if p.len() > s.len() {
        assert forall|j: int| !matches_at(s, p, j) by {}
    } else if s.subrange(0, p.len() as int) == p {
    } else {
        assert(s.len() > 0) by {
            if s.len() == 0 {
                assert(s.subrange(0, p.len() as int) =~= p);
            }
        }
        let t = s.drop_first();
        lemma_first_match(t, p);
        let r = first_match(t, p);
        assert forall|j: int| 1 <= j && matches_at(s, p, j) implies matches_at(t, p, j - 1) by {
            assert forall|k: int| 0 <= k < p.len() implies #[trigger] t.subrange(
                j - 1,
                j - 1 + p.len() as int,
            )[k] == s.subrange(j, j + p.len() as int)[k] by {
                assert(t[j - 1 + k] == s[j + k]);
            }
            assert(t.subrange(j - 1, j - 1 + p.len() as int) =~= s.subrange(j, j + p.len() as int));
        }
        assert forall|j: int| 0 <= j && matches_at(t, p, j) implies matches_at(s, p, j + 1) by {
            assert forall|k: int| 0 <= k < p.len() implies #[trigger] t.subrange(
                j,
                j + p.len() as int,
            )[k] == s.subrange(j + 1, j + 1 + p.len() as int)[k] by {
                assert(t[j + k] == s[j + 1 + k]);
            }
            assert(t.subrange(j, j + p.len() as int) =~= s.subrange(j + 1, j + 1 + p.len() as int));
        }
        if s.len() == 0 {
        } else if r < 0 {
            assert forall|j: int| !matches_at(s, p, j) by {
                if j == 0 {
                    assert(s.subrange(0, p.len() as int) != p);
                }
            }
        } else {
            assert(matches_at(s, p, r + 1));
            assert forall|j: int| 0 <= j < r + 1 implies !matches_at(s, p, j) by {
                if j == 0 {
                    assert(s.subrange(0, p.len() as int) != p);
                }
            }
        }
    }
}

/// `s` with every occurrence of `p` replaced by `r`, scanning left to right
/// without re-examining replaced text.
pub open spec fn replace_spec(s: Seq<char>, p: Seq<char>, r: Seq<char>) -> Seq<char>
    decreases s.len(),
{
    if p.len() == 0 {
        s
    } else {
        let i = first_match(s, p);
        if i < 0 || i + p.len() > s.len() {
            s
        } else {
            s.subrange(0, i) + r + replace_spec(s.subrange(i + p.len(), s.len() as int), p, r)
        }
    }
}

/// Replace every occurrence of `pat` in `s` by `rep`.
pub fn replace_all(s: &str, pat: &str, rep: &str) -> (r: String)
    requires
        pat@.len() > 0,
    ensures
        r@ == replace_spec(s@, pat@, rep@),
{
    let slen = s.unicode_len();
    let plen = pat.unicode_len();
    let mut out = String::new();
    proof {
        assert(s@.subrange(0, slen as int) =~= s@);
    }
    let mut cur: usize = 0;
    while cur < slen
        invariant
            slen == s@.len(),
            plen == pat@.len(),
            plen > 0,
            0 <= cur <= slen,
            replace_spec(s@, pat@, rep@) =~= out@ + replace_spec(
                s@.subrange(cur as int, slen as int),
                pat@,
                rep@,
            ),
        decreases slen - cur,
    {
        let rem = s.substring_char(cur, slen);
        proof {
            lemma_first_match(rem@, pat@);
        }
        match find_str(rem, pat) {
            Some(i) => {
                proof {
                    assert(first_match(rem@, pat@) == i as int) by {
                        let fm = first_match(rem@, pat@);
                        if fm == -1 {
                        } else if fm < i as int {
                        } else if fm > i as int {
                        }
                    }
                }
                let piece = substr(rem, 0, i);
                out.append(piece.as_str());
                out.append(rep);
                proof {
                    assert(rem@.subrange(0, i as int) == piece@);
                    assert(rem@.subrange(i + plen, rem@.len() as int) =~= s@.subrange(
                        cur + i + plen,
                        slen as int,
                    ));
                }
                cur = cur + i + plen;
            },
            None => {
                out.append(rem);
                cur = slen;
                proof {
                    assert(s@.subrange(slen as int, slen as int) =~= Seq::<char>::empty());
                    assert(first_match(Seq::<char>::empty(), pat@) == -1);
                }
            },
        }
    }
    proof {
        assert(s@.subrange(cur as int, slen as int) =~= Seq::<char>::empty());
        assert(first_match(Seq::<char>::empty(), pat@) == -1);
        assert(out@ + Seq::<char>::empty() =~= out@);
    }
    out
}

/// The lowercase letter for an uppercase ASCII letter, as a string slice.
fn lower_alpha(c: char) -> (r: &'static str)
    requires
        'A' <= c && c <= 'Z',
    ensures
        r@ =~= seq![lower_char(c)],
{
    match c {
        'A' => { proof { reveal_strlit("a"); } "a" },
        'B' => { proof { reveal_strlit("b"); } "b" },
        'C' => { proof { reveal_strlit("c"); } "c" },
        'D' => { proof { reveal_strlit("d"); } "d" },
        'E' => { proof { reveal_strlit("e"); } "e" },
        'F' => { proof { reveal_strlit("f"); } "f" },
        'G' => { proof { reveal_strlit("g"); } "g" },
        'H' => { proof { reveal_strlit("h"); } "h" },
        'I' => { proof { reveal_strlit("i"); } "i" },
        'J' => { proof { reveal_strlit("j"); } "j" },
        'K' => { proof { reveal_strlit("k"); } "k" },
        'L' => { proof { reveal_strlit("l"); } "l" },
        'M' => { proof { reveal_strlit("m"); } "m" },
        'N' => { proof { reveal_strlit("n"); } "n" },
        'O' => { proof { reveal_strlit("o"); } "o" },
        'P' => { proof { reveal_strlit("p"); } "p" },
        'Q' => { proof { reveal_strlit("q"); } "q" },
        'R' => { proof { reveal_strlit("r"); } "r" },
        'S' => { proof { reveal_strlit("s"); } "s" },
        'T' => { proof { reveal_strlit("t"); } "t" },
        'U' => { proof { reveal_strlit("u"); } "u" },
        'V' => { proof { reveal_strlit("v"); } "v" },
        'W' => { proof { reveal_strlit("w"); } "w" },
        'X' => { proof { reveal_strlit("x"); } "x" },
        'Y' => { proof { reveal_strlit("y"); } "y" },
        _ => { proof { reveal_strlit("z"); } "z" },
    }
}

/// ASCII-lowercase a string; characters outside `A`..`Z` are unchanged.
pub fn ascii_lower(s: &str) -> (r: String)
    ensures
        r@ == lower_spec(s@),
{
    let slen = s.unicode_len();
    let mut out = String::new();
    let mut i: usize = 0;
    while i < slen
        invariant
            slen == s@.len(),
            0 <= i <= slen,
            out@ =~= lower_spec(s@.take(i as int)),
        decreases slen - i,
    {
        let c = s.get_char(i);
        let u = c as u32;
        if 65 <= u && u <= 90 {
            out.append(lower_alpha(c));
        } else {
            let piece = s.substring_char(i, i + 1);
            out.append(piece);
            proof {
                assert(piece@ =~= seq![s@[i as int]]);
            }
        }
        proof {
            assert(lower_spec(s@.take(i + 1)) =~= lower_spec(s@.take(i as int)).push(
                lower_char(s@[i as int]),
            ));
        }
        i += 1;
    }
    proof {
        assert(s@.take(slen as int) =~= s@);
    }
    out
}

/// Parse a decimal numeral: every character a digit, at least one, value
/// within `u64`. Leading zeros are accepted.
pub fn parse_u64(s: &str) -> (r: Option<u64>)
    ensures
        match r {
            Some(v) => is_numeric(s@) && dec_value(s@) <= u64::MAX && v == dec_value(s@),
            None => !(is_numeric(s@) && dec_value(s@) <= u64::MAX),
        },
{
    let slen = s.unicode_len();
    if slen == 0 {
        return None;
    }
    let mut val: u64 = 0;
    let mut i: usize = 0;
    while i < slen
        invariant
            slen == s@.len(),
            0 < slen,
            0 <= i <= slen,
            all_digits(s@.take(i as int)),
            val == dec_value(s@.take(i as int)),
        decreases slen - i,
    {
        let c = s.get_char(i);
        if !is_digit_exec(c) {
            assert(!all_digits(s@));
            return None;
        }
        let d = (c as u32 - 48) as u64;
        let stepped = match val.checked_mul(10) {
            Some(m) => m.checked_add(d),
            None => None,
        };
        match stepped {
            Some(v2) => {
                proof {
                    assert(s@.take(i + 1).drop_last() =~= s@.take(i as int));
                }
                val = v2;
            },
            None => {
                proof {
                    lemma_dec_value_extend_overflows(s@, i as int);
                }
                return None;
            },
        }
        i += 1;
    }
    proof {
        assert(s@.take(slen as int) =~= s@);
    }
    Some(val)
}

/// A numeral whose prefix already overflows keeps overflowing.
proof fn lemma_dec_value_extend_overflows(s: Seq<char>, i: int)
    requires
        0 <= i < s.len(),
        all_digits(s.take(i + 1)),
        dec_value(s.take(i)) * 10 + digit_val(s[i]) > u64::MAX,
    ensures
        dec_value(s) > u64::MAX,
    decreases s.len() - i,
{
    assert(s.take(i + 1).drop_last() =~= s.take(i));
    assert(dec_value(s.take(i + 1)) > u64::MAX);
    lemma_dec_value_prefix(s, i + 1);
}

/// A numeral is at least the value of any of its prefixes.
proof fn lemma_dec_value_prefix(s: Seq<char>, i: int)
    requires
        0 <= i <= s.len(),
    ensures
        dec_value(s) >= dec_value(s.take(i)),
    decreases s.len() - i,
{
    if i < s.len() {
        lemma_dec_value_prefix(s, i + 1);
        assert(s.take(i + 1).drop_last() =~= s.take(i));
        assert(dec_value(s.take(i + 1)) == dec_value(s.take(i)) * 10 + digit_val(s.take(
            i + 1,
        ).last()));
        assert(dec_value(s.take(i)) * 10 >= dec_value(s.take(i))) by (nonlinear_arith);
    } else {
        assert(s.take(i) =~= s);
    }
}

/// One decimal digit as a string slice.
fn digit_str(d: u64) -> (r: &'static str)
    requires
        d < 10,
    ensures
        r@ =~= seq![dec_digit(d as nat)],
{
    match d {
        0 => { proof { reveal_strlit("0"); } "0" },
        1 => { proof { reveal_strlit("1"); } "1" },
        2 => { proof { reveal_strlit("2"); } "2" },
        3 => { proof { reveal_strlit("3"); } "3" },
        4 => { proof { reveal_strlit("4"); } "4" },
        5 => { proof { reveal_strlit("5"); } "5" },
        6 => { proof { reveal_strlit("6"); } "6" },
        7 => { proof { reveal_strlit("7"); } "7" },
        8 => { proof { reveal_strlit("8"); } "8" },
        _ => { proof { reveal_strlit("9"); } "9" },
    }
}

/// Render `n` as its canonical decimal numeral.
pub fn u64_to_dec(n: u64) -> (r: String)
    ensures
        r@ == dec_str(n as nat),
{
    if n < 10 {
        let mut out = String::new();
        out.append(digit_str(n));
        return out;
    }
    let mut acc = String::new();
    let mut m: u64 = n;
    while m > 0
        invariant
            dec_str(n as nat) =~= (if m > 0 {
                dec_str(m as nat)
            } else {
                Seq::<char>::empty()
            }) + acc@,
        decreases m,
    {
        let d = m % 10;
        let rest = String::from_str(digit_str(d));
        let acc2 = rest.concat(acc.as_str());
        proof {
            if m >= 10 {
                assert(dec_str(m as nat) == dec_str((m as nat) / 10).push(dec_digit(
                    (m as nat) % 10,
                )));
                assert(dec_str((m as nat) / 10) + (seq![dec_digit((m as nat) % 10)] + acc@)
                    =~= dec_str(m as nat) + acc@);
            } else {
                assert(dec_str(m as nat) =~= seq![dec_digit(m as nat)]);
            }
        }
        acc = acc2;
        m = m / 10;
    }
    acc
}

} // verus!
