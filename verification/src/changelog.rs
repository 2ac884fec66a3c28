//! Changelog composition: resolve the output language, build the prompt for
//! the summarization service, interpret its response, and fall back to a
//! deterministic bullet list whenever the call fails.

use vstd::prelude::*;

use crate::text::{ascii_lower, join_spec, join_with, lower_spec, replace_all, replace_spec};
use crate::Error;

verus! {

// ---------------------------------------------------------------------------
// language resolution
// ---------------------------------------------------------------------------

/// The English name the ISO 639 table gives for an English language name.
pub uninterp spec fn language_by_name(s: Seq<char>) -> Option<Seq<char>>;

/// The English name the ISO 639 table gives for a two-letter (639-1) code.
pub uninterp spec fn language_by_code2(s: Seq<char>) -> Option<Seq<char>>;

/// The English name the ISO 639 table gives for a three-letter (639-3) code.
pub uninterp spec fn language_by_code3(s: Seq<char>) -> Option<Seq<char>>;

/// Relies on isolang's `Language::from_name` and `Language::to_name`: a
/// lookup in the fixed ISO 639 table by English name.
#[verifier::external_body]
fn lookup_language_by_name(s: &str) -> (r: Option<String>)
    ensures
        r.deep_view() == language_by_name(s@),
{
    isolang::Language::from_name(s).map(|l| l.to_name().to_string())
}

/// Relies on isolang's `Language::from_639_1` and `Language::to_name`: a
/// lookup in the fixed ISO 639 table by two-letter code.
#[verifier::external_body]
fn lookup_language_by_code2(s: &str) -> (r: Option<String>)
    ensures
        r.deep_view() == language_by_code2(s@),
{
    isolang::Language::from_639_1(s).map(|l| l.to_name().to_string())
}

/// Relies on isolang's `Language::from_639_3` and `Language::to_name`: a
/// lookup in the fixed ISO 639 table by three-letter code.
#[verifier::external_body]
fn lookup_language_by_code3(s: &str) -> (r: Option<String>)
    ensures
        r.deep_view() == language_by_code3(s@),
{
    isolang::Language::from_639_3(s).map(|l| l.to_name().to_string())
}

/// Resolve a language given as an English name, a two-letter code, or a
/// three-letter code, to its English display name; codes are matched
/// case-insensitively. An input none of the lookups know is
/// `InvalidLanguage`.
pub fn resolve_lang(input: &str) -> (r: Result<String, Error>)
    ensures
        match language_by_name(input@) {
            Some(n) => r matches Ok(o) && o@ == n,
            None => match language_by_code2(lower_spec(input@)) {
                Some(n) => r matches Ok(o) && o@ == n,
                None => match language_by_code3(lower_spec(input@)) {
                    Some(n) => r matches Ok(o) && o@ == n,
                    None => r == Err::<String, Error>(Error::InvalidLanguage),
                },
            },
        },
{
    match lookup_language_by_name(input) {
        Some(n) => {
            return Ok(n);
        },
        None => {},
    }
    let lower = ascii_lower(input);
    match lookup_language_by_code2(lower.as_str()) {
        Some(n) => {
            return Ok(n);
        },
        None => {},
    }
    match lookup_language_by_code3(lower.as_str()) {
        Some(n) => {
            return Ok(n);
        },
        None => {},
    }
    Err(Error::InvalidLanguage)
}

// ---------------------------------------------------------------------------
// prompt building
// ---------------------------------------------------------------------------

/// The built-in prompt around a release tag, its predecessor, the commit log,
/// and the output language.
pub open spec fn prompt_spec(
    tag: Seq<char>,
    prev: Seq<char>,
    log: Seq<char>,
    lang: Seq<char>,
) -> Seq<char> {
    "Write a concise changelog for release "@ + tag + " (since "@ + prev
        + ") of WebFly, an Android app like Expo Go for WebF engine.\n\nGit log:\n"@ + log
        + "\n\nRules:\n- Group by: Features, Fixes, Improvements, Other\n- Skip empty groups\n- Use markdown with bullet points\n- Keep it short and user-facing\n- Write in "@
        + lang + "\n- Do NOT wrap in code blocks"@
}

/// Build the built-in prompt.
pub fn build_prompt(tag: &str, prev_tag: &str, git_log: &str, lang: &str) -> (r: String)
    ensures
        r@ == prompt_spec(tag@, prev_tag@, git_log@, lang@),
{
    let mut out = String::new();
    out.append("Write a concise changelog for release ");
    out.append(tag);
    out.append(" (since ");
    out.append(prev_tag);
    out.append(") of WebFly, an Android app like Expo Go for WebF engine.\n\nGit log:\n");
    out.append(git_log);
    out.append(
        "\n\nRules:\n- Group by: Features, Fixes, Improvements, Other\n- Skip empty groups\n- Use markdown with bullet points\n- Keep it short and user-facing\n- Write in ",
    );
    out.append(lang);
    out.append("\n- Do NOT wrap in code blocks");
    proof {
        assert(out@ =~= prompt_spec(tag@, prev_tag@, git_log@, lang@));
    }
    out
}

/// A caller-supplied template after placeholder substitution: `{tag}`,
/// `{prev_tag}`, `{git_log}` and `{lang}` replaced in that order.
pub open spec fn filled_template_spec(
    template: Seq<char>,
    tag: Seq<char>,
    prev: Seq<char>,
    log: Seq<char>,
    lang: Seq<char>,
) -> Seq<char> {
    replace_spec(
        replace_spec(replace_spec(replace_spec(template, "{tag}"@, tag), "{prev_tag}"@, prev),
        "{git_log}"@, log),
        "{lang}"@,
        lang,
    )
}

/// Substitute the four named placeholders into a caller-supplied template.
pub fn fill_template(template: &str, tag: &str, prev_tag: &str, git_log: &str, lang: &str) -> (r:
    String)
    ensures
        r@ == filled_template_spec(template@, tag@, prev_tag@, git_log@, lang@),
{
    proof {
        reveal_strlit("{tag}");
        reveal_strlit("{prev_tag}");
        reveal_strlit("{git_log}");
        reveal_strlit("{lang}");
    }
    let a = replace_all(template, "{tag}", tag);
    let b = replace_all(a.as_str(), "{prev_tag}", prev_tag);
    let c = replace_all(b.as_str(), "{git_log}", git_log);
    replace_all(c.as_str(), "{lang}", lang)
}

// ---------------------------------------------------------------------------
// the summarization request and response
// ---------------------------------------------------------------------------

/// One message of a summarization request.
#[derive(Debug, Clone)]
pub struct ApiMessage {
    pub role: String,
    pub content: String,
}

/// The request sent to the summarization service.
#[derive(Debug, Clone)]
pub struct ApiRequest {
    pub model: String,
    pub max_tokens: u32,
    pub messages: Vec<ApiMessage>,
}

/// Build the request: one user-role message carrying the prompt, with a
/// bounded maximum output size.
pub fn build_request(model: &str, prompt: &str) -> (r: ApiRequest)
    ensures
        r.model@ == model@,
        r.max_tokens == 1024,
        r.messages.len() == 1,
        r.messages@[0].role@ == "user"@,
        r.messages@[0].content@ == prompt@,
{
    let msg = ApiMessage { role: String::from_str("user"), content: prompt.to_owned() };
    let mut messages: Vec<ApiMessage> = Vec::new();
    messages.push(msg);
    ApiRequest { model: model.to_owned(), max_tokens: 1024, messages }
}

/// The first text any content block carries.
pub open spec fn first_text(blocks: Seq<Option<Seq<char>>>) -> Option<Seq<char>>
    decreases blocks.len(),
{
    if blocks.len() == 0 {
        None
    } else {
        match blocks[0] {
            Some(t) => Some(t),
            None => first_text(blocks.drop_first()),
        }
    }
}

/// Interpret a decoded summarization response: an error payload fails with
/// its message; otherwise the first text of the content blocks is the result,
/// unless it is absent or empty.
pub fn interpret_response(blocks: Option<Vec<Option<String>>>, error: Option<String>) -> (r:
    Result<String, Error>)
    ensures
        match error {
            Some(m) => r matches Err(e) && e matches Error::ApiCallFailed(em) && em@ == m@,
            None => {
                let t = match blocks {
                    Some(bs) => first_text(bs.deep_view()),
                    None => None,
                };
                match t {
                    Some(s) => if s.len() > 0 {
                        r matches Ok(o) && o@ == s
                    } else {
                        r == Err::<String, Error>(Error::EmptyResponse)
                    },
                    None => r == Err::<String, Error>(Error::EmptyResponse),
                }
            },
        },
{
    match error {
        Some(m) => Err(Error::ApiCallFailed(m)),
        None => {
            match blocks {
                Some(bs) => {
                    let n = bs.len();
                    let mut i: usize = 0;
                    proof {
                        assert(bs.deep_view().skip(0) =~= bs.deep_view());
                    }
                    while i < n
                        invariant
                            n == bs.len(),
                            error is None,
                            blocks == Some(bs),
                            0 <= i <= n,
                            first_text(bs.deep_view()) == first_text(
                                bs.deep_view().skip(i as int),
                            ),
                            forall|j: int| 0 <= j < i ==> bs.deep_view()[j] is None,
                        decreases n - i,
                    {
                        proof {
                            assert(bs.deep_view().skip(i as int)[0] == bs.deep_view()[i as int]);
                            assert(bs.deep_view()[i as int] == bs@[i as int].deep_view());
                            assert(bs.deep_view().skip(i as int).drop_first() =~= bs.deep_view()
                                .skip(i + 1));
                        }
                        match &bs[i] {
                            Some(t) => {
                                proof {
                                    assert(bs.deep_view()[i as int] == Some(t@));
                                    assert(first_text(bs.deep_view().skip(i as int)) == Some(t@));
                                }
                                if t.unicode_len() > 0 {
                                    return Ok(t.clone());
                                } else {
                                    return Err(Error::EmptyResponse);
                                }
                            },
                            None => {},
                        }
                        i += 1;
                    }
                    proof {
                        assert(bs.deep_view().skip(i as int).len() == 0);
                    }
                    Err(Error::EmptyResponse)
                },
                None => Err(Error::EmptyResponse),
            }
        },
    }
}

// ---------------------------------------------------------------------------
// composition and the deterministic fallback
// ---------------------------------------------------------------------------

/// One bullet per commit-log line, in order.
pub open spec fn bullet_lines(lines: Seq<Seq<char>>) -> Seq<Seq<char>> {
    lines.map_values(|l: Seq<char>| seq!['-', ' '] + l)
}

/// The deterministic fallback: a header naming the previous tag (or
/// `initial`), then one bullet per commit-log line.
pub open spec fn fallback_spec(prev: Option<Seq<char>>, lines: Seq<Seq<char>>) -> Seq<char> {
    let header = match prev {
        Some(p) => "## Changes since "@ + p,
        None => "## Changes since "@ + "initial"@,
    };
    header + "\n\n"@ + join_spec(bullet_lines(lines), seq!['\n'])
}

/// The fallback lists exactly one bullet per commit-log line, in order.
pub proof fn lemma_fallback_bullets(lines: Seq<Seq<char>>)
    ensures
        bullet_lines(lines).len() == lines.len(),
        forall|i: int|
            0 <= i < lines.len() ==> #[trigger] bullet_lines(lines)[i] == seq!['-', ' ']
                + lines[i],
{
}

/// Build the deterministic fallback changelog.
pub fn compose_fallback(prev_tag: Option<&String>, log_lines: &Vec<String>) -> (r: String)
    ensures
        r@ == fallback_spec(
            match prev_tag {
                Some(p) => Some(p@),
                None => None,
            },
            log_lines.deep_view(),
        ),
{
    let mut out = String::new();
    out.append("## Changes since ");
    match prev_tag {
        Some(p) => out.append(p.as_str()),
        None => out.append("initial"),
    }
    out.append("\n\n");
    let n = log_lines.len();
    let mut bullets: Vec<String> = Vec::new();
    let mut i: usize = 0;
    while i < n
        invariant
            n == log_lines.len(),
            0 <= i <= n,
            bullets.deep_view() =~~= bullet_lines(log_lines.deep_view().take(i as int)),
        decreases n - i,
    {
        let mut b = String::new();
        proof {
            reveal_strlit("- ");
            assert("- "@ =~= seq!['-', ' ']);
        }
        b.append("- ");
        b.append(log_lines[i].as_str());
        let ghost prev = bullets.deep_view();
        bullets.push(b);
        proof {
            let dv = log_lines.deep_view();
            assert(bullets.deep_view() =~~= prev.push(seq!['-', ' '] + dv[i as int]));
            assert(dv.take(i + 1) =~= dv.take(i as int).push(dv[i as int]));
            assert(bullet_lines(dv.take(i + 1)) =~~= bullet_lines(dv.take(i as int)).push(
                seq!['-', ' '] + dv[i as int],
            ));
        }
        i += 1;
    }
    proof {
        assert(log_lines.deep_view().take(n as int) =~= log_lines.deep_view());
    }
    let joined = join_with(&bullets, "\n");
    out.append(joined.as_str());
    proof {
        reveal_strlit("\n");
        assert("\n"@ =~= seq!['\n']);
        assert(out@ =~= fallback_spec(
            match prev_tag {
                Some(p) => Some(p@),
                None => None,
            },
            log_lines.deep_view(),
        ));
    }
    out
}

/// The final changelog: the service's text verbatim on success, and the
/// deterministic fallback on any failure — composition itself never fails.
pub fn compose_changelog(
    api_text: Result<String, Error>,
    prev_tag: Option<&String>,
    log_lines: &Vec<String>,
) -> (r: String)
    ensures
        match api_text {
            Ok(t) => r@ == t@,
            Err(_) => r@ == fallback_spec(
                match prev_tag {
                    Some(p) => Some(p@),
                    None => None,
                },
                log_lines.deep_view(),
            ),
        },
{
    match api_text {
        Ok(t) => t,
        Err(_) => compose_fallback(prev_tag, log_lines),
    }
}

} // verus!
