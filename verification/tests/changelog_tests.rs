use relkit::changelog::{
    build_prompt, build_request, compose_changelog, compose_fallback, fill_template,
    interpret_response, resolve_lang,
};
use relkit::Error;

#[test]
fn resolves_languages_by_name_and_code() {
    assert_eq!(resolve_lang("Chinese").unwrap(), "Chinese");
    assert_eq!(resolve_lang("zh").unwrap(), "Chinese");
    assert_eq!(resolve_lang("zho").unwrap(), "Chinese");
    assert_eq!(resolve_lang("English").unwrap(), "English");
    assert_eq!(resolve_lang("DE").unwrap(), "German");
}

#[test]
fn unknown_language_is_rejected() {
    assert_eq!(resolve_lang("klingon-ish").unwrap_err(), Error::InvalidLanguage);
}

#[test]
fn prompt_carries_all_four_values() {
    let p = build_prompt("v1.1.0", "v1.0.0", "abc1234 fix bug", "German");
    assert!(p.starts_with("Write a concise changelog for release v1.1.0 (since v1.0.0)"));
    assert!(p.contains("Git log:\nabc1234 fix bug\n"));
    assert!(p.contains("- Write in German\n"));
    assert!(p.ends_with("Do NOT wrap in code blocks"));
}

#[test]
fn custom_template_placeholders_are_substituted() {
    let p = fill_template(
        "Changes {tag} since {prev_tag} in {lang}:\n{git_log}",
        "v2.0.0",
        "v1.9.0",
        "abc fix",
        "English",
    );
    assert_eq!(p, "Changes v2.0.0 since v1.9.0 in English:\nabc fix");
}

#[test]
fn request_holds_one_user_message() {
    let r = build_request("some-model", "the prompt");
    assert_eq!(r.model, "some-model");
    assert_eq!(r.max_tokens, 1024);
    assert_eq!(r.messages.len(), 1);
    assert_eq!(r.messages[0].role, "user");
    assert_eq!(r.messages[0].content, "the prompt");
}

#[test]
fn response_error_payload_fails() {
    let r = interpret_response(None, Some("over quota".to_string()));
    assert_eq!(r.unwrap_err(), Error::ApiCallFailed("over quota".to_string()));
}

#[test]
fn response_first_text_wins() {
    let blocks = vec![None, Some("Changelog text".to_string()), Some("later".to_string())];
    assert_eq!(interpret_response(Some(blocks), None).unwrap(), "Changelog text");
}

#[test]
fn empty_response_fails() {
    assert_eq!(interpret_response(None, None).unwrap_err(), Error::EmptyResponse);
    assert_eq!(interpret_response(Some(vec![]), None).unwrap_err(), Error::EmptyResponse);
    assert_eq!(
        interpret_response(Some(vec![None]), None).unwrap_err(),
        Error::EmptyResponse
    );
    assert_eq!(
        interpret_response(Some(vec![Some(String::new())]), None).unwrap_err(),
        Error::EmptyResponse
    );
}

#[test]
fn fallback_lists_one_bullet_per_line_in_order() {
    let prev = "v1.0.0".to_string();
    let lines = vec!["abc1234 add feature".to_string(), "def5678 fix bug".to_string()];
    let out = compose_fallback(Some(&prev), &lines);
    assert_eq!(out, "## Changes since v1.0.0\n\n- abc1234 add feature\n- def5678 fix bug");
}

#[test]
fn fallback_header_reads_since_initial_without_previous_tag() {
    let lines = vec!["abc1234 first".to_string()];
    let out = compose_fallback(None, &lines);
    assert!(out.starts_with("## Changes since initial\n\n"));
}

#[test]
fn failed_call_composes_the_fallback() {
    let prev = "v1.0.0".to_string();
    let lines = vec!["abc1234 one".to_string(), "def5678 two".to_string()];
    let out = compose_changelog(
        Err(Error::ApiCallFailed("http 500".to_string())),
        Some(&prev),
        &lines,
    );
    assert_eq!(out, compose_fallback(Some(&prev), &lines));
}

#[test]
fn successful_call_is_verbatim() {
    let lines = vec!["abc fix".to_string()];
    let out = compose_changelog(Ok("## Release notes\n- nice".to_string()), None, &lines);
    assert_eq!(out, "## Release notes\n- nice");
}
