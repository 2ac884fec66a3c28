//! Project configuration: the configuration model, `$VAR` / `${VAR}`
//! expansion against an environment snapshot, template-variable substitution,
//! properties-file edits, and the argument lists and file rewrites derived
//! from the configuration.

use vstd::prelude::*;

use crate::text::{
    dec_str, find_idx, find_str, is_digit, join_spec, join_with, matches_at, replace_all,
    replace_spec, split_on, split_spec, str_eq, substr, trim, trim_spec, u64_to_dec,
};
use crate::Error;

verus! {

// ---------------------------------------------------------------------------
// the configuration model
// ---------------------------------------------------------------------------

#[derive(Debug, Clone)]
pub struct Config {
    pub project_name: String,
    pub org: Option<String>,
    pub description: Option<String>,
    pub version: Option<String>,
    pub pubspec: Option<PubspecConfig>,
    pub platforms_dir: Option<String>,
    pub create: FlutterCreateConfig,
    pub android: AndroidConfig,
    pub ios: Option<IosConfig>,
    pub windows: Option<WindowsConfig>,
}

#[derive(Debug, Clone)]
pub struct PubspecConfig {
    pub name: Option<String>,
    pub description: Option<String>,
    pub version: Option<String>,
    pub homepage: Option<String>,
    pub repository: Option<String>,
}

#[derive(Debug, Clone)]
pub struct FlutterCreateConfig {
    pub platforms: Option<Vec<String>>,
    pub android_language: Option<String>,
}

#[derive(Debug, Clone)]
pub struct AndroidConfig {
    pub gradle_wrapper: AndroidGradleWrapperConfig,
    pub template_vars: AndroidTemplateVars,
}

#[derive(Debug, Clone)]
pub struct AndroidTemplateVars {
    pub namespace: Option<String>,
    pub application_id: Option<String>,
    pub output_file_name: Option<String>,
    pub key_alias: Option<String>,
    pub store_file: Option<String>,
}

#[derive(Debug, Clone)]
pub struct AndroidGradleWrapperConfig {
    pub distribution_url: Option<String>,
}

#[derive(Debug, Clone)]
pub struct IosConfig {}

#[derive(Debug, Clone)]
pub struct WindowsConfig {
    pub enabled: bool,
    pub window_width: Option<u32>,
    pub window_height: Option<u32>,
}

/// One variable of the environment snapshot.
#[derive(Debug, Clone)]
pub struct EnvEntry {
    pub name: String,
    pub value: String,
}

// ---------------------------------------------------------------------------
// environment-variable expansion
// ---------------------------------------------------------------------------

/// A character that may form a bare `$NAME` reference.
pub open spec fn is_key_char(c: char) -> bool {
    is_digit(c) || ('a' <= c && c <= 'z') || ('A' <= c && c <= 'Z') || c == '_'
}

/// Length of the leading run of key characters.
pub open spec fn key_run(s: Seq<char>) -> int
    decreases s.len(),
{
    if s.len() == 0 || !is_key_char(s[0]) {
        0
    } else {
        1 + key_run(s.drop_first())
    }
}

proof fn lemma_key_run(s: Seq<char>)
    ensures
        0 <= key_run(s) <= s.len(),
        forall|i: int| 0 <= i < key_run(s) ==> is_key_char(#[trigger] s[i]),
        key_run(s) < s.len() ==> !is_key_char(s[key_run(s)]),
    decreases s.len(),
{
    if s.len() > 0 && is_key_char(s[0]) {
        let t = s.drop_first();
        lemma_key_run(t);
        assert forall|i: int| 0 <= i < key_run(s) implies is_key_char(#[trigger] s[i]) by {
            if i > 0 {
                assert(s[i] == t[i - 1]);
            }
        }
        if key_run(s) < s.len() {
            assert(s[key_run(s)] == t[key_run(t)]);
        }
    }
}

/// The value of the first environment entry with this name.
pub open spec fn env_lookup(env: Seq<EnvEntry>, key: Seq<char>) -> Option<Seq<char>>
    decreases env.len(),
{
    if env.len() == 0 {
        None
    } else if env[0].name@ == key {
        Some(env[0].value@)
    } else {
        env_lookup(env.drop_first(), key)
    }
}

proof fn lemma_env_lookup_skip(env: Seq<EnvEntry>, key: Seq<char>, i: int)
    requires
        0 <= i <= env.len(),
        forall|j: int| 0 <= j < i ==> (#[trigger] env[j]).name@ != key,
    ensures
        env_lookup(env, key) == env_lookup(env.skip(i), key),
    decreases i,
{
    if i > 0 {
        let t = env.drop_first();
        assert(env[0].name@ != key);
        assert forall|j: int| 0 <= j < i - 1 implies (#[trigger] t[j]).name@ != key by {
            assert(t[j] == env[j + 1]);
        }
        lemma_env_lookup_skip(t, key, i - 1);
        assert(t.skip(i - 1) =~= env.skip(i));
    } else {
        assert(env.skip(0) =~= env);
    }
}

/// The outcome of expanding one configuration value.
pub ghost enum Expansion {
    /// Every reference resolved.
    Done(Seq<char>),
    /// A `${NAME}` reference was never closed.
    Unclosed,
    /// A referenced variable is absent from the environment.
    Missing(Seq<char>),
}

/// Expand `$NAME` and `${NAME}` references against the environment, left to
/// right; a lone `$` that opens no reference stays literal.
pub open spec fn expand_spec(s: Seq<char>, env: Seq<EnvEntry>) -> Expansion
    decreases s.len(),
{
    if s.len() == 0 {
        Expansion::Done(Seq::empty())
    } else if s[0] != '$' {
        match expand_spec(s.drop_first(), env) {
            Expansion::Done(t) => Expansion::Done(seq![s[0]] + t),
            e => e,
        }
    } else if s.len() >= 2 && s[1] == '{' {
        let close = find_idx(s.skip(2), '}');
        if close < 0 || close + 3 > s.len() {
            Expansion::Unclosed
        } else {
            let key = s.skip(2).take(close);
            match env_lookup(env, key) {
                Some(v) => match expand_spec(s.skip(3 + close), env) {
                    Expansion::Done(t) => Expansion::Done(v + t),
                    e => e,
                },
                None => Expansion::Missing(key),
            }
        }
    } else {
        let run = key_run(s.drop_first());
        if run <= 0 || run + 1 > s.len() {
            match expand_spec(s.drop_first(), env) {
                Expansion::Done(t) => Expansion::Done(seq!['$'] + t),
                e => e,
            }
        } else {
            let key = s.drop_first().take(run);
            match env_lookup(env, key) {
                Some(v) => match expand_spec(s.skip(1 + run), env) {
                    Expansion::Done(t) => Expansion::Done(v + t),
                    e => e,
                },
                None => Expansion::Missing(key),
            }
        }
    }
}

/// Executable key-character test.
fn is_key_char_exec(c: char) -> (r: bool)
    ensures
        r == is_key_char(c),
{
    let u = c as u32;
    (48 <= u && u <= 57) || (97 <= u && u <= 122) || (65 <= u && u <= 90) || c == '_'
}

/// Executable first-match environment lookup.
fn env_lookup_exec(env: &Vec<EnvEntry>, key: &str) -> (r: Option<String>)
    ensures
        r.deep_view() == env_lookup(env@, key@),
{
    let n = env.len();
    let mut i: usize = 0;
    while i < n
        invariant
            n == env.len(),
            0 <= i <= n,
            forall|j: int| 0 <= j < i ==> (#[trigger] env@[j]).name@ != key@,
        decreases n - i,
    {
        if str_eq(env[i].name.as_str(), key) {
            proof {
                lemma_env_lookup_skip(env@, key@, i as int);
                assert(env@.skip(i as int)[0] == env@[i as int]);
            }
            return Some(env[i].value.clone());
        }
        i += 1;
    }
    proof {
        lemma_env_lookup_skip(env@, key@, i as int);
    }
    None
}

/// The recursive expansion; an unclosed reference is reported without naming
/// the offending value (the public entry point names it).
fn expand_rec(s: &str, env: &Vec<EnvEntry>) -> (r: Result<String, Error>)
    ensures
        match expand_spec(s@, env@) {
            Expansion::Done(t) => r matches Ok(o) && o@ == t,
            Expansion::Unclosed => r matches Err(e) && e matches Error::UnclosedVar(_),
            Expansion::Missing(k) => r matches Err(e) && e matches Error::MissingEnvVar(km)
                && km@ == k,
        },
    decreases s@.len(),
{
    let n = s.unicode_len();
    if n == 0 {
        return Ok(String::new());
    }
    let c0 = s.get_char(0);
    if c0 != '$' {
        let rest = expand_rec(s.substring_char(1, n), env)?;
        proof {
            assert(s@.subrange(1, n as int) =~= s@.drop_first());
        }
        let head = substr(s, 0, 1);
        let out = head.concat(rest.as_str());
        proof {
            assert(out@ =~= seq![s@[0]] + rest@);
        }
        return Ok(out);
    }
    if n >= 2 && s.get_char(1) == '{' {
        let tail = s.substring_char(2, n);
        proof {
            assert(tail@ =~= s@.skip(2));
        }
        match crate::text::find_char(tail, '}') {
            Some(ci) => {
                let key = substr(tail, 0, ci);
                proof {
                    assert(key@ =~= s@.skip(2).take(ci as int));
                }
                match env_lookup_exec(env, key.as_str()) {
                    Some(v) => {
                        let rest = expand_rec(s.substring_char(2 + ci + 1, n), env)?;
                        proof {
                            assert(s@.subrange(2 + ci + 1, n as int) =~= s@.skip(
                                3 + ci as int,
                            ));
                        }
                        let out = v.concat(rest.as_str());
                        return Ok(out);
                    },
                    None => {
                        return Err(Error::MissingEnvVar(key));
                    },
                }
            },
            None => {
                return Err(Error::UnclosedVar(String::new()));
            },
        }
    }
    // a bare `$NAME` reference, or a literal `$`
    let mut run: usize = 1;
    proof {
        lemma_key_run(s@.drop_first());
    }
    while run < n && is_key_char_exec(s.get_char(run))
        invariant
            n == s@.len(),
            n > 0,
            1 <= run <= n,
            forall|j: int| 0 <= j < run - 1 ==> is_key_char(#[trigger] s@.drop_first()[j]),
            run - 1 <= key_run(s@.drop_first()),
        decreases n - run,
    {
        proof {
            lemma_key_run(s@.drop_first());
            assert(s@.drop_first()[run - 1] == s@[run as int]);
            if run as int - 1 == key_run(s@.drop_first()) {
                assert(!is_key_char(s@.drop_first()[key_run(s@.drop_first())]));
            }
        }
        run += 1;
        proof {
            lemma_key_run(s@.drop_first());
            assert forall|j: int| 0 <= j < run - 1 implies is_key_char(
                #[trigger] s@.drop_first()[j],
            ) by {
                assert(s@.drop_first()[j] == s@[j + 1]);
            }
        }
    }
    proof {
        lemma_key_run(s@.drop_first());
        if run < n {
            assert(s@.drop_first()[run - 1] == s@[run as int]);
            assert(!is_key_char(s@.drop_first()[run - 1]));
            assert(key_run(s@.drop_first()) == run - 1);
        } else {
            assert(key_run(s@.drop_first()) <= n - 1);
            assert(key_run(s@.drop_first()) == run - 1);
        }
    }
    if run == 1 {
        // no key follows: keep the `$` literal
        let rest = expand_rec(s.substring_char(1, n), env)?;
        proof {
            assert(s@.subrange(1, n as int) =~= s@.drop_first());
        }
        let head = substr(s, 0, 1);
        let out = head.concat(rest.as_str());
        proof {
            assert(out@ =~= seq!['$'] + rest@);
        }
        return Ok(out);
    }
    let key = substr(s, 1, run);
    proof {
        assert(key@ =~= s@.drop_first().take(run - 1));
    }
    match env_lookup_exec(env, key.as_str()) {
        Some(v) => {
            let rest = expand_rec(s.substring_char(run, n), env)?;
            proof {
                assert(s@.subrange(run as int, n as int) =~= s@.skip(1 + (run - 1)));
            }
            let out = v.concat(rest.as_str());
            Ok(out)
        },
        None => Err(Error::MissingEnvVar(key)),
    }
}

/// Expand `$NAME` and `${NAME}` references in a configuration value against
/// the environment snapshot. An unresolvable reference fails: `UnclosedVar`
/// names the whole value, `MissingEnvVar` the absent variable.
pub fn expand_env_vars(input: &str, env: &Vec<EnvEntry>) -> (r: Result<String, Error>)
    ensures
        match expand_spec(input@, env@) {
            Expansion::Done(t) => r matches Ok(o) && o@ == t,
            Expansion::Unclosed => r matches Err(e) && e matches Error::UnclosedVar(v) && v@
                == input@,
            Expansion::Missing(k) => r matches Err(e) && e matches Error::MissingEnvVar(km)
                && km@ == k,
        },
{
    match expand_rec(input, env) {
        Ok(o) => Ok(o),
        Err(e) => match e {
            Error::UnclosedVar(_) => Err(Error::UnclosedVar(input.to_owned())),
            other => Err(other),
        },
    }
}

/// The expansion succeeds.
pub open spec fn expand_ok(s: Seq<char>, env: Seq<EnvEntry>) -> bool {
    expand_spec(s, env) is Done
}

/// The expanded value (meaningful when the expansion succeeds).
pub open spec fn expanded(s: Seq<char>, env: Seq<EnvEntry>) -> Seq<char> {
    match expand_spec(s, env) {
        Expansion::Done(t) => t,
        _ => Seq::empty(),
    }
}

/// The expansion of an optional value succeeds (absent values trivially so).
pub open spec fn opt_expand_ok(o: Option<String>, env: Seq<EnvEntry>) -> bool {
    match o {
        Some(s) => expand_ok(s@, env),
        None => true,
    }
}

/// An optional value relates to the other by expansion.
pub open spec fn opt_expanded(before: Option<String>, after: Option<String>, env: Seq<EnvEntry>)
    -> bool {
    match before {
        Some(s) => after matches Some(a) && a@ == expanded(s@, env),
        None => after is None,
    }
}

/// An expansion error of one of the library's kinds.
pub open spec fn is_expand_err(e: Error) -> bool {
    ||| e matches Error::UnclosedVar(_)
    ||| e matches Error::MissingEnvVar(_)
}

/// Expand an optional field.
fn expand_opt(o: &Option<String>, env: &Vec<EnvEntry>) -> (r: Result<Option<String>, Error>)
    ensures
        match r {
            Ok(a) => opt_expand_ok(*o, env@) && opt_expanded(*o, a, env@),
            Err(e) => !opt_expand_ok(*o, env@) && is_expand_err(e),
        },
{
    match o {
        Some(s) => {
            let v = expand_env_vars(s.as_str(), env)?;
            Ok(Some(v))
        },
        None => Ok(None),
    }
}

/// Every listed platform expands.
pub open spec fn platforms_expand_ok(o: Option<Vec<String>>, env: Seq<EnvEntry>) -> bool {
    match o {
        Some(ps) => forall|i: int| 0 <= i < ps.len() ==> expand_ok((#[trigger] ps@[i])@, env),
        None => true,
    }
}

/// Expand the flutter-create section: the Android language and every listed
/// platform.
pub fn expand_flutter_create_config(create: FlutterCreateConfig, env: &Vec<EnvEntry>) -> (r:
    Result<FlutterCreateConfig, Error>)
    ensures
        r is Ok <==> opt_expand_ok(create.android_language, env@) && platforms_expand_ok(
            create.platforms,
            env@,
        ),
        match r {
            Ok(c2) => {
                &&& opt_expand_ok(create.android_language, env@)
                &&& opt_expanded(create.android_language, c2.android_language, env@)
                &&& match create.platforms {
                    Some(ps) => c2.platforms matches Some(qs) && qs.len() == ps.len() && forall|
                        i: int,
                    |
                        0 <= i < ps.len() ==> expand_ok((#[trigger] ps@[i])@, env@) && qs@[i]@
                            == expanded(ps@[i]@, env@),
                    None => c2.platforms is None,
                }
            },
            Err(e) => {
                &&& is_expand_err(e)
                &&& !(opt_expand_ok(create.android_language, env@) && platforms_expand_ok(
                    create.platforms,
                    env@,
                ))
            },
        },
{
    let android_language = expand_opt(&create.android_language, env)?;
    let platforms = match create.platforms {
        Some(ps) => {
            let n = ps.len();
            let mut out: Vec<String> = Vec::new();
            let mut i: usize = 0;
            while i < n
                invariant
                    n == ps.len(),
                    create.platforms == Some(ps),
                    opt_expand_ok(create.android_language, env@),
                    0 <= i <= n,
                    out.len() == i,
                    forall|j: int|
                        0 <= j < i ==> expand_ok((#[trigger] ps@[j])@, env@) && out@[j]@
                            == expanded(ps@[j]@, env@),
                decreases n - i,
            {
                match expand_env_vars(ps[i].as_str(), env) {
                    Ok(v) => {
                        out.push(v);
                    },
                    Err(e) => {
                        proof {
                            assert(!expand_ok(ps@[i as int]@, env@));
                            assert(!platforms_expand_ok(create.platforms, env@));
                        }
                        return Err(e);
                    },
                }
                i += 1;
            }
            Some(out)
        },
        None => None,
    };
    Ok(FlutterCreateConfig { platforms, android_language })
}

/// Trailing dots removed.
pub open spec fn drop_trailing_dots(s: Seq<char>) -> Seq<char>
    decreases s.len(),
{
    if s.len() > 0 && s.last() == '.' {
        drop_trailing_dots(s.drop_last())
    } else {
        s
    }
}

/// The application id is not yet usable: absent or blank.
pub open spec fn appid_blank(o: Option<String>) -> bool {
    match o {
        Some(s) => trim_spec(s@).len() == 0,
        None => true,
    }
}

/// The application id derived from an organization and a project name.
pub open spec fn derived_appid(org: Seq<char>, project: Seq<char>) -> Seq<char> {
    drop_trailing_dots(trim_spec(org)) + seq!['.'] + project
}

/// Strip trailing dots from a trimmed organization.
fn org_core(s: &str) -> (r: String)
    ensures
        r@ == drop_trailing_dots(s@),
{
    let mut b = s.unicode_len();
    proof {
        assert(s@.take(b as int) =~= s@);
    }
    while b > 0 && s.get_char(b - 1) == '.'
        invariant
            b <= s@.len(),
            drop_trailing_dots(s@) == drop_trailing_dots(s@.take(b as int)),
        decreases b,
    {
        proof {
            assert(s@.take(b as int).last() == s@[b - 1]);
            assert(s@.take(b as int).drop_last() =~= s@.take(b - 1));
        }
        b -= 1;
    }
    proof {
        if b > 0 {
            assert(s@.take(b as int).last() == s@[b - 1]);
        }
        assert(drop_trailing_dots(s@.take(b as int)) == s@.take(b as int));
    }
    let r = substr(s, 0, b);
    proof {
        assert(s@.subrange(0, b as int) =~= s@.take(b as int));
    }
    r
}

/// The whole configuration expands and an application id is available.
pub open spec fn config_expands(cfg: Config, env: Seq<EnvEntry>) -> bool {
    &&& expand_ok(cfg.project_name@, env)
    &&& opt_expand_ok(cfg.org, env)
    &&& opt_expand_ok(cfg.description, env)
    &&& opt_expand_ok(cfg.platforms_dir, env)
    &&& opt_expand_ok(cfg.create.android_language, env)
    &&& platforms_expand_ok(cfg.create.platforms, env)
    &&& opt_expand_ok(cfg.android.gradle_wrapper.distribution_url, env)
    &&& (appid_blank(cfg.android.template_vars.application_id) ==> (cfg.org matches Some(o)
        && trim_spec(expanded(o@, env)).len() > 0))
}

/// Expand every configurable value of the configuration, then derive the
/// Android application id from the organization and project name when it is
/// absent or blank, and default the namespace to the application id.
pub fn expand_config(cfg: Config, env: &Vec<EnvEntry>) -> (r: Result<Config, Error>)
    ensures
        r is Ok <==> config_expands(cfg, env@),
        r matches Ok(c2) ==> {
            &&& expand_ok(cfg.project_name@, env@)
            &&& c2.project_name@ == expanded(cfg.project_name@, env@)
            &&& opt_expanded(cfg.org, c2.org, env@)
            &&& opt_expanded(cfg.description, c2.description, env@)
            &&& opt_expanded(cfg.platforms_dir, c2.platforms_dir, env@)
            &&& opt_expanded(
                cfg.android.gradle_wrapper.distribution_url,
                c2.android.gradle_wrapper.distribution_url,
                env@,
            )
            &&& c2.version == cfg.version
            &&& c2.android.template_vars.output_file_name
                == cfg.android.template_vars.output_file_name
            &&& c2.android.template_vars.key_alias == cfg.android.template_vars.key_alias
            &&& c2.android.template_vars.store_file == cfg.android.template_vars.store_file
            &&& (!appid_blank(cfg.android.template_vars.application_id)
                ==> c2.android.template_vars.application_id
                == cfg.android.template_vars.application_id)
            &&& (appid_blank(cfg.android.template_vars.application_id) ==> ((cfg.org matches Some(
                o,
            ) && trim_spec(expanded(o@, env@)).len() > 0) && (
            c2.android.template_vars.application_id matches Some(a) && a@ == derived_appid(
                expanded(match cfg.org {
                    Some(o2) => o2@,
                    None => Seq::empty(),
                }, env@),
                expanded(cfg.project_name@, env@),
            ))))
            &&& (appid_blank(cfg.android.template_vars.namespace)
                ==> c2.android.template_vars.namespace
                == c2.android.template_vars.application_id)
            &&& (!appid_blank(cfg.android.template_vars.namespace)
                ==> c2.android.template_vars.namespace == cfg.android.template_vars.namespace)
        },
        r matches Err(e) ==> (is_expand_err(e) || e == Error::MissingApplicationId),
{
    let project_name = expand_env_vars(cfg.project_name.as_str(), env)?;
    let org = expand_opt(&cfg.org, env)?;
    let description = expand_opt(&cfg.description, env)?;
    let platforms_dir = expand_opt(&cfg.platforms_dir, env)?;
    let create = expand_flutter_create_config(cfg.create, env)?;

    let tv = cfg.android.template_vars;
    let appid_is_blank = match &tv.application_id {
        Some(s) => {
            let t = trim(s.as_str());
            t.unicode_len() == 0
        },
        None => true,
    };
    let application_id: Option<String> = if !appid_is_blank {
        tv.application_id
    } else {
        match &org {
            Some(o) => {
                let ot = trim(o.as_str());
                if ot.unicode_len() == 0 {
                    return Err(Error::MissingApplicationId);
                }
                let mut base = org_core(ot.as_str());
                proof {
                    reveal_strlit(".");
                    assert("."@ =~= seq!['.']);
                }
                base.append(".");
                base.append(project_name.as_str());
                proof {
                    assert(trim_spec(o@) =~= ot@);
                    assert(base@ =~= derived_appid(o@, project_name@));
                }
                Some(base)
            },
            None => {
                return Err(Error::MissingApplicationId);
            },
        }
    };
    let ns_is_blank = match &tv.namespace {
        Some(s) => {
            let t = trim(s.as_str());
            t.unicode_len() == 0
        },
        None => true,
    };
    let namespace: Option<String> = if ns_is_blank {
        match &application_id {
            Some(a) => Some(a.clone()),
            None => None,
        }
    } else {
        tv.namespace
    };
    let distribution_url = expand_opt(&cfg.android.gradle_wrapper.distribution_url, env)?;

    Ok(
        Config {
            project_name,
            org,
            description,
            version: cfg.version,
            pubspec: cfg.pubspec,
            platforms_dir,
            create,
            android: AndroidConfig {
                gradle_wrapper: AndroidGradleWrapperConfig { distribution_url },
                template_vars: AndroidTemplateVars {
                    namespace,
                    application_id,
                    output_file_name: tv.output_file_name,
                    key_alias: tv.key_alias,
                    store_file: tv.store_file,
                },
            },
            ios: cfg.ios,
            windows: cfg.windows,
        },
    )
}

// ---------------------------------------------------------------------------
// template substitution
// ---------------------------------------------------------------------------

/// One template variable.
#[derive(Debug, Clone)]
pub struct TemplateVar {
    pub name: String,
    pub value: String,
}

/// The `{{name}}` placeholder of a variable.
pub open spec fn placeholder(name: Seq<char>) -> Seq<char> {
    seq!['{', '{'] + name + seq!['}', '}']
}

/// The content after substituting each variable in turn: every `{{name}}`
/// replaced by the value.
pub open spec fn apply_template_spec(content: Seq<char>, vars: Seq<TemplateVar>) -> Seq<char>
    decreases vars.len(),
{
    if vars.len() == 0 {
        content
    } else {
        apply_template_spec(
            replace_spec(content, placeholder(vars[0].name@), vars[0].value@),
            vars.drop_first(),
        )
    }
}

/// Replace every `{{name}}` placeholder in `content` by its variable's value.
pub fn apply_template(content: &str, vars: &Vec<TemplateVar>) -> (r: String)
    ensures
        r@ == apply_template_spec(content@, vars@),
{
    let n = vars.len();
    let mut cur = content.to_owned();
    let mut i: usize = 0;
    proof {
        assert(vars@.skip(0) =~= vars@);
    }
    while i < n
        invariant
            n == vars.len(),
            0 <= i <= n,
            apply_template_spec(content@, vars@) == apply_template_spec(cur@, vars@.skip(i as int)),
        decreases n - i,
    {
        let v = &vars[i];
        let mut pat = String::new();
        proof {
            reveal_strlit("{{");
            reveal_strlit("}}");
            assert("{{"@ =~= seq!['{', '{']);
            assert("}}"@ =~= seq!['}', '}']);
        }
        pat.append("{{");
        pat.append(v.name.as_str());
        pat.append("}}");
        proof {
            assert(pat@ =~= placeholder(v.name@));
            assert(vars@.skip(i as int)[0] == vars@[i as int]);
            assert(vars@.skip(i as int).drop_first() =~= vars@.skip(i + 1));
        }
        cur = replace_all(cur.as_str(), pat.as_str(), v.value.as_str());
        i += 1;
    }
    proof {
        assert(vars@.skip(n as int).len() == 0);
    }
    cur
}

/// The `(name, value)` pairs a configuration contributes to template
/// substitution, in their fixed order.
pub open spec fn template_pairs(tv: AndroidTemplateVars) -> Seq<(Seq<char>, Seq<char>)> {
    let s0 = Seq::<(Seq<char>, Seq<char>)>::empty();
    let s1 = match tv.namespace {
        Some(v) => s0.push(("namespace"@, v@)),
        None => s0,
    };
    let s2 = match tv.application_id {
        Some(v) => s1.push(("application_id"@, v@)),
        None => s1,
    };
    let s3 = match tv.output_file_name {
        Some(v) => s2.push(("output_file_name"@, v@)),
        None => s2,
    };
    let s4 = match tv.key_alias {
        Some(v) => s3.push(("key_alias"@, v@)),
        None => s3,
    };
    match tv.store_file {
        Some(v) => s4.push(("store_file"@, v@)),
        None => s4,
    }
}

/// The template variables of a configuration: one per set Android template
/// field, in a fixed order.
pub fn build_template_vars(cfg: &Config) -> (r: Vec<TemplateVar>)
    ensures
        r@.map_values(|v: TemplateVar| (v.name@, v.value@)) == template_pairs(
            cfg.android.template_vars,
        ),
{
    let tv = &cfg.android.template_vars;
    let mut vars: Vec<TemplateVar> = Vec::new();
    match &tv.namespace {
        Some(v) => vars.push(
            TemplateVar { name: String::from_str("namespace"), value: v.clone() },
        ),
        None => {},
    }
    match &tv.application_id {
        Some(v) => vars.push(
            TemplateVar { name: String::from_str("application_id"), value: v.clone() },
        ),
        None => {},
    }
    match &tv.output_file_name {
        Some(v) => vars.push(
            TemplateVar { name: String::from_str("output_file_name"), value: v.clone() },
        ),
        None => {},
    }
    match &tv.key_alias {
        Some(v) => vars.push(
            TemplateVar { name: String::from_str("key_alias"), value: v.clone() },
        ),
        None => {},
    }
    match &tv.store_file {
        Some(v) => vars.push(
            TemplateVar { name: String::from_str("store_file"), value: v.clone() },
        ),
        None => {},
    }
    proof {
        assert(vars@.map_values(|v: TemplateVar| (v.name@, v.value@)) =~~= template_pairs(
            cfg.android.template_vars,
        ));
    }
    vars
}

// ---------------------------------------------------------------------------
// properties files
// ---------------------------------------------------------------------------

/// One entry of a properties file.
#[derive(Debug, Clone)]
pub struct PropEntry {
    pub key: String,
    pub value: String,
}

/// Index of the first entry with this key, or -1.
pub open spec fn prop_idx(props: Seq<PropEntry>, key: Seq<char>) -> int
    decreases props.len(),
{
    if props.len() == 0 {
        -1
    } else if props[0].key@ == key {
        0
    } else {
        let r = prop_idx(props.drop_first(), key);
        if r < 0 {
            -1
        } else {
            r + 1
        }
    }
}

proof fn lemma_prop_idx(props: Seq<PropEntry>, key: Seq<char>)
    ensures
        prop_idx(props, key) == -1 ==> forall|i: int|
            0 <= i < props.len() ==> (#[trigger] props[i]).key@ != key,
        prop_idx(props, key) != -1 ==> {
            &&& 0 <= prop_idx(props, key) < props.len()
            &&& props[prop_idx(props, key)].key@ == key
            &&& forall|i: int| 0 <= i < prop_idx(props, key) ==> (#[trigger] props[i]).key@ != key
        },
    decreases props.len(),
{
    if props.len() > 0 && props[0].key@ != key {
        let t = props.drop_first();
        lemma_prop_idx(t, key);
        let r = prop_idx(t, key);
        assert(forall|i: int| 0 <= i < t.len() ==> #[trigger] t[i] == props[i + 1]);
        if r < 0 {
            assert forall|i: int| 0 <= i < props.len() implies (#[trigger] props[i]).key@ != key by {
                if i > 0 {
                    assert(props[i] == t[i - 1]);
                }
            }
        } else {
            assert(props[r + 1] == t[r]);
            assert forall|i: int| 0 <= i < r + 1 implies (#[trigger] props[i]).key@ != key by {
                if i > 0 {
                    assert(props[i] == t[i - 1]);
                }
            }
        }
    }
}

/// The value of the first entry with this key.
pub fn lookup_prop(props: &Vec<PropEntry>, key: &str) -> (r: Option<String>)
    ensures
        match r {
            Some(v) => prop_idx(props@, key@) >= 0 && v@ == props@[prop_idx(props@, key@)].value@,
            None => prop_idx(props@, key@) == -1,
        },
{
    let n = props.len();
    let mut i: usize = 0;
    while i < n
        invariant
            n == props.len(),
            0 <= i <= n,
            forall|j: int| 0 <= j < i ==> (#[trigger] props@[j]).key@ != key@,
        decreases n - i,
    {
        if str_eq(props[i].key.as_str(), key) {
            proof {
                lemma_prop_idx(props@, key@);
                assert(prop_idx(props@, key@) == i as int) by {
                    let p = prop_idx(props@, key@);
                    if p < i as int {
                    } else if p > i as int {
                    }
                }
            }
            return Some(props[i].value.clone());
        }
        i += 1;
    }
    proof {
        lemma_prop_idx(props@, key@);
        assert(prop_idx(props@, key@) == -1) by {
            let p = prop_idx(props@, key@);
            if p >= 0 {
            }
        }
    }
    None
}

/// Set the gradle wrapper's `distributionUrl` property: the first entry with
/// that key is given the new value, or a new entry is appended.
pub fn apply_gradle_wrapper_properties(props: &mut Vec<PropEntry>, distribution_url: &str)
    ensures
        ({
            let i = prop_idx(old(props)@, "distributionUrl"@);
            if i >= 0 {
                &&& final(props).len() == old(props).len()
                &&& final(props)@[i].key@ == "distributionUrl"@
                &&& final(props)@[i].value@ == distribution_url@
                &&& forall|j: int|
                    0 <= j < old(props).len() && j != i ==> final(props)@[j] == old(props)@[j]
            } else {
                &&& final(props).len() == old(props).len() + 1
                &&& final(props)@[old(props).len() as int].key@ == "distributionUrl"@
                &&& final(props)@[old(props).len() as int].value@ == distribution_url@
                &&& forall|j: int|
                    0 <= j < old(props).len() ==> final(props)@[j] == old(props)@[j]
            }
        }),
{
    let n = props.len();
    let mut i: usize = 0;
    proof {
        lemma_prop_idx(props@, "distributionUrl"@);
    }
    while i < n
        invariant
            n == props.len(),
            props@ == old(props)@,
            0 <= i <= n,
            forall|j: int| 0 <= j < i ==> (#[trigger] props@[j]).key@ != "distributionUrl"@,
        decreases n - i,
    {
        if str_eq(props[i].key.as_str(), "distributionUrl") {
            proof {
                lemma_prop_idx(props@, "distributionUrl"@);
                assert(prop_idx(props@, "distributionUrl"@) == i as int) by {
                    let p = prop_idx(props@, "distributionUrl"@);
                    if p < i as int {
                    } else if p > i as int {
                    }
                }
            }
            let entry = PropEntry {
                key: String::from_str("distributionUrl"),
                value: distribution_url.to_owned(),
            };
            vstd::pervasive::VecAdditionalExecFns::set(props, i, entry);
            return ;
        }
        i += 1;
    }
    proof {
        lemma_prop_idx(props@, "distributionUrl"@);
        assert(prop_idx(props@, "distributionUrl"@) == -1) by {
            let p = prop_idx(props@, "distributionUrl"@);
            if p >= 0 {
            }
        }
    }
    let entry = PropEntry {
        key: String::from_str("distributionUrl"),
        value: distribution_url.to_owned(),
    };
    props.push(entry);
}

// ---------------------------------------------------------------------------
// windows runner rewrite
// ---------------------------------------------------------------------------

/// A line that sets the window size.
pub open spec fn has_size_marker(l: Seq<char>) -> bool {
    exists|i: int| matches_at(l, "Win32Window::Size size("@, i)
}

/// The replacement line for a configured window size.
pub open spec fn window_size_line(w: nat, h: nat) -> Seq<char> {
    "  Win32Window::Size size("@ + dec_str(w) + ", "@ + dec_str(h)
        + ");  // Configured window size"@
}

/// The runner source with every window-size line replaced.
pub open spec fn window_rewrite_spec(content: Seq<char>, w: nat, h: nat) -> Seq<char> {
    join_spec(
        split_spec(content, '\n').map_values(
            |l: Seq<char>|
                if has_size_marker(l) {
                    window_size_line(w, h)
                } else {
                    l
                },
        ),
        seq!['\n'],
    )
}

/// Rewrite the Windows runner source so that every line constructing the
/// window size sets the configured width and height; all other lines are
/// kept.
pub fn apply_window_size(content: &str, width: u32, height: u32) -> (r: String)
    ensures
        r@ == window_rewrite_spec(content@, width as nat, height as nat),
{
    proof {
        reveal_strlit("Win32Window::Size size(");
        reveal_strlit(", ");
        assert(", "@ =~= seq![',', ' ']);
    }
    let mut repl = String::new();
    repl.append("  Win32Window::Size size(");
    let ws = u64_to_dec(width as u64);
    repl.append(ws.as_str());
    repl.append(", ");
    let hs = u64_to_dec(height as u64);
    repl.append(hs.as_str());
    repl.append(");  // Configured window size");
    proof {
        reveal_strlit("  Win32Window::Size size(");
        assert(repl@ =~= window_size_line(width as nat, height as nat));
    }
    let lines = split_on(content, '\n');
    let n = lines.len();
    let mut out: Vec<String> = Vec::new();
    let ghost mapped = split_spec(content@, '\n').map_values(
        |l: Seq<char>|
            if has_size_marker(l) {
                window_size_line(width as nat, height as nat)
            } else {
                l
            },
    );
    let mut i: usize = 0;
    while i < n
        invariant
            n == lines.len(),
            lines.deep_view() == split_spec(content@, '\n'),
            repl@ == window_size_line(width as nat, height as nat),
            mapped == split_spec(content@, '\n').map_values(
                |l: Seq<char>|
                    if has_size_marker(l) {
                        window_size_line(width as nat, height as nat)
                    } else {
                        l
                    },
            ),
            0 <= i <= n,
            out.deep_view() =~~= mapped.take(i as int),
        decreases n - i,
    {
        let line = &lines[i];
        proof {
            reveal_strlit("Win32Window::Size size(");
            assert(lines.deep_view()[i as int] == lines@[i as int]@);
        }
        let ghost prev = out.deep_view();
        match find_str(line.as_str(), "Win32Window::Size size(") {
            Some(_) => {
                proof {
                    assert(has_size_marker(line@));
                }
                out.push(repl.clone());
            },
            None => {
                proof {
                    if has_size_marker(line@) {
                        let k = choose|k: int| matches_at(line@, "Win32Window::Size size("@, k);
                        assert(false);
                    }
                }
                out.push(line.clone());
            },
        }
        proof {
            assert(out.deep_view() =~~= prev.push(mapped[i as int]));
            assert(mapped.take(i + 1) =~~= mapped.take(i as int).push(mapped[i as int]));
        }
        i += 1;
    }
    proof {
        assert(mapped.take(n as int) =~~= mapped);
    }
    let r = join_with(&out, "\n");
    proof {
        reveal_strlit("\n");
        assert("\n"@ =~= seq!['\n']);
    }
    r
}

// ---------------------------------------------------------------------------
// derived invocations
// ---------------------------------------------------------------------------

/// The argument list for creating a project from a configuration: the fixed
/// arguments, then platforms (when any are listed), the Android language, the
/// organization and the description, each with its flag, in this order.
pub open spec fn create_args_spec(
    project_name: Seq<char>,
    org: Option<Seq<char>>,
    description: Option<Seq<char>>,
    platforms: Option<Seq<Seq<char>>>,
    android_language: Option<Seq<char>>,
) -> Seq<Seq<char>> {
    let base = seq!["create"@, "--project-name"@, project_name];
    let s1 = match platforms {
        Some(ps) => if ps.len() > 0 {
            base + seq!["--platforms"@, join_spec(ps, seq![','])]
        } else {
            base
        },
        None => base,
    };
    let s2 = match android_language {
        Some(v) => s1 + seq!["--android-language"@, v],
        None => s1,
    };
    let s3 = match org {
        Some(v) => s2 + seq!["--org"@, v],
        None => s2,
    };
    match description {
        Some(v) => s3 + seq!["--description"@, v],
        None => s3,
    }
}

/// Build the project-creation argument list.
pub fn flutter_create_args(
    project_name: &str,
    org: Option<&String>,
    description: Option<&String>,
    create: &FlutterCreateConfig,
) -> (r: Vec<String>)
    ensures
        r.deep_view() == create_args_spec(
            project_name@,
            match org {
                Some(v) => Some(v@),
                None => None,
            },
            match description {
                Some(v) => Some(v@),
                None => None,
            },
            match create.platforms {
                Some(ps) => Some(ps.deep_view()),
                None => None,
            },
            match create.android_language {
                Some(v) => Some(v@),
                None => None,
            },
        ),
{
    let mut args: Vec<String> = Vec::new();
    args.push(String::from_str("create"));
    args.push(String::from_str("--project-name"));
    args.push(project_name.to_owned());
    match &create.platforms {
        Some(ps) => {
            if ps.len() > 0 {
                args.push(String::from_str("--platforms"));
                let joined = join_with(ps, ",");
                proof {
                    reveal_strlit(",");
                    assert(","@ =~= seq![',']);
                }
                args.push(joined);
            }
        },
        None => {},
    }
    match &create.android_language {
        Some(v) => {
            args.push(String::from_str("--android-language"));
            args.push(v.clone());
        },
        None => {},
    }
    match org {
        Some(v) => {
            args.push(String::from_str("--org"));
            args.push(v.clone());
        },
        None => {},
    }
    match description {
        Some(v) => {
            args.push(String::from_str("--description"));
            args.push(v.clone());
        },
        None => {},
    }
    proof {
        assert(args.deep_view() =~~= create_args_spec(
            project_name@,
            match org {
                Some(v) => Some(v@),
                None => None,
            },
            match description {
                Some(v) => Some(v@),
                None => None,
            },
            match create.platforms {
                Some(ps) => Some(ps.deep_view()),
                None => None,
            },
            match create.android_language {
                Some(v) => Some(v@),
                None => None,
            },
        ));
    }
    args
}

/// Quote characters removed from both ends.
pub open spec fn quote_start_idx(s: Seq<char>) -> int
    decreases s.len(),
{
    if s.len() == 0 || s[0] != '"' {
        0
    } else {
        1 + quote_start_idx(s.drop_first())
    }
}

pub open spec fn quote_end_idx(s: Seq<char>) -> int
    decreases s.len(),
{
    if s.len() == 0 || s.last() != '"' {
        s.len() as int
    } else {
        quote_end_idx(s.drop_last())
    }
}

pub open spec fn strip_quotes(s: Seq<char>) -> Seq<char> {
    if quote_start_idx(s) >= quote_end_idx(s) {
        Seq::empty()
    } else {
        s.subrange(quote_start_idx(s), quote_end_idx(s))
    }
}

proof fn lemma_quote_start_idx(s: Seq<char>)
    ensures
        0 <= quote_start_idx(s) <= s.len(),
        forall|i: int| 0 <= i < quote_start_idx(s) ==> s[i] == '"',
        quote_start_idx(s) < s.len() ==> s[quote_start_idx(s)] != '"',
    decreases s.len(),
{
    if s.len() > 0 && s[0] == '"' {
        let t = s.drop_first();
        lemma_quote_start_idx(t);
        assert forall|i: int| 0 <= i < quote_start_idx(s) implies s[i] == '"' by {
            if i > 0 {
                assert(s[i] == t[i - 1]);
            }
        }
        if quote_start_idx(s) < s.len() {
            assert(s[quote_start_idx(s)] == t[quote_start_idx(t)]);
        }
    }
}

proof fn lemma_quote_end_idx(s: Seq<char>)
    ensures
        0 <= quote_end_idx(s) <= s.len(),
        forall|i: int| quote_end_idx(s) <= i < s.len() ==> s[i] == '"',
        quote_end_idx(s) > 0 ==> s[quote_end_idx(s) - 1] != '"',
    decreases s.len(),
{
    if s.len() > 0 && s.last() == '"' {
        let t = s.drop_last();
        lemma_quote_end_idx(t);
        assert forall|i: int| quote_end_idx(s) <= i < s.len() implies s[i] == '"' by {
            if i < s.len() - 1 {
                assert(s[i] == t[i]);
            }
        }
        if quote_end_idx(s) > 0 {
            assert(s[quote_end_idx(s) - 1] == t[quote_end_idx(t) - 1]);
        }
    }
}

/// The key alias read from an evaluated configuration expression: trimmed,
/// stripped of surrounding quotes, and required to be nonempty.
pub fn clean_pkl_alias(raw: &str) -> (r: Result<String, Error>)
    ensures
        ({
            let cleaned = strip_quotes(trim_spec(raw@));
            match r {
                Ok(a) => a@ == cleaned && cleaned.len() > 0,
                Err(e) => e matches Error::EmptyValue(_) && cleaned.len() == 0,
            }
        }),
{
    let t = trim(raw);
    let n = t.as_str().unicode_len();
    proof {
        lemma_quote_start_idx(t@);
        lemma_quote_end_idx(t@);
    }
    let mut a: usize = 0;
    while a < n && t.as_str().get_char(a) == '"'
        invariant
            n == t@.len(),
            0 <= a <= n,
            forall|j: int| 0 <= j < a ==> t@[j] == '"',
            a <= quote_start_idx(t@),
        decreases n - a,
    {
        proof {
            lemma_quote_start_idx(t@);
        }
        a += 1;
        proof {
            lemma_quote_start_idx(t@);
            if a > quote_start_idx(t@) {
                assert(t@[quote_start_idx(t@)] != '"');
            }
        }
    }
    proof {
        lemma_quote_start_idx(t@);
        assert(a == quote_start_idx(t@));
    }
    let mut b: usize = n;
    while b > a && t.as_str().get_char(b - 1) == '"'
        invariant
            n == t@.len(),
            a == quote_start_idx(t@),
            a <= b <= n,
            forall|j: int| b <= j < n ==> t@[j] == '"',
            b >= quote_end_idx(t@),
        decreases b,
    {
        proof {
            lemma_quote_end_idx(t@);
        }
        b -= 1;
        proof {
            lemma_quote_end_idx(t@);
            if b < quote_end_idx(t@) {
                assert(t@[quote_end_idx(t@) - 1] != '"');
            }
        }
    }
    proof {
        lemma_quote_end_idx(t@);
        if b > a {
            assert(t@[b - 1] != '"');
            assert(b == quote_end_idx(t@));
        } else {
            assert(b == a);
            if quote_end_idx(t@) > a {
                assert(t@[quote_end_idx(t@) - 1] != '"');
                assert(false);
            }
        }
    }
    if a >= b {
        return Err(Error::EmptyValue(raw.to_owned()));
    }
    let out = substr(t.as_str(), a, b);
    proof {
        assert(out@ =~= strip_quotes(trim_spec(raw@)));
    }
    Ok(out)
}

} // verus!
