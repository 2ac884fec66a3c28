use relkit::config::{
    apply_gradle_wrapper_properties, apply_template, apply_window_size, build_template_vars,
    clean_pkl_alias, expand_config, expand_env_vars, flutter_create_args, lookup_prop,
    AndroidConfig, AndroidGradleWrapperConfig, AndroidTemplateVars, Config, EnvEntry,
    FlutterCreateConfig, PropEntry, TemplateVar,
};
use relkit::Error;

fn env(pairs: &[(&str, &str)]) -> Vec<EnvEntry> {
    pairs
        .iter()
        .map(|(n, v)| EnvEntry { name: n.to_string(), value: v.to_string() })
        .collect()
}

fn base_config() -> Config {
    Config {
        project_name: "demo".to_string(),
        org: Some("com.example".to_string()),
        description: None,
        version: None,
        pubspec: None,
        platforms_dir: None,
        create: FlutterCreateConfig { platforms: None, android_language: None },
        android: AndroidConfig {
            gradle_wrapper: AndroidGradleWrapperConfig { distribution_url: None },
            template_vars: AndroidTemplateVars {
                namespace: None,
                application_id: None,
                output_file_name: None,
                key_alias: None,
                store_file: None,
            },
        },
        ios: None,
        windows: None,
    }
}

#[test]
fn expands_braced_and_bare_references() {
    let e = env(&[("NAME", "world"), ("X", "1")]);
    assert_eq!(expand_env_vars("hello ${NAME}!", &e).unwrap(), "hello world!");
    assert_eq!(expand_env_vars("v$X.$X", &e).unwrap(), "v1.1");
    assert_eq!(expand_env_vars("no refs", &e).unwrap(), "no refs");
    assert_eq!(expand_env_vars("price: 5$", &e).unwrap(), "price: 5$");
}

#[test]
fn missing_variable_is_an_error() {
    let e = env(&[]);
    assert_eq!(
        expand_env_vars("${ABSENT}", &e).unwrap_err(),
        Error::MissingEnvVar("ABSENT".to_string())
    );
    assert_eq!(
        expand_env_vars("$ABSENT", &e).unwrap_err(),
        Error::MissingEnvVar("ABSENT".to_string())
    );
}

#[test]
fn unclosed_reference_is_an_error() {
    let e = env(&[]);
    assert_eq!(
        expand_env_vars("a ${OPEN and more", &e).unwrap_err(),
        Error::UnclosedVar("a ${OPEN and more".to_string())
    );
}

#[test]
fn config_expansion_derives_application_id_and_namespace() {
    let mut cfg = base_config();
    cfg.org = Some("com.example.".to_string());
    let e = env(&[]);
    let out = expand_config(cfg, &e).unwrap();
    assert_eq!(out.android.template_vars.application_id.as_deref(), Some("com.example.demo"));
    assert_eq!(out.android.template_vars.namespace.as_deref(), Some("com.example.demo"));
}

#[test]
fn config_expansion_keeps_explicit_application_id() {
    let mut cfg = base_config();
    cfg.android.template_vars.application_id = Some("org.kept.app".to_string());
    let e = env(&[]);
    let out = expand_config(cfg, &e).unwrap();
    assert_eq!(out.android.template_vars.application_id.as_deref(), Some("org.kept.app"));
    assert_eq!(out.android.template_vars.namespace.as_deref(), Some("org.kept.app"));
}

#[test]
fn config_expansion_requires_an_org_or_application_id() {
    let mut cfg = base_config();
    cfg.org = None;
    let e = env(&[]);
    assert_eq!(expand_config(cfg, &e).unwrap_err(), Error::MissingApplicationId);
}

#[test]
fn config_expansion_resolves_references_in_fields() {
    let mut cfg = base_config();
    cfg.project_name = "${APP}".to_string();
    cfg.create.platforms = Some(vec!["$PLAT".to_string(), "web".to_string()]);
    let e = env(&[("APP", "shiny"), ("PLAT", "android")]);
    let out = expand_config(cfg, &e).unwrap();
    assert_eq!(out.project_name, "shiny");
    assert_eq!(
        out.create.platforms,
        Some(vec!["android".to_string(), "web".to_string()])
    );
}

#[test]
fn template_vars_follow_the_set_fields_in_order() {
    let mut cfg = base_config();
    cfg.android.template_vars.namespace = Some("ns".to_string());
    cfg.android.template_vars.key_alias = Some("alias".to_string());
    let vars = build_template_vars(&cfg);
    let got: Vec<(&str, &str)> =
        vars.iter().map(|v| (v.name.as_str(), v.value.as_str())).collect();
    assert_eq!(got, vec![("namespace", "ns"), ("key_alias", "alias")]);
}

#[test]
fn template_substitution_replaces_every_placeholder() {
    let vars = vec![
        TemplateVar { name: "application_id".to_string(), value: "com.example.demo".to_string() },
        TemplateVar { name: "namespace".to_string(), value: "com.example.demo".to_string() },
    ];
    let content = "applicationId = \"{{application_id}}\"\nnamespace = \"{{namespace}}\"\n";
    let out = apply_template(content, &vars);
    assert_eq!(
        out,
        "applicationId = \"com.example.demo\"\nnamespace = \"com.example.demo\"\n"
    );
}

#[test]
fn gradle_wrapper_url_replaces_existing_entry() {
    let mut props = vec![
        PropEntry { key: "distributionBase".to_string(), value: "GRADLE_USER_HOME".to_string() },
        PropEntry { key: "distributionUrl".to_string(), value: "old-url".to_string() },
    ];
    apply_gradle_wrapper_properties(&mut props, "https://example.invalid/gradle-8.7.zip");
    assert_eq!(props.len(), 2);
    assert_eq!(
        lookup_prop(&props, "distributionUrl").as_deref(),
        Some("https://example.invalid/gradle-8.7.zip")
    );
    assert_eq!(lookup_prop(&props, "distributionBase").as_deref(), Some("GRADLE_USER_HOME"));
}

#[test]
fn gradle_wrapper_url_is_added_when_absent() {
    let mut props: Vec<PropEntry> = Vec::new();
    apply_gradle_wrapper_properties(&mut props, "url");
    assert_eq!(props.len(), 1);
    assert_eq!(props[0].key, "distributionUrl");
    assert_eq!(props[0].value, "url");
}

#[test]
fn window_size_line_is_rewritten() {
    let content = "int main() {\n  Win32Window::Size size(1280, 720);\n  return 0;\n}\n";
    let out = apply_window_size(content, 1024, 768);
    assert_eq!(
        out,
        "int main() {\n  Win32Window::Size size(1024, 768);  // Configured window size\n  return 0;\n}\n"
    );
}

#[test]
fn create_args_follow_the_configuration() {
    let create = FlutterCreateConfig {
        platforms: Some(vec!["android".to_string(), "web".to_string()]),
        android_language: Some("kotlin".to_string()),
    };
    let org = "com.example".to_string();
    let args = flutter_create_args("demo", Some(&org), None, &create);
    assert_eq!(
        args,
        vec![
            "create",
            "--project-name",
            "demo",
            "--platforms",
            "android,web",
            "--android-language",
            "kotlin",
            "--org",
            "com.example",
        ]
    );
}

#[test]
fn pkl_alias_is_trimmed_and_unquoted() {
    assert_eq!(clean_pkl_alias("  \"release-key\"\n").unwrap(), "release-key");
    assert_eq!(clean_pkl_alias("plain").unwrap(), "plain");
    assert!(matches!(clean_pkl_alias("  \"\"  ").unwrap_err(), Error::EmptyValue(_)));
}
