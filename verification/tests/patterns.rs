use logseq_i18n_lint::analyzer::{allow_patterns_warning, analyze_source_with_config};
use logseq_i18n_lint::checker::check_unused_keys;
use logseq_i18n_lint::config::{default_file_extensions, AppConfig, CheckKeysConfig, LintConfig};
use logseq_i18n_lint::parser::parse;

fn config_with_allow_patterns(patterns: &[&str]) -> AppConfig {
    AppConfig {
        project_root: String::new(),
        include_dirs: Vec::new(),
        file_extensions: default_file_extensions(),
        i18n_functions: vec!["t".to_string()],
        alert_functions: Vec::new(),
        ui_functions: Vec::new(),
        ui_namespaces: Vec::new(),
        ui_attributes: Vec::new(),
        lint: LintConfig {
            allow_patterns: patterns.iter().map(|s| s.to_string()).collect(),
            ..LintConfig::default()
        },
        check_keys: CheckKeysConfig::default(),
    }
}

#[test]
fn valid_allow_patterns_skip_matches() {
    let config = config_with_allow_patterns(&["^https?://", "^#[0-9a-f]+$"]);
    assert_eq!(allow_patterns_warning(&config), None);
    let forms = parse(r##"[:div "https://logseq.com" "#ff00aa" "Visible text"]"##).unwrap();
    let diags = analyze_source_with_config(&forms, "a.cljs", &config);
    let texts: Vec<&str> = diags.iter().map(|d| d.text.as_str()).collect();
    assert_eq!(texts, vec!["Visible text"]);
}

#[test]
fn invalid_allow_patterns_warn_and_allow_nothing() {
    let config = config_with_allow_patterns(&["^https?://", "(unclosed"]);
    let warning = allow_patterns_warning(&config).unwrap();
    assert!(warning.starts_with("invalid allow_patterns regex: "));
    let forms = parse(r#"[:div "https://logseq.com"]"#).unwrap();
    let diags = analyze_source_with_config(&forms, "a.cljs", &config);
    assert_eq!(diags.len(), 1);
    assert_eq!(diags[0].text, "https://logseq.com");
}

#[test]
fn invalid_always_used_pattern_is_an_error() {
    let config = CheckKeysConfig {
        always_used_key_patterns: vec!["(unclosed".to_string()],
        ..CheckKeysConfig::default()
    };
    let defined = vec![":ui/a".to_string()];
    let err = match check_unused_keys(&defined, &Vec::new(), &config) {
        Err(e) => e,
        Ok(_) => panic!("expected an error"),
    };
    assert!(err.starts_with("invalid always_used_key_patterns regex: "));
}

#[test]
fn empty_always_used_patterns_filter_nothing() {
    let defined = vec![":ui/b".to_string(), ":ui/a".to_string()];
    let result = check_unused_keys(&defined, &Vec::new(), &CheckKeysConfig::default()).unwrap();
    assert_eq!(result.unused_keys, vec![":ui/a".to_string(), ":ui/b".to_string()]);
}
