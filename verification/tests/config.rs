use logseq_i18n_lint::config::{default_file_extensions, AppConfig, CheckKeysConfig, LintConfig};

fn strings(v: &[&str]) -> Vec<String> {
    v.iter().map(|s| s.to_string()).collect()
}

/// The configuration an empty TOML document gives.
fn empty_config() -> AppConfig {
    AppConfig {
        project_root: String::new(),
        include_dirs: Vec::new(),
        file_extensions: default_file_extensions(),
        i18n_functions: Vec::new(),
        alert_functions: Vec::new(),
        ui_functions: Vec::new(),
        ui_namespaces: Vec::new(),
        ui_attributes: Vec::new(),
        lint: LintConfig::default(),
        check_keys: CheckKeysConfig::default(),
    }
}

/// The documented default configuration.
fn documented_config() -> AppConfig {
    AppConfig {
        project_root: String::new(),
        include_dirs: strings(&["src"]),
        file_extensions: strings(&["clj", "cljs", "cljc"]),
        i18n_functions: strings(&["t", "i18n/t"]),
        alert_functions: strings(&["notification/show!"]),
        ui_functions: Vec::new(),
        ui_namespaces: Vec::new(),
        ui_attributes: strings(&["placeholder", "title", "aria-label", "alt", "label"]),
        lint: LintConfig {
            exclude_patterns: strings(&["**/test/**", "**/node_modules/**"]),
            text_preview_length: 60,
            allow_strings: strings(&["Logseq"]),
            allow_patterns: strings(&["^https?://"]),
            exception_functions: strings(&["throw"]),
            ignore_context_functions: strings(&["js/console.log", "log/debug", "prn", "re-pattern", "ns"]),
            pure_functions: Vec::new(),
            format_functions: strings(&["format", "goog.string/format"]),
        },
        check_keys: CheckKeysConfig {
            dicts_dir: "src/resources/dicts".to_string(),
            primary_dict: "src/resources/dicts/en.edn".to_string(),
            always_used_key_patterns: strings(&["^:command\\."]),
            translation_key_attributes: strings(&["i18n-key", "prompt-key", "title-key"]),
            ..CheckKeysConfig::default()
        },
    }
}

#[test]
fn check_keys_defaults() {
    let config = empty_config();
    assert!(config.check_keys.translation_key_attributes.is_empty());
}

#[test]
fn validate_for_lint_rejects_empty_include_dirs() {
    let config = empty_config();
    assert!(config.validate_for_lint().is_err());
}

#[test]
fn validate_for_lint_accepts_valid_config() {
    let config = documented_config();
    assert!(config.validate_for_lint().is_ok());
}

#[test]
fn validate_for_check_keys_rejects_missing_fields() {
    let config = empty_config();
    assert!(config.validate_for_check_keys().is_err());
}

#[test]
fn validate_for_check_keys_rejects_when_no_key_mechanism() {
    let mut config = empty_config();
    config.include_dirs = strings(&["src"]);
    config.check_keys.dicts_dir = "dicts".to_string();
    config.check_keys.primary_dict = "dicts/en.edn".to_string();
    let err = config.validate_for_check_keys().unwrap_err();
    assert!(
        err.contains("i18n_functions") && err.contains("translation_key_attributes"),
        "expected key-mechanism error, got: {err}"
    );
}

#[test]
fn documented_config_passes_both_validations() {
    let config = documented_config();
    assert_eq!(config.validate_for_check_keys(), Ok(()));
    assert_eq!(config.validate_for_lint(), Ok(()));
}

#[test]
fn validation_messages_name_the_first_missing_field() {
    let mut config = empty_config();
    assert_eq!(
        config.validate_for_lint().unwrap_err(),
        "include_dirs is empty — no source files will be scanned.\nAdd at least one directory to include_dirs in your config file."
    );
    config.include_dirs = strings(&["src"]);
    assert_eq!(
        config.validate_for_check_keys().unwrap_err(),
        "[check-keys] dicts_dir is not set.\nSpecify the directory that contains your EDN dictionary files."
    );
    config.check_keys.dicts_dir = "dicts".to_string();
    assert_eq!(
        config.validate_for_check_keys().unwrap_err(),
        "[check-keys] primary_dict is not set.\nSpecify the primary dictionary file whose keys define the key set."
    );
    config.check_keys.primary_dict = "dicts/en.edn".to_string();
    config.ui_namespaces = strings(&["shui"]);
    assert!(config.validate_for_check_keys().is_ok());
}

#[test]
fn default_values() {
    assert_eq!(default_file_extensions(), strings(&["clj", "cljs", "cljc"]));
    assert_eq!(logseq_i18n_lint::config::default_text_preview_length(), 60);
    assert_eq!(LintConfig::default().text_preview_length, 60);
}
