use logseq_i18n_lint::config::{default_file_extensions, AppConfig, CheckKeysConfig, LintConfig};
use logseq_i18n_lint::git::{changed_files, has_target_extension};

#[test]
fn extension_filter() {
    let exts = vec!["cljs".into(), "clj".into()];
    assert!(has_target_extension("foo.cljs", &exts));
    assert!(has_target_extension("path/to/bar.clj", &exts));
    assert!(!has_target_extension("baz.rs", &exts));
    assert!(!has_target_extension("no_ext", &exts));
}

fn config(dirs: &[&str], exclude: &[&str]) -> AppConfig {
    AppConfig {
        project_root: String::new(),
        include_dirs: dirs.iter().map(|s| s.to_string()).collect(),
        file_extensions: default_file_extensions(),
        i18n_functions: Vec::new(),
        alert_functions: Vec::new(),
        ui_functions: Vec::new(),
        ui_namespaces: Vec::new(),
        ui_attributes: Vec::new(),
        lint: LintConfig {
            exclude_patterns: exclude.iter().map(|s| s.to_string()).collect(),
            ..LintConfig::default()
        },
        check_keys: CheckKeysConfig::default(),
    }
}

#[test]
fn changed_files_filters_sorts_and_dedups() {
    let files: Vec<String> = [
        "src/b.cljs",
        "src/a.cljs",
        "src/b.cljs",
        "docs/x.cljs",
        "src/test/t.cljs",
        "src/readme.md",
        "srcx/y.cljs",
    ]
    .iter()
    .map(|s| s.to_string())
    .collect();
    let r = changed_files(&files, &config(&["src"], &["**/test/**"])).unwrap();
    assert_eq!(r, vec!["src/a.cljs".to_string(), "src/b.cljs".to_string()]);
}

#[test]
fn changed_files_rejects_invalid_glob() {
    let files = vec!["src/a.cljs".to_string()];
    assert!(changed_files(&files, &config(&["src"], &["a[b"])).is_err());
    assert!(changed_files(&Vec::new(), &config(&["src"], &["a[b"])).is_err());
}
