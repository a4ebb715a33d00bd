use logseq_i18n_lint::patterns::build_glob_set;
use logseq_i18n_lint::scanner::{has_target_extension, select_scanned_files, ScannedFile};

#[test]
fn extension_check() {
    let exts = vec!["cljs".into(), "clj".into()];
    assert!(has_target_extension("foo.cljs", &exts));
    assert!(has_target_extension("bar.clj", &exts));
    assert!(!has_target_extension("baz.rs", &exts));
    assert!(!has_target_extension("no_ext", &exts));
}

#[test]
fn glob_set_matches() {
    let patterns = vec!["**/test/**".into(), "**/node_modules/**".into()];
    let set = build_glob_set(&patterns).unwrap();
    assert!(set.is_match("src/test/foo.cljs"));
    assert!(set.is_match("node_modules/pkg/bar.clj"));
    assert!(!set.is_match("src/main/foo.cljs"));
}

#[test]
fn extension_follows_path_rules() {
    let exts = vec!["cljs".to_string()];
    assert!(!has_target_extension(".cljs", &exts));
    assert!(has_target_extension("dir.x/a.cljs", &exts));
    assert!(has_target_extension("a.b.cljs", &exts));
    assert!(!has_target_extension("a.cljs/..", &exts));
    assert!(has_target_extension("src/a.cljs/", &exts));
}

#[test]
fn select_scanned_files_filters_and_sorts() {
    let found = vec![
        ScannedFile { path: "/p/src/b.cljs".into(), rel: "src/b.cljs".into() },
        ScannedFile { path: "/p/src/test/t.cljs".into(), rel: "src/test/t.cljs".into() },
        ScannedFile { path: "/p/src/a.clj".into(), rel: "src/a.clj".into() },
        ScannedFile { path: "/p/src/c.md".into(), rel: "src/c.md".into() },
        ScannedFile { path: "/p/src/a.clj".into(), rel: "src/a.clj".into() },
    ];
    let exts = vec!["clj".to_string(), "cljs".to_string()];
    let r = select_scanned_files(&found, &exts, &vec!["**/test/**".to_string()]).unwrap();
    assert_eq!(r, vec!["/p/src/a.clj".to_string(), "/p/src/b.cljs".to_string()]);
    assert!(select_scanned_files(&found, &exts, &vec!["[".to_string()]).is_err());
}

#[test]
fn invalid_glob_is_reported() {
    let patterns: Vec<String> = vec!["**/test/**".into(), "src/[a-".into()];
    let err = build_glob_set(&patterns).unwrap_err();
    assert!(err.contains("src/[a-"));
    let found = vec![ScannedFile { path: "src/a.cljs".into(), rel: "src/a.cljs".into() }];
    let exts: Vec<String> = vec!["cljs".into()];
    assert_eq!(select_scanned_files(&found, &exts, &patterns), Err(err));
}

#[test]
fn selection_follows_path_order_and_dedups_paths() {
    let found: Vec<ScannedFile> = [
        "/p/src/a-b.cljs",
        "/p/src/a/b.cljs",
        "/p/src/./a/b.cljs",
        "/p/src/a/b.cljs",
        "/p/src/A.cljs",
    ]
    .iter()
    .map(|p| ScannedFile { path: p.to_string(), rel: p.trim_start_matches("/p/").to_string() })
    .collect();
    let exts: Vec<String> = vec!["cljs".into()];
    let got = select_scanned_files(&found, &exts, &Vec::new()).unwrap();
    assert_eq!(
        got,
        vec!["/p/src/A.cljs".to_string(), "/p/src/a/b.cljs".to_string(), "/p/src/a-b.cljs".to_string()]
    );
    // the same order and deduplication as sorting the paths as `PathBuf`s
    let mut paths: Vec<std::path::PathBuf> = found.iter().map(|f| std::path::PathBuf::from(&f.path)).collect();
    paths.sort();
    paths.dedup();
    let expected: Vec<String> = paths.iter().map(|p| p.to_string_lossy().into_owned()).collect();
    assert_eq!(got, expected);
}
