use logseq_i18n_lint::analyzer::{analyze_source_with_config, Diagnostic, DiagnosticKind};
use logseq_i18n_lint::checker::check_unused_keys;
use logseq_i18n_lint::config::{default_file_extensions, AppConfig, CheckKeysConfig, LintConfig};
use logseq_i18n_lint::edn::remove_keys_from_dict;
use logseq_i18n_lint::key_collector::collect_file_keys;
use logseq_i18n_lint::parser::parse;
use logseq_i18n_lint::reporter::{summary_counts, table_layout, truncate_text};

fn strings(v: &[&str]) -> Vec<String> {
    v.iter().map(|s| s.to_string()).collect()
}

fn lint_config() -> AppConfig {
    AppConfig {
        project_root: String::new(),
        include_dirs: Vec::new(),
        file_extensions: default_file_extensions(),
        i18n_functions: strings(&["t", "i18n/t"]),
        alert_functions: strings(&["notification/show!"]),
        ui_functions: strings(&["ui/button"]),
        ui_namespaces: strings(&["shui"]),
        ui_attributes: strings(&["placeholder", "title", "aria-label", "alt", "label"]),
        lint: LintConfig {
            exclude_patterns: Vec::new(),
            text_preview_length: 60,
            allow_strings: strings(&["Logseq"]),
            allow_patterns: strings(&["^https?://"]),
            exception_functions: strings(&["throw", "ex-info"]),
            ignore_context_functions: strings(&["js/console.log", "prn", "ns"]),
            pure_functions: Vec::new(),
            format_functions: strings(&["format", "goog.string/format"]),
        },
        check_keys: CheckKeysConfig::default(),
    }
}

fn lint(source: &str) -> Vec<Diagnostic> {
    let forms = parse(source).unwrap();
    analyze_source_with_config(&forms, "src/app.cljs", &lint_config())
}

#[test]
fn every_report_passes_the_skip_filters() {
    let diags = lint(
        r#"[:div "  Padded text  " "42" "x" "Logseq" "https://logseq.com" " · " "Real words"
             [:span {:title "Hover title"} "\n Indented\n"]]"#,
    );
    let texts: Vec<&str> = diags.iter().map(|d| d.text.as_str()).collect();
    assert_eq!(texts, vec!["Padded text", "Real words", "Hover title", "Indented"]);
    for d in &diags {
        assert_ne!(d.kind, DiagnosticKind::DefText);
        assert_eq!(d.file_path, "src/app.cljs");
        assert_eq!(d.text.trim(), d.text);
        assert!(d.text.chars().count() >= 2);
        assert!(d.text.chars().any(|c| c.is_alphabetic()));
        assert_ne!(d.text, "Logseq");
        assert!(!d.text.starts_with("http"));
    }
}

#[test]
fn reports_of_joined_sources_are_joined_reports() {
    let a = r#"[:div "First text"] (ui/button "Second text")"#;
    let b = r#"[:p "Third text"]"#;
    let joined = format!("{a}\n{b}");
    let texts = |ds: Vec<Diagnostic>| ds.into_iter().map(|d| d.text).collect::<Vec<_>>();
    let mut expected = texts(lint(a));
    expected.extend(texts(lint(b)));
    assert_eq!(texts(lint(&joined)), expected);
    assert_eq!(expected, vec!["First text", "Second text", "Third text"]);
}

#[test]
fn ignored_calls_report_nothing() {
    assert!(lint(r#"[:div (t :ui/save "Fallback text")]"#).is_empty());
    assert!(lint(r#"[:div (js/console.log "Debug message")]"#).is_empty());
    assert!(lint(r#"(ns app.core "Namespace doc string")"#).is_empty());
    assert!(lint(r#"(comment [:div "Scratch text"])"#).is_empty());
    assert!(lint(r#"[:div (i18n/t :ui/save)]"#).is_empty());
}

#[test]
fn exception_calls_report_nothing() {
    assert!(lint(r#"[:div (throw (js/Error. "Something went wrong"))]"#).is_empty());
    assert!(lint(r#"(ui/button (ex-info "Bad input value" {}))"#).is_empty());
}

#[test]
fn fn_body_is_a_scope_barrier() {
    assert!(lint(r#"[:div {:on-click (fn [e] (str "Clicked " e))}]"#).is_empty());
    assert!(lint(r#"(ui/button (fn [] (if ok "Yes please" "No thanks")))"#).is_empty());
    // a hiccup vector inside the body is a UI context again
    assert_eq!(lint(r#"[:div (fn [] [:span "Inner text"])]"#).len(), 1);
}

#[test]
fn plain_def_strings_are_not_reported() {
    assert!(lint(r#"(def page-name "Library")"#).is_empty());
    assert!(lint(r#"(defonce quick-add "Quick add")"#).is_empty());
    assert!(lint(r#"(def ^:private label "Some label" "More text")"#).is_empty());
}

#[test]
fn translation_call_references_its_key() {
    let forms = parse("(ns app)\n\n(t :ui/save)").unwrap();
    let occs = collect_file_keys(&forms, &lint_config(), false);
    assert_eq!(occs.len(), 1);
    assert_eq!(occs[0].key, ":ui/save");
    assert_eq!(occs[0].line, 3);
}

#[test]
fn keys_are_listed_once_at_their_first_occurrence() {
    let forms = parse("(t :a/one)\n(t :b/two)\n(t :a/one)\n(t :c/three)\n(t :b/two)").unwrap();
    let occs = collect_file_keys(&forms, &lint_config(), false);
    let listed: Vec<(&str, u32)> = occs.iter().map(|o| (o.key.as_str(), o.line)).collect();
    assert_eq!(listed, vec![(":a/one", 1), (":b/two", 2), (":c/three", 4)]);
}

#[test]
fn preview_is_at_most_limit_plus_ellipsis() {
    assert_eq!(truncate_text("abcdefghij", 4), "abcd...");
    assert_eq!(truncate_text("abcdefghij", 4).chars().count(), 7);
    assert_eq!(truncate_text("ab\ncd", 4), "ab...");
    assert_eq!(truncate_text("abcd", 4), "abcd");
    assert_eq!(truncate_text("", 0), "");
}

#[test]
fn summary_counts_add_up() {
    let diags = lint(
        r#"[:div "Hello there" {:x 1} (str "Joined " x)]
           [:input {:placeholder "Search pages"}]
           (notification/show! "Saved file")
           [:span (if a "Yes please" "No thanks")]"#,
    );
    let counts = summary_counts(&diags);
    let total: usize = counts.iter().map(|(_, n)| *n).sum();
    assert_eq!(total, diags.len());
    assert_eq!(diags.len(), 6);
}

#[test]
fn filtered_keys_are_never_unused() {
    let config = CheckKeysConfig {
        always_used_key_patterns: strings(&["^:command\\."]),
        ignore_key_namespaces: strings(&["deprecated"]),
        ..CheckKeysConfig::default()
    };
    let defined = strings(&[
        ":ui/save",
        ":command.editor/copy",
        ":deprecated.old/key",
        ":deprecated/key",
        ":ui/unused",
    ]);
    let referenced = strings(&[":ui/save", ":nav/not-defined"]);
    let result = check_unused_keys(&defined, &referenced, &config).unwrap();
    assert_eq!(result.unused_keys, strings(&[":ui/unused"]));
    assert_eq!(result.total_defined, 5);
    assert_eq!(result.total_referenced, 2);
}

#[test]
fn no_unused_keys_after_removing_them() {
    let config = CheckKeysConfig {
        always_used_key_patterns: strings(&["^:command\\."]),
        ignore_key_namespaces: strings(&["deprecated"]),
        ..CheckKeysConfig::default()
    };
    let defined = strings(&[":ui/save", ":command.x/y", ":deprecated/key", ":ui/a", ":ui/b"]);
    let referenced = strings(&[":ui/save"]);
    let first = check_unused_keys(&defined, &referenced, &config).unwrap();
    assert_eq!(first.unused_keys, strings(&[":ui/a", ":ui/b"]));
    let remaining: Vec<String> =
        defined.iter().filter(|k| !first.unused_keys.contains(k)).cloned().collect();
    let second = check_unused_keys(&remaining, &referenced, &config).unwrap();
    assert!(second.unused_keys.is_empty());
    assert_eq!(second.total_defined, 3);
}

#[test]
fn removing_undefined_keys_changes_nothing() {
    let content = "{\n :ui/save \"Save\"\n :ui/open \"Open\"\n}\n";
    let forms = parse(content).unwrap();
    let keys = strings(&[":ui/close", ":nav/home"]);
    assert_eq!(remove_keys_from_dict(content, &forms, &keys, "en.edn"), Ok(None));
    assert_eq!(remove_keys_from_dict(content, &forms, &Vec::new(), "en.edn"), Ok(None));
}

#[test]
fn fix_drops_exactly_the_removed_entries() {
    let content = ";; header\n{\n :a/one \"One\"\n :a/two {:x 1\n         :y 2}\n :a/three \"Three\"\n}\n";
    let forms = parse(content).unwrap();
    let keys = strings(&[":a/two"]);
    assert_eq!(
        remove_keys_from_dict(content, &forms, &keys, "en.edn"),
        Ok(Some(";; header\n{\n :a/one \"One\"\n :a/three \"Three\"\n}\n".to_string()))
    );
}

#[test]
fn allowing_a_string_removes_exactly_its_reports() {
    let source = r#"[:div "Real words" [:span "Other text"] (ui/button "Real words")] [:p "Last one"]"#;
    let forms = parse(source).unwrap();
    let before = analyze_source_with_config(&forms, "a.cljs", &lint_config());
    let mut config = lint_config();
    config.lint.allow_strings.push("Real words".to_string());
    let after = analyze_source_with_config(&forms, "a.cljs", &config);
    let texts = |ds: &Vec<Diagnostic>| ds.iter().map(|d| d.text.clone()).collect::<Vec<_>>();
    assert_eq!(texts(&before), vec!["Real words", "Other text", "Real words", "Last one"]);
    let expected: Vec<String> = texts(&before).into_iter().filter(|t| t != "Real words").collect();
    assert_eq!(texts(&after), expected);
}

#[test]
fn conditional_strings_outside_ui_are_not_reported() {
    assert!(lint(r#"(if mac? "Command key" "Control key")"#).is_empty());
    assert!(lint(r#"(condp = mode "admin" "Admin panel" "Fallback text")"#).is_empty());
    assert!(lint(r#"(case k :a "Alpha text" "Default text")"#).is_empty());
    assert!(lint(r#"(cond a "First text" :else "Other text")"#).is_empty());
    assert_eq!(lint(r#"[:div (if mac? "Command key" "Control key")]"#).len(), 2);
}

#[test]
fn conditional_strings_outside_ui_report_as_nil() {
    let pairs = [
        (
            r#"(if mac? "Command key" [:span "Control key"])"#,
            r#"(if mac? nil [:span "Control key"])"#,
        ),
        (
            r#"(when x "Plain text" (ui/button "Press here"))"#,
            r#"(when x nil (ui/button "Press here"))"#,
        ),
        (
            r#"(cond a "First text" :else [:div "Other text"])"#,
            r#"(cond a nil :else [:div "Other text"])"#,
        ),
        (
            r#"(case k :a "Alpha text" [:p "Default text"])"#,
            r#"(case k :a nil [:p "Default text"])"#,
        ),
    ];
    let summary = |ds: Vec<Diagnostic>| {
        ds.iter()
            .map(|d| (format!("{:?}", d.kind), d.text.clone(), d.context.clone()))
            .collect::<Vec<_>>()
    };
    for (with_strings, with_nil) in pairs {
        let a = summary(lint(with_strings));
        let b = summary(lint(with_nil));
        assert_eq!(a.len(), 1);
        assert_eq!(a, b);
    }
}

#[test]
fn spans_agree_with_offsets() {
    let source = "(a\n  \"x\"\n\n   :kw)";
    let forms = parse(&source).unwrap();
    let items = match &forms[0] {
        logseq_i18n_lint::parser::SExp::List(items, _) => items,
        _ => panic!("expected a list"),
    };
    for item in items {
        let span = item.span();
        let before = &source.as_bytes()[..span.offset as usize];
        let line = 1 + before.iter().filter(|b| **b == b'\n').count() as u32;
        let start = before.iter().rposition(|b| *b == b'\n').map_or(0, |i| i + 1);
        assert_eq!(span.line, line);
        assert_eq!(span.col as usize, span.offset as usize - start + 1);
    }
}

#[test]
fn table_rows_have_equal_width() {
    let diags = lint(r#"[:div "Hello there"] [:input {:placeholder "Search pages now"}]"#);
    let paths = vec!["src/a.cljs".to_string(), "src/longer/b.cljs".to_string()];
    let layout = table_layout(&diags, &paths, 60);
    let total = layout.type_w + layout.file_w + layout.line_w + layout.text_w;
    for row in &layout.rows {
        let w = row.kind_str.chars().count()
            + row.kind_pad
            + row.file_str.chars().count()
            + row.file_pad
            + row.line_str.chars().count()
            + row.line_pad
            + row.text_str.chars().count()
            + row.text_pad;
        assert_eq!(w, total);
    }
    let (a, b, c, d) = layout.header_pads;
    assert_eq!(16 + a + b + c + d, total);
}
