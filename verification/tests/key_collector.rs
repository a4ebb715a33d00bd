use std::collections::HashSet;

use logseq_i18n_lint::config::{default_file_extensions, AppConfig, CheckKeysConfig, LintConfig};
use logseq_i18n_lint::key_collector::{
    collect_file_keys, db_ident_keys_from_forms, db_ident_to_i18n_key, find_named_def_value,
};
use logseq_i18n_lint::parser::{parse, SExp};

fn strings(v: &[&str]) -> Vec<String> {
    v.iter().map(|s| s.to_string()).collect()
}

fn make_config() -> AppConfig {
    AppConfig {
        project_root: String::new(),
        include_dirs: Vec::new(),
        file_extensions: default_file_extensions(),
        i18n_functions: strings(&["t", "tt", "i18n/t"]),
        alert_functions: Vec::new(),
        ui_functions: Vec::new(),
        ui_namespaces: Vec::new(),
        ui_attributes: Vec::new(),
        lint: LintConfig::default(),
        check_keys: CheckKeysConfig {
            translation_key_attributes: strings(&["i18n-key", "prompt-key", "title-key"]),
            ..CheckKeysConfig::default()
        },
    }
}

fn collect_from_source(source: &str) -> HashSet<String> {
    let config = make_config();
    let forms = parse(source).unwrap();
    collect_file_keys(&forms, &config, false).into_iter().map(|o| o.key).collect()
}

#[test]
fn direct_translation_call() {
    let keys = collect_from_source(r"(t :ui/save)");
    assert!(keys.contains(":ui/save"));
}

#[test]
fn aliased_translation_call() {
    let keys = collect_from_source(r"(i18n/t :nav/home)");
    assert!(keys.contains(":nav/home"));
}

#[test]
fn multiple_calls() {
    let keys = collect_from_source(
        r"
        (t :ui/save)
        (tt :ui/cancel)
        (i18n/t :nav/home)
    ",
    );
    assert_eq!(keys.len(), 3);
    assert!(keys.contains(":ui/save"));
    assert!(keys.contains(":ui/cancel"));
    assert!(keys.contains(":nav/home"));
}

#[test]
fn i18n_key_in_map() {
    let keys = collect_from_source(r"{:i18n-key :dialog/confirm}");
    assert!(keys.contains(":dialog/confirm"));
}

#[test]
fn prompt_key_in_map() {
    let keys = collect_from_source(r"{:prompt-key :dialog/prompt}");
    assert!(keys.contains(":dialog/prompt"));
}

#[test]
fn title_key_in_map() {
    let keys = collect_from_source(r"{:title-key :dialog/title}");
    assert!(keys.contains(":dialog/title"));
}

#[test]
fn conditional_translation() {
    let keys = collect_from_source(r"(t (if loading? :ui/loading :ui/ready))");
    assert!(keys.contains(":ui/loading"));
    assert!(keys.contains(":ui/ready"));
}

#[test]
fn or_fallback_translation() {
    let keys = collect_from_source(r"(t (or custom-key :ui/default))");
    assert!(keys.contains(":ui/default"));
}

#[test]
fn i18n_key_with_if() {
    let keys = collect_from_source(r"{:i18n-key (if dark? :theme/dark :theme/light)}");
    assert!(keys.contains(":theme/dark"));
    assert!(keys.contains(":theme/light"));
}

#[test]
fn symbol_resolution_via_def() {
    let _keys = collect_from_source(
        r"
        (defonce sort-options
          [[:view.table/sort-asc :asc]
           [:view.table/sort-desc :desc]])
        (for [[label _] sort-options]
          (t label))
    ",
    );
    // The symbol table should resolve `label` → keywords from the defonce
    // But since `label` in the for binding shadows the def, the simple
    // symbol-table lookup via (t symbol) works for the defonce name itself
    // In practice, `(t sort-options)` would look up the table, not `(t label)`.
    // The for destructuring is too complex for simple symbol resolution.
    // These keys are covered by static occurrence in the def value.
    // Let's test the simpler case:
    let keys2 = collect_from_source(
        r"
        (def my-key :ui/hello)
        (t my-key)
    ",
    );
    assert!(keys2.contains(":ui/hello"));
}

#[test]
fn def_with_vector_of_keywords() {
    let keys = collect_from_source(
        r"
        (defonce options
          [[:view/option-a :data-a]
           [:view/option-b :data-b]])
        (t options)
    ",
    );
    // When (t options) is called, look up symbol table
    assert!(keys.contains(":view/option-a"));
    assert!(keys.contains(":view/option-b"));
    assert!(keys.contains(":data-a"));
    assert!(keys.contains(":data-b"));
}

#[test]
fn nested_translation_call() {
    let keys = collect_from_source(
        r"
        (defn render []
          [:div (t :ui/title)
            [:span (t :ui/subtitle)]])
    ",
    );
    assert!(keys.contains(":ui/title"));
    assert!(keys.contains(":ui/subtitle"));
}

#[test]
fn no_false_positives_from_non_i18n() {
    let keys = collect_from_source(
        r"
        (defn foo [t] (t :not-a-key))
        (log/info :some/keyword)
        {:class :css/class}
    ",
    );
    // :not-a-key is collected because `t` is in i18n_functions
    // But :some/keyword and :css/class are NOT collected since they're not
    // in i18n contexts
    assert!(!keys.contains(":some/keyword"));
    assert!(!keys.contains(":css/class"));
}

#[test]
fn cond_translation() {
    let keys = collect_from_source(
        r"
        (t (cond
             (= type :a) :msg/type-a
             (= type :b) :msg/type-b
             :else :msg/default))
    ",
    );
    assert!(keys.contains(":msg/type-a"));
    assert!(keys.contains(":msg/type-b"));
    assert!(keys.contains(":msg/default"));
}

#[test]
fn db_ident_class_conversion() {
    assert_eq!(
        db_ident_to_i18n_key(":logseq.class/Task"),
        Some(":class.built-in/task".to_string()),
    );
    assert_eq!(
        db_ident_to_i18n_key(":logseq.class/Pdf-annotation"),
        Some(":class.built-in/pdf-annotation".to_string()),
    );
}

#[test]
fn db_ident_property_conversion() {
    assert_eq!(
        db_ident_to_i18n_key(":logseq.property/status"),
        Some(":property.built-in/status".to_string()),
    );
    assert_eq!(
        db_ident_to_i18n_key(":logseq.property/hide?"),
        Some(":property.built-in/hide".to_string()),
    );
}

#[test]
fn db_ident_property_with_dot() {
    assert_eq!(
        db_ident_to_i18n_key(":logseq.property/status.doing"),
        Some(":property.status/doing".to_string()),
    );
    assert_eq!(
        db_ident_to_i18n_key(":logseq.property/priority.high"),
        Some(":property.priority/high".to_string()),
    );
}

#[test]
fn db_ident_property_sub_namespace() {
    assert_eq!(
        db_ident_to_i18n_key(":logseq.property.asset/type"),
        Some(":property.built-in/asset-type".to_string()),
    );
    assert_eq!(
        db_ident_to_i18n_key(":logseq.property.view/type.gallery"),
        Some(":property.view-type/gallery".to_string()),
    );
    assert_eq!(
        db_ident_to_i18n_key(":logseq.property.repeat/recur-unit.day"),
        Some(":property.repeat-recur-unit/day".to_string()),
    );
}

#[test]
fn db_ident_block_conversion() {
    assert_eq!(
        db_ident_to_i18n_key(":block/alias"),
        Some(":property.built-in/alias".to_string()),
    );
    assert_eq!(
        db_ident_to_i18n_key(":block/collapsed?"),
        Some(":property.built-in/collapsed".to_string()),
    );
}

#[test]
fn db_ident_unrelated_namespace() {
    assert_eq!(db_ident_to_i18n_key(":datascript/key"), None);
    assert_eq!(db_ident_to_i18n_key(":ui/save"), None);
}

#[test]
fn let_bound_symbol_in_map_resolves_keys() {
    // Matches the real Logseq validate.cljs pattern:
    // (let [i18n-key (if condition :key-a :key-b)]
    //   (throw (ex-info "msg" {:payload {:i18n-key i18n-key}})))
    let keys = collect_from_source(
        r#"
        (let [i18n-key (if condition
                         :page.convert/property-value-to-page
                         :page.convert/block-parent-not-page)]
          (throw (ex-info "err" {:payload {:i18n-key i18n-key}})))
    "#,
    );
    assert!(
        keys.contains(":page.convert/property-value-to-page"),
        "should resolve let-bound symbol to :page.convert/property-value-to-page, found: {keys:?}"
    );
    assert!(
        keys.contains(":page.convert/block-parent-not-page"),
        "should resolve let-bound symbol to :page.convert/block-parent-not-page, found: {keys:?}"
    );
}

#[test]
fn when_let_bound_symbol_resolves_keys() {
    let keys = collect_from_source(
        r"
        (when-let [key (if flag :notify/success :notify/failure)]
          {:i18n-key key})
    ",
    );
    assert!(
        keys.contains(":notify/success"),
        "should resolve when-let bound symbol"
    );
    assert!(
        keys.contains(":notify/failure"),
        "should resolve when-let bound symbol"
    );
}

// ── Conditional form handling ─────────────────────────────────────────────

#[test]
fn when_collects_body_key() {
    let keys = collect_from_source(r"(t (when loading? :ui/loading))");
    assert!(
        keys.contains(":ui/loading"),
        "when body should be collected"
    );
}

#[test]
fn when_not_collects_body_key() {
    let keys = collect_from_source(r"(t (when-not error? :ui/ready))");
    assert!(
        keys.contains(":ui/ready"),
        "when-not body should be collected"
    );
}

#[test]
fn if_branch_symbol_resolved() {
    // Symbol in if branch resolved via let scope
    let keys = collect_from_source(
        r"
        (let [k :msg/hello]
          (t (if pred k :msg/fallback)))
    ",
    );
    assert!(
        keys.contains(":msg/hello"),
        "let-bound symbol in if branch should be resolved"
    );
    assert!(keys.contains(":msg/fallback"));
}

#[test]
fn or_with_nested_if_collects_all_branches() {
    let keys = collect_from_source(r"(t (or (if pred :key/a :key/b) :key/fallback))");
    assert!(keys.contains(":key/a"));
    assert!(keys.contains(":key/b"));
    assert!(keys.contains(":key/fallback"));
}

// ── No false positives from condition positions ───────────────────────────

#[test]
fn no_false_positive_from_if_condition_in_let() {
    // :not-a-i18n/key appears only in the if condition, not a translation key
    let keys = collect_from_source(
        r"
        (let [k (if (= prop :not-a-i18n/key) :real/key :other/key)]
          (t k))
    ",
    );
    assert!(
        !keys.contains(":not-a-i18n/key"),
        "condition keyword in let binding should not be collected as a translation key"
    );
    assert!(keys.contains(":real/key"));
    assert!(keys.contains(":other/key"));
}

#[test]
fn no_false_positive_from_cond_test_in_let() {
    // :not-a-i18n/key appears in a cond test position, not a translation key
    let keys = collect_from_source(
        r"
        (let [k (cond
                  (= type :not-a-i18n/key) :real/key
                  :else :fallback/key)]
          (t k))
    ",
    );
    assert!(
        !keys.contains(":not-a-i18n/key"),
        "cond test keyword in let binding should not be collected"
    );
    assert!(keys.contains(":real/key"));
    assert!(keys.contains(":fallback/key"));
}

#[test]
fn no_false_positive_from_case_test_in_let() {
    // :not-a-i18n/key appears as a case test value, not a translation key
    let keys = collect_from_source(
        r"
        (let [k (case prop
                  :not-a-i18n/key :real/key
                  :fallback/key)]
          (t k))
    ",
    );
    assert!(
        !keys.contains(":not-a-i18n/key"),
        "case test-value keyword in let binding should not be collected"
    );
    assert!(keys.contains(":real/key"));
    assert!(keys.contains(":fallback/key"));
}

#[test]
fn no_false_positive_from_def_condition() {
    // :not-a-i18n/key appears only in a condition inside a def value
    let keys = collect_from_source(
        r"
        (def my-key (if (= x :not-a-i18n/key) :real/key :other/key))
        (t my-key)
    ",
    );
    assert!(
        !keys.contains(":not-a-i18n/key"),
        "condition keyword in def value should not be collected"
    );
    assert!(keys.contains(":real/key"));
    assert!(keys.contains(":other/key"));
}

#[test]
fn named_def_found_after_metadata() {
    let forms = parse("(defonce ^:private built-in-classes {:logseq.class/Task {}})").unwrap();
    match find_named_def_value(&forms, &"built-in-classes".to_string()) {
        Some(SExp::MapLiteral(items, _)) => assert_eq!(items.len(), 2),
        other => panic!("expected the map value, got {other:?}"),
    }
    let forms = parse(
        "(def other [:logseq.class/Journal])\n(defonce ^:private built-in-classes {:logseq.class/Task {}})",
    )
    .unwrap();
    assert_eq!(
        db_ident_keys_from_forms(&forms, "built-in-classes"),
        vec![":class.built-in/task".to_string()]
    );
}
