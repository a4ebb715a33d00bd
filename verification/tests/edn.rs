use logseq_i18n_lint::edn::{dict_keys_from_forms, remove_keys_from_dict};
use logseq_i18n_lint::parser::parse;

fn dict_keys(content: &str) -> Vec<String> {
    let forms = parse(content).unwrap();
    dict_keys_from_forms(&forms)
}

fn remove(content: &str, keys: &[&str]) -> Result<Option<String>, String> {
    let forms = parse(content).unwrap();
    let keys: Vec<String> = keys.iter().map(|s| s.to_string()).collect();
    remove_keys_from_dict(content, &forms, &keys, "dict.edn")
}

#[test]
fn parse_simple_dict() {
    let keys = dict_keys(
        r#"{
 :command/copy "Copy"
 :command/paste "Paste"
 :ui/save "Save"
}"#,
    );
    assert_eq!(keys.len(), 3);
    assert!(keys.contains(&":command/copy".to_string()));
    assert!(keys.contains(&":command/paste".to_string()));
    assert!(keys.contains(&":ui/save".to_string()));
}

#[test]
fn parse_dict_with_comments() {
    let keys = dict_keys(
        r#"{
 ;; UI commands
 :ui/ok "OK"
 ;; Navigation
 :nav/home "Home"
}"#,
    );
    assert_eq!(keys.len(), 2);
    assert!(keys.contains(&":ui/ok".to_string()));
    assert!(keys.contains(&":nav/home".to_string()));
}

#[test]
fn parse_empty_dict() {
    let keys = dict_keys("{}");
    assert!(keys.is_empty());
}

#[test]
fn remove_keys_basic() {
    let result = remove(
        r#"{
 :keep/one "Keep 1"
 :remove/this "Remove this"
 :keep/two "Keep 2"
}"#,
        &[":remove/this"],
    )
    .unwrap()
    .unwrap();
    assert!(result.contains(":keep/one"));
    assert!(!result.contains(":remove/this"));
    assert!(result.contains(":keep/two"));
}

#[test]
fn remove_keys_preserves_structure() {
    let result = remove(
        r#"{
 :a/first "First"
 :a/second "Second"
 :a/third "Third"
}"#,
        &[":a/second"],
    )
    .unwrap()
    .unwrap();
    assert!(result.contains(":a/first"));
    assert!(!result.contains(":a/second"));
    assert!(result.contains(":a/third"));
}

#[test]
fn remove_keys_with_multiline_value() {
    let result = remove(
        r#"{
 :keep/one "Keep 1"
 :remove/nested {:inner "val"
                 :other "val2"}
 :keep/two "Keep 2"
}"#,
        &[":remove/nested"],
    )
    .unwrap()
    .unwrap();
    assert!(result.contains(":keep/one"));
    assert!(!result.contains(":remove/nested"));
    assert!(!result.contains(":inner"));
    assert!(result.contains(":keep/two"));
}

#[test]
fn remove_keys_exact_text() {
    let result = remove("{\n :a/x \"X\"\n :a/y \"Y\"\n}\n", &[":a/x"]).unwrap();
    assert_eq!(result, Some("{\n :a/y \"Y\"\n}\n".to_string()));
    // without a final newline the result has none either
    let result = remove("{\n :a/x \"X\"\n :a/y \"Y\"\n}", &[":a/y"]).unwrap();
    assert_eq!(result, Some("{\n :a/x \"X\"\n}".to_string()));
}

#[test]
fn remove_keys_nothing_to_remove() {
    assert_eq!(remove("{\n :a/x \"X\"\n}\n", &[":b/z"]), Ok(None));
    assert_eq!(remove("{}", &[":b/z"]), Ok(None));
    assert_eq!(remove("(def x 1)", &[":b/z"]), Ok(None));
}

#[test]
fn remove_keys_compact_format_is_an_error() {
    let err = remove("{:a/x \"X\" :a/y \"Y\"}", &[":a/x"]).unwrap_err();
    assert_eq!(
        err,
        "cannot remove key from 'dict.edn': compact or single-line EDN format is not supported for --fix.  Reformat the file to use one key–value pair per line."
    );
}

#[test]
fn dict_keys_are_listed_once() {
    let keys = dict_keys("{:a/x 1 :a/x 2 :b/y 3}");
    assert_eq!(keys, vec![":a/x".to_string(), ":b/y".to_string()]);
}
