use logseq_i18n_lint::checker::{check_unused_keys, extract_key_namespace, is_namespace_ignored};
use logseq_i18n_lint::config::CheckKeysConfig;

#[test]
fn extract_namespace() {
    assert_eq!(extract_key_namespace(":ui/save"), Some("ui".to_string()));
    assert_eq!(
        extract_key_namespace(":command.editor/copy"),
        Some("command.editor".to_string())
    );
    assert_eq!(extract_key_namespace(":simple"), Some("simple".to_string()));
    assert_eq!(extract_key_namespace(""), None);
}

#[test]
fn ignore_namespace_matching() {
    let ignore_ns = ["config.deprecated".to_string()];

    let key = ":config.deprecated/old-key";
    let ns = extract_key_namespace(key).unwrap();
    let matched = ignore_ns
        .iter()
        .any(|ignored| ns == *ignored || ns.starts_with(&format!("{ignored}.")));
    assert!(matched);

    let key2 = ":config.active/new-key";
    let ns2 = extract_key_namespace(key2).unwrap();
    let matched2 = ignore_ns
        .iter()
        .any(|ignored| ns2 == *ignored || ns2.starts_with(&format!("{ignored}.")));
    assert!(!matched2);
}
