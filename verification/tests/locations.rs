use logseq_i18n_lint::locations::{first_key_locations, KeyAt};

fn at(key: &str, file: &str, line: u32) -> KeyAt {
    KeyAt { key: key.to_string(), file: file.to_string(), line }
}

fn summary(entries: Vec<KeyAt>) -> Vec<(String, String, u32)> {
    first_key_locations(&entries)
        .into_iter()
        .map(|(k, loc)| (k, loc.file, loc.line))
        .collect()
}

#[test]
fn first_location_is_smallest_file_then_line() {
    let got = summary(vec![
        at(":ui/save", "src/b.cljs", 5),
        at(":ui/open", "src/a.cljs", 9),
        at(":ui/save", "src/a.cljs", 7),
        at(":ui/save", "src/a.cljs", 3),
        at(":ui/open", "src/c.cljs", 1),
    ]);
    assert_eq!(
        got,
        vec![
            (":ui/save".to_string(), "src/a.cljs".to_string(), 3),
            (":ui/open".to_string(), "src/a.cljs".to_string(), 9),
        ]
    );
}

#[test]
fn files_are_ordered_by_path_components() {
    // component by component, "a" comes before "a-b", although '-' < '/'
    let got = summary(vec![at(":k/x", "a-b/x.cljs", 1), at(":k/x", "a/b.cljs", 2)]);
    assert_eq!(got, vec![(":k/x".to_string(), "a/b.cljs".to_string(), 2)]);
    let mut paths = vec![std::path::PathBuf::from("a-b/x.cljs"), std::path::PathBuf::from("a/b.cljs")];
    paths.sort();
    assert_eq!(paths[0], std::path::PathBuf::from("a/b.cljs"));
}

#[test]
fn equal_locations_keep_the_earliest_entry() {
    let got = summary(vec![at(":k/x", "src//a.cljs", 4), at(":k/x", "src/a.cljs", 4)]);
    assert_eq!(got, vec![(":k/x".to_string(), "src//a.cljs".to_string(), 4)]);
}

#[test]
fn no_entries_no_keys() {
    assert!(summary(Vec::new()).is_empty());
}
