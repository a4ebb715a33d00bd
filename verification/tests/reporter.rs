use logseq_i18n_lint::analyzer::{Diagnostic, DiagnosticKind};
use logseq_i18n_lint::reporter::{summary_counts, table_layout, truncate_text, OutputFormat};

#[test]
fn truncate_within_limit() {
    assert_eq!(truncate_text("hello", 10), "hello");
}

#[test]
fn truncate_over_limit() {
    let result = truncate_text("hello world", 5);
    assert_eq!(result, "hello...");
}

#[test]
fn truncate_unicode_boundary() {
    // 6 CJK chars with max_len=4 → truncated at char boundary with "..."
    let result = truncate_text("你好世界啊哦", 4);
    assert!(result.ends_with("..."));
    // 4 CJK chars with max_len=6 → fits, no truncation
    let no_trunc = truncate_text("你好世界", 6);
    assert_eq!(no_trunc, "你好世界");
}

#[test]
fn truncate_multiline_short_first_line() {
    // First line short but there are more lines → always "..."
    let result = truncate_text("hi\nsecond line", 60);
    assert_eq!(result, "hi...");
}

#[test]
fn truncate_multiline_long_first_line() {
    // First line also exceeds max_len → truncated AND "..."
    let result = truncate_text("hello world\nsecond", 5);
    assert_eq!(result, "hello...");
}

#[test]
fn truncate_crlf() {
    let result = truncate_text("line one\r\nline two", 60);
    assert_eq!(result, "line one...");
}

#[test]
fn output_format_display() {
    assert_eq!(OutputFormat::Table.to_string(), "table");
    assert_eq!(OutputFormat::Compact.to_string(), "compact");
}

#[test]
fn truncate_cuts_cjk_at_characters() {
    assert_eq!(truncate_text("你好世界啊哦", 4), "你好世界...");
    assert_eq!(truncate_text("", 3), "");
    assert_eq!(truncate_text("abc", 0), "...");
}

fn diag(kind: DiagnosticKind, line: u32, text: &str) -> Diagnostic {
    Diagnostic {
        kind,
        file_path: "src/a.cljs".to_string(),
        line,
        col: 1,
        text: text.to_string(),
        context: None,
    }
}

#[test]
fn summary_counts_in_kind_order() {
    let diags = vec![
        diag(DiagnosticKind::LetText, 1, "a"),
        diag(DiagnosticKind::HiccupText, 2, "b"),
        diag(DiagnosticKind::LetText, 3, "c"),
    ];
    assert_eq!(
        summary_counts(&diags),
        vec![(DiagnosticKind::HiccupText, 1), (DiagnosticKind::LetText, 2)]
    );
    assert!(summary_counts(&Vec::new()).is_empty());
}

#[test]
fn table_layout_widths_and_pads() {
    let diags = vec![diag(DiagnosticKind::HiccupText, 48, "No matched commands")];
    let rel = vec!["src\\frontend\\editor.cljs".to_string()];
    let t = table_layout(&diags, &rel, 60);
    assert_eq!(t.rows.len(), 1);
    let row = &t.rows[0];
    assert_eq!(row.kind_str, "hiccup-text");
    assert_eq!(row.file_str, "src/frontend/editor.cljs");
    assert_eq!(row.line_str, "48");
    assert_eq!(row.text_str, "\"No matched commands\"");
    assert_eq!(t.type_w, 11);
    assert_eq!(t.file_w, 24);
    assert_eq!(t.line_w, 4);
    assert_eq!(t.text_w, 21);
    assert_eq!(t.header_pads, (7, 20, 0, 17));
    assert_eq!((row.kind_pad, row.file_pad, row.line_pad, row.text_pad), (0, 0, 2, 0));
}
