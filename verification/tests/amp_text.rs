use prism_core::amp::{
    format_comment, format_diagnostic, format_line_range, parse_thread_line, parse_thread_table,
    render_payload, split_columns,
};
use prism_core::api::review::{
    CommentDraft, Diagnostic, DiffSide, FileRange, Position, Range, Severity,
};
use prism_core::plugins::ReviewPayload;

#[test]
fn render_payload_formats_all_sections() {
    let diagnostic = {
        let mut diag = Diagnostic::new(
            "Diag title",
            Severity::Warning,
            FileRange::new(
                "src/lib.rs",
                DiffSide::Base,
                Range::new(Position::new(3, None), Position::new(4, None)),
            ),
        );
        diag.detail = Some(" Detail info ".into());
        diag
    };
    let payload = ReviewPayload {
        summary: Some(" Summary text ".into()),
        actions: vec!["Action one".into(), "Action two".into()],
        comments: vec![CommentDraft {
            body: " Comment body ".into(),
            location: FileRange::new(
                "src/lib.rs",
                DiffSide::Head,
                Range::new(Position::new(10, Some(1)), Position::new(12, Some(1))),
            ),
        }],
        diagnostics: vec![diagnostic],
    };

    let rendered = render_payload(&payload);

    let expected = "Summary:\nSummary text\n\nRequested Actions:\n- Action one\n- Action two\n\nInline Comments:\n- src/lib.rs [Head] lines 10-11: Comment body\n\nDiagnostics:\n- Diag title [Warning] at src/lib.rs [Base] lines 3-3 -- Detail info";
    assert_eq!(rendered, expected);
}

#[test]
fn parse_thread_line_keeps_single_word_title() {
    let line = format!(
        "{:<45}{:<15}{:<12}{:<10}{}",
        "Docs", "an hour ago", "Private", "12", "T-123",
    );

    let thread = parse_thread_line(&line).expect("parse");
    assert_eq!(thread.id, "T-123");
    assert_eq!(thread.title.as_deref(), Some("Docs"));
}

#[test]
fn parse_thread_line_drops_last_updated_phrase() {
    let line = format!(
        "{:<45}{:<15}{:<12}{:<10}{}",
        "My Fix", "5 minutes ago", "Private", "7", "T-456",
    );

    let thread = parse_thread_line(&line).expect("parse");
    assert_eq!(thread.id, "T-456");
    assert_eq!(thread.title.as_deref(), Some("My Fix"));
}

#[test]
fn parse_thread_line_needs_enough_columns() {
    assert!(parse_thread_line("only  three  columns").is_none());
    assert!(parse_thread_line("").is_none());
}

#[test]
fn split_columns_breaks_on_wide_gaps() {
    let cols = split_columns("First col  second   third  a b");
    assert_eq!(cols, vec!["First col", "second", "third", "a b"]);

    let empty: Vec<String> = Vec::new();
    assert_eq!(split_columns("      "), empty);
}

#[test]
fn parse_thread_table_skips_rules_and_header() {
    let output = format!(
        "{}\n{}\n{}\n{}\n\n",
        format!(
            "{:<45}{:<15}{:<12}{:<10}{}",
            "Title", "Last Updated", "Visibility", "Msgs", "ID",
        ),
        "\u{2500}\u{2500}\u{2500}\u{2500}\u{2500}\u{2500}\u{2500}\u{2500}",
        format!(
            "{:<45}{:<15}{:<12}{:<10}{}",
            "Docs", "an hour ago", "Private", "12", "T-123",
        ),
        format!(
            "{:<45}{:<15}{:<12}{:<10}{}",
            "My Fix", "5 minutes ago", "Private", "7", "T-456",
        ),
    );

    let threads = parse_thread_table(&output);
    assert_eq!(threads.len(), 2);
    assert_eq!(threads[0].id, "T-123");
    assert_eq!(threads[0].title.as_deref(), Some("Docs"));
    assert_eq!(threads[1].id, "T-456");
    assert_eq!(threads[1].title.as_deref(), Some("My Fix"));
}

#[test]
fn trimming_strips_unicode_whitespace() {
    let comment = CommentDraft::new(
        "\u{A0}\u{2003}padded body\u{2009}\u{3000}",
        FileRange::new(
            "f.rs",
            DiffSide::Head,
            Range::new(Position::new(1, Some(1)), Position::new(1, Some(1))),
        ),
    );
    assert_eq!(format_comment(&comment), "- f.rs [Head] lines 1-1: padded body");
}

#[test]
fn format_comment_renders_bullet() {
    let comment = CommentDraft::new(
        "  Needs a check  ",
        FileRange::new(
            "src/main.rs",
            DiffSide::Head,
            Range::new(Position::new(7, Some(1)), Position::new(9, Some(1))),
        ),
    );
    assert_eq!(
        format_comment(&comment),
        "- src/main.rs [Head] lines 7-8: Needs a check"
    );
}

#[test]
fn format_diagnostic_without_detail_has_no_suffix() {
    let diag = Diagnostic::new(
        "Unused variable",
        Severity::Info,
        FileRange::new(
            "src/a.rs",
            DiffSide::Head,
            Range::new(Position::new(2, None), Position::new(2, None)),
        ),
    );
    assert_eq!(
        format_diagnostic(&diag),
        "- Unused variable [Info] at src/a.rs [Head] lines 2-2"
    );
}

#[test]
fn format_line_range_clamps_to_start() {
    let range = FileRange::new(
        "f",
        DiffSide::Head,
        Range::new(Position::new(5, None), Position::new(5, None)),
    );
    assert_eq!(format_line_range(&range), (5, 5));

    let wide = FileRange::new(
        "f",
        DiffSide::Head,
        Range::new(Position::new(5, None), Position::new(9, None)),
    );
    assert_eq!(format_line_range(&wide), (5, 8));
}
