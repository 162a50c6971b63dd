use prism_core::api::review::{DiffSide, FileRange, Position, Range, Suggestion, TextEdit};
use prism_core::offset::OffsetConverter;
use prism_core::suggestion::{
    changes_to_write, compute_changes, dry_run, edit_paths, ensure_non_overlapping, sanitize_path,
    Replacement, SuggestionError,
};

fn edit(path: &str, side: DiffSide, start: Position, end: Position, replacement: &str) -> TextEdit {
    TextEdit::new(FileRange::new(path, side, Range::new(start, end)), replacement)
}

fn line_replacement_suggestion() -> Suggestion {
    let mut suggestion = Suggestion::new(Some("Replace line"));
    suggestion.edits.push(edit(
        "file.txt",
        DiffSide::Head,
        Position::new(2, Some(1)),
        Position::new(3, Some(1)),
        "line two\n",
    ));
    suggestion
}

#[test]
fn dry_run_produces_patch_for_changed_file() {
    let suggestion = line_replacement_suggestion();
    let contents = vec![Some("line 1\nline 2\n".to_owned())];

    let previews = dry_run(&suggestion, &contents).expect("dry run");

    assert_eq!(previews.len(), 1);
    let preview = &previews[0];
    assert_eq!(preview.path, "file.txt");
    assert!(preview.patch.contains("-line 2"));
    assert!(preview.patch.contains("+line two"));
}

#[test]
fn dry_run_leaves_contents_untouched() {
    let suggestion = line_replacement_suggestion();
    let contents = vec![Some("line 1\nline 2\n".to_owned())];
    let before = contents.clone();

    let _ = dry_run(&suggestion, &contents).expect("dry run");

    assert_eq!(contents, before);
}

#[test]
fn compute_changes_builds_updated_text() {
    let suggestion = line_replacement_suggestion();
    let contents = vec![Some("line 1\nline 2\n".to_owned())];

    let changes = compute_changes(&suggestion, &contents).expect("compute");

    assert_eq!(changes.len(), 1);
    assert_eq!(changes[0].path, "file.txt");
    assert_eq!(changes[0].original, "line 1\nline 2\n");
    assert_eq!(changes[0].updated, "line 1\nline two\n");
}

#[test]
fn apply_fails_when_range_out_of_bounds() {
    let suggestion = line_replacement_suggestion();
    // The second line no longer exists in the current content.
    let contents = vec![Some("line 1".to_owned())];

    let err = compute_changes(&suggestion, &contents).expect_err("must fail");
    assert!(matches!(err, SuggestionError::LineOutOfBounds { .. }));
}

#[test]
fn overlapping_edits_are_rejected() {
    let mut suggestion = Suggestion::new(None);
    suggestion.edits.push(edit(
        "file.txt",
        DiffSide::Head,
        Position::new(2, Some(1)),
        Position::new(3, Some(1)),
        "first\n",
    ));
    suggestion.edits.push(edit(
        "file.txt",
        DiffSide::Head,
        Position::new(2, Some(5)),
        Position::new(2, Some(10)),
        "second",
    ));
    let contents = vec![Some("line 1\nline 2 overlaps\nline 3\n".to_owned())];

    let err = compute_changes(&suggestion, &contents).expect_err("overlap");
    match err {
        SuggestionError::OverlappingEdits { path } => assert_eq!(path, "file.txt"),
        other => panic!("unexpected error: {:?}", other),
    }
}

#[test]
fn touching_edits_are_allowed() {
    let mut suggestion = Suggestion::new(None);
    suggestion.edits.push(edit(
        "file.txt",
        DiffSide::Head,
        Position::new(1, Some(1)),
        Position::new(1, Some(3)),
        "AB",
    ));
    suggestion.edits.push(edit(
        "file.txt",
        DiffSide::Head,
        Position::new(1, Some(3)),
        Position::new(1, Some(5)),
        "CD",
    ));
    let contents = vec![Some("abcd\n".to_owned())];

    let changes = compute_changes(&suggestion, &contents).expect("adjacent edits");
    assert_eq!(changes[0].updated, "ABCD\n");
}

#[test]
fn noop_suggestion_produces_no_previews() {
    let mut suggestion = Suggestion::new(None);
    suggestion.edits.push(edit(
        "file.txt",
        DiffSide::Head,
        Position::new(1, Some(1)),
        Position::new(1, Some(5)),
        "same",
    ));
    let contents = vec![Some("same text\n".to_owned())];

    let previews = dry_run(&suggestion, &contents).expect("dry run");
    assert!(previews.is_empty());

    let changes = compute_changes(&suggestion, &contents).expect("compute");
    assert_eq!(changes[0].original, changes[0].updated);
    let to_write = changes_to_write(changes);
    assert!(to_write.is_empty());
}

#[test]
fn base_side_edit_is_rejected() {
    let mut suggestion = Suggestion::new(None);
    suggestion.edits.push(edit(
        "file.txt",
        DiffSide::Base,
        Position::new(1, Some(1)),
        Position::new(1, Some(2)),
        "x",
    ));
    let contents = vec![Some("abc\n".to_owned())];

    let err = compute_changes(&suggestion, &contents).expect_err("base side");
    match err {
        SuggestionError::UnsupportedSide { path, side } => {
            assert_eq!(path, "file.txt");
            assert_eq!(side, DiffSide::Base);
        }
        other => panic!("unexpected error: {:?}", other),
    }
}

#[test]
fn invalid_range_is_rejected() {
    let mut suggestion = Suggestion::new(None);
    suggestion.edits.push(edit(
        "file.txt",
        DiffSide::Head,
        Position::new(2, Some(1)),
        Position::new(1, Some(1)),
        "x",
    ));
    let contents = vec![Some("one\ntwo\n".to_owned())];

    let err = compute_changes(&suggestion, &contents).expect_err("inverted range");
    match err {
        SuggestionError::InvalidRange { path, start, end } => {
            assert_eq!(path, "file.txt");
            assert!(start > end);
        }
        other => panic!("unexpected error: {:?}", other),
    }
}

#[test]
fn missing_file_is_reported() {
    let suggestion = line_replacement_suggestion();
    let contents = vec![None];

    let err = compute_changes(&suggestion, &contents).expect_err("missing");
    match err {
        SuggestionError::MissingFile { path } => assert_eq!(path, "file.txt"),
        other => panic!("unexpected error: {:?}", other),
    }
}

#[test]
fn absolute_path_is_rejected_before_io() {
    let mut suggestion = Suggestion::new(None);
    suggestion.edits.push(edit(
        "/etc/passwd",
        DiffSide::Head,
        Position::new(1, Some(1)),
        Position::new(1, Some(1)),
        "x",
    ));

    let err = edit_paths(&suggestion).expect_err("absolute path");
    match err {
        SuggestionError::AbsolutePath { path } => assert_eq!(path, "/etc/passwd"),
        other => panic!("unexpected error: {:?}", other),
    }
}

#[test]
fn traversal_path_is_rejected_before_io() {
    assert!(matches!(
        sanitize_path("../secret"),
        Err(SuggestionError::PathTraversal { .. })
    ));
    assert!(matches!(
        sanitize_path("a/../b"),
        Err(SuggestionError::PathTraversal { .. })
    ));
    assert!(matches!(
        sanitize_path("a/..b/c"),
        Ok(())
    ));
    assert!(matches!(
        sanitize_path("src/lib.rs"),
        Ok(())
    ));
}

#[test]
fn edit_paths_sorts_and_deduplicates() {
    let mut suggestion = Suggestion::new(None);
    for path in ["b.txt", "a.txt", "b.txt", "c.txt", "a.txt"] {
        suggestion.edits.push(edit(
            path,
            DiffSide::Head,
            Position::new(1, Some(1)),
            Position::new(1, Some(1)),
            "x",
        ));
    }

    let paths = edit_paths(&suggestion).expect("paths");
    assert_eq!(paths, vec!["a.txt", "b.txt", "c.txt"]);
}

#[test]
fn offset_at_end_of_file() {
    let text = "one\ntwo\n".as_bytes().to_vec();
    let converter = OffsetConverter::new(&text);

    let at_end = converter
        .offset(&Position::new(3, Some(1)))
        .expect("end offset");
    assert_eq!(at_end, text.len());

    let err = converter
        .offset(&Position::new(3, Some(2)))
        .expect_err("past end");
    assert!(matches!(err, SuggestionError::ColumnOutOfBounds { .. }));
}

#[test]
fn offset_rejects_line_zero() {
    let text = "one\n".as_bytes().to_vec();
    let converter = OffsetConverter::new(&text);
    let err = converter
        .offset(&Position::new(0, Some(1)))
        .expect_err("line zero");
    assert!(matches!(err, SuggestionError::LineOutOfBounds { line: 0, .. }));
}

#[test]
fn offset_counts_scalars_not_bytes() {
    // Two-byte scalars: column positions advance one scalar at a time.
    let text = "héllo\n".as_bytes().to_vec();
    let converter = OffsetConverter::new(&text);

    let col1 = converter.offset(&Position::new(1, Some(1))).expect("col 1");
    let col2 = converter.offset(&Position::new(1, Some(2))).expect("col 2");
    let col3 = converter.offset(&Position::new(1, Some(3))).expect("col 3");
    assert_eq!(col1, 0);
    assert_eq!(col2, 1);
    assert_eq!(col3, 3);
}

#[test]
fn multibyte_replacement_keeps_text_valid() {
    let mut suggestion = Suggestion::new(None);
    suggestion.edits.push(edit(
        "file.txt",
        DiffSide::Head,
        Position::new(1, Some(2)),
        Position::new(1, Some(3)),
        "ö",
    ));
    let contents = vec![Some("héllo\n".to_owned())];

    let changes = compute_changes(&suggestion, &contents).expect("compute");
    assert_eq!(changes[0].updated, "höllo\n");
}

#[test]
fn missing_column_defaults_to_line_start() {
    let text = "one\ntwo\n".as_bytes().to_vec();
    let converter = OffsetConverter::new(&text);
    let offset = converter.offset(&Position::new(2, None)).expect("line 2");
    assert_eq!(offset, 4);
}

#[test]
fn ensure_non_overlapping_reports_the_file() {
    let reps = vec![
        Replacement {
            start: 0,
            end: 4,
            replacement: b"x".to_vec(),
        },
        Replacement {
            start: 2,
            end: 6,
            replacement: b"y".to_vec(),
        },
    ];
    let err = ensure_non_overlapping("file.txt", &reps).expect_err("overlap");
    match err {
        SuggestionError::OverlappingEdits { path } => assert_eq!(path, "file.txt"),
        other => panic!("unexpected error: {:?}", other),
    }
}

#[test]
fn multi_file_edits_group_by_path() {
    let mut suggestion = Suggestion::new(None);
    suggestion.edits.push(edit(
        "b.txt",
        DiffSide::Head,
        Position::new(1, Some(1)),
        Position::new(1, Some(2)),
        "B",
    ));
    suggestion.edits.push(edit(
        "a.txt",
        DiffSide::Head,
        Position::new(1, Some(1)),
        Position::new(1, Some(2)),
        "A",
    ));
    let contents = vec![Some("aaa\n".to_owned()), Some("bbb\n".to_owned())];

    let changes = compute_changes(&suggestion, &contents).expect("compute");
    assert_eq!(changes.len(), 2);
    assert_eq!(changes[0].path, "a.txt");
    assert_eq!(changes[0].updated, "Aaa\n");
    assert_eq!(changes[1].path, "b.txt");
    assert_eq!(changes[1].updated, "Bbb\n");
}

#[test]
fn empty_suggestion_yields_nothing() {
    let suggestion = Suggestion::new(None);
    let contents: Vec<Option<String>> = Vec::new();
    let previews = dry_run(&suggestion, &contents).expect("dry run");
    assert!(previews.is_empty());
}
