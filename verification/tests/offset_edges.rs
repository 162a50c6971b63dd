use prism_core::amp::{format_comment, render_payload};
use prism_core::api::review::{CommentDraft, DiffSide, FileRange, Position, Range};
use prism_core::ffi::CoreError;
use prism_core::offset::OffsetConverter;
use prism_core::plugins::ReviewPayload;
use prism_core::suggestion::SuggestionError;
use prism_core::Error;

#[test]
fn empty_file_offsets() {
    let text: Vec<u8> = Vec::new();
    let converter = OffsetConverter::new(&text);

    assert_eq!(converter.offset(&Position::new(1, Some(1))).expect("start"), 0);
    assert_eq!(converter.offset(&Position::new(2, Some(1))).expect("virtual"), 0);
    assert!(matches!(
        converter.offset(&Position::new(3, Some(1))),
        Err(SuggestionError::LineOutOfBounds { .. })
    ));
}

#[test]
fn mid_file_column_out_of_bounds() {
    let text = "ab\ncdef\n".as_bytes().to_vec();
    let converter = OffsetConverter::new(&text);

    // Line 1 spans "ab\n": columns 1..=4 are valid, 5 is not.
    assert_eq!(converter.offset(&Position::new(1, Some(4))).expect("col 4"), 3);
    let err = converter
        .offset(&Position::new(1, Some(5)))
        .expect_err("col 5");
    match err {
        SuggestionError::ColumnOutOfBounds { line, column, .. } => {
            assert_eq!(line, 1);
            assert_eq!(column, 5);
        }
        other => panic!("unexpected error: {:?}", other),
    }
}

#[test]
fn span_checks_side_before_offsets() {
    // Both positions are far out of bounds, but the base side is reported
    // first: no offset computation happens for a rejected side.
    let text = "x\n".as_bytes().to_vec();
    let converter = OffsetConverter::new(&text);
    let range = FileRange::new(
        "f.txt",
        DiffSide::Base,
        Range::new(Position::new(99, Some(99)), Position::new(99, Some(99))),
    );
    let err = converter.span(&range).expect_err("side");
    assert!(matches!(err, SuggestionError::UnsupportedSide { .. }));
}

#[test]
fn format_comment_renders_multi_digit_lines() {
    let comment = CommentDraft::new(
        "body",
        FileRange::new(
            "f.rs",
            DiffSide::Head,
            Range::new(Position::new(123, Some(1)), Position::new(457, Some(1))),
        ),
    );
    assert_eq!(format_comment(&comment), "- f.rs [Head] lines 123-456: body");
}

#[test]
fn render_payload_of_empty_payload_is_empty() {
    assert_eq!(render_payload(&ReviewPayload::new()), "");
}

#[test]
fn core_error_codes_cover_the_taxonomy() {
    assert_eq!(
        CoreError::of_error(&Error::MissingHeadRevision),
        CoreError::MissingHeadRevision
    );
    assert_eq!(
        CoreError::of_error(&Error::NotARepository {
            path: "/tmp/nowhere".to_owned()
        }),
        CoreError::NotARepository
    );
    assert_eq!(
        CoreError::of_error(&Error::Suggestion {
            source: SuggestionError::MissingFile {
                path: "f".to_owned()
            }
        }),
        CoreError::Suggestion
    );
    assert_eq!(
        CoreError::of_error(&Error::PluginNotRegistered {
            plugin: "x".to_owned()
        }),
        CoreError::PluginNotRegistered
    );
}
