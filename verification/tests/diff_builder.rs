use prism_core::api::diff::{DiffLineKind, FileStatus};
use prism_core::api::repository::{Revision, RevisionRange};
use prism_core::diff::{
    parse_section, sanitize_line, trim_line_endings, build_files, convert_line_kind,
    convert_status, DeltaKind, DiffEngine, DiffEvent, FileEvent, HunkEvent, LineEvent, LineOrigin,
};

fn head_revision() -> Revision {
    Revision {
        oid: "2222222222222222222222222222222222222222".to_owned(),
        reference: Some("main".to_owned()),
        summary: Some("Head commit".to_owned()),
        author: None,
        committer: None,
        timestamp: Some(1_700_000_000),
    }
}

fn file_event(kind: DeltaKind, old_path: Option<&str>, new_path: Option<&str>) -> DiffEvent {
    DiffEvent::FileStart(FileEvent {
        kind,
        old_path: old_path.map(|p| p.to_owned()),
        new_path: new_path.map(|p| p.to_owned()),
        old_is_binary: false,
        new_is_binary: false,
    })
}

fn hunk_event(old_start: u32, old_lines: u32, new_start: u32, new_lines: u32) -> DiffEvent {
    DiffEvent::HunkStart(HunkEvent {
        old_start,
        old_lines,
        new_start,
        new_lines,
        header: b"@@ -1,2 +1,2 @@\n".to_vec(),
    })
}

fn line_event(origin: LineOrigin, text: &str, old: Option<u32>, new: Option<u32>) -> DiffEvent {
    DiffEvent::Line(LineEvent {
        origin,
        content: text.as_bytes().to_vec(),
        old_lineno: old,
        new_lineno: new,
    })
}

#[test]
fn parse_section_extracts_header_text() {
    let header = b"@@ -10,5 +10,6 @@ fn greeting";
    assert_eq!(
        parse_section(header).as_deref(),
        Some("fn greeting"),
        "expected trailing context to be parsed"
    );
}

#[test]
fn parse_section_skips_empty_headers() {
    assert_eq!(parse_section(b"@@ -1,3 +1,4 @@\n"), None);
}

#[test]
fn sanitize_line_handles_invalid_utf8() {
    let result = sanitize_line(&[b'f', b'o', 0xFF, b'o', b'\n']);
    assert_eq!(result, "fo\u{FFFD}o");
}

#[test]
fn trim_line_endings_strips_crlf() {
    assert_eq!(trim_line_endings("text\r\n".to_owned()), "text");
    assert_eq!(trim_line_endings("text\n".to_owned()), "text");
    assert_eq!(trim_line_endings("text\r".to_owned()), "text\r");
    assert_eq!(trim_line_endings("text".to_owned()), "text");
}

#[test]
fn diff_integration_diff_engine_flags_type_change() {
    let events = vec![file_event(DeltaKind::Typechange, Some("node"), Some("node"))];
    let files = build_files(&events);
    assert_eq!(files.len(), 1);
    assert_eq!(files[0].status, FileStatus::TypeChange);
}

#[test]
fn status_classification_covers_all_kinds() {
    assert_eq!(convert_status(DeltaKind::Added), FileStatus::Added);
    assert_eq!(convert_status(DeltaKind::Untracked), FileStatus::Added);
    assert_eq!(convert_status(DeltaKind::Deleted), FileStatus::Deleted);
    assert_eq!(convert_status(DeltaKind::Modified), FileStatus::Modified);
    assert_eq!(convert_status(DeltaKind::Ignored), FileStatus::Modified);
    assert_eq!(convert_status(DeltaKind::Unreadable), FileStatus::Modified);
    assert_eq!(convert_status(DeltaKind::Conflicted), FileStatus::Modified);
    assert_eq!(convert_status(DeltaKind::Unmodified), FileStatus::Modified);
    assert_eq!(convert_status(DeltaKind::Renamed), FileStatus::Renamed);
    assert_eq!(convert_status(DeltaKind::Copied), FileStatus::Copied);
    assert_eq!(convert_status(DeltaKind::Typechange), FileStatus::TypeChange);
}

#[test]
fn line_kinds_cover_all_origins() {
    assert_eq!(convert_line_kind(LineOrigin::Context), Some(DiffLineKind::Context));
    assert_eq!(convert_line_kind(LineOrigin::Addition), Some(DiffLineKind::Addition));
    assert_eq!(convert_line_kind(LineOrigin::Deletion), Some(DiffLineKind::Deletion));
    assert_eq!(convert_line_kind(LineOrigin::ContextEofnl), None);
    assert_eq!(convert_line_kind(LineOrigin::AddEofnl), None);
    assert_eq!(convert_line_kind(LineOrigin::DeleteEofnl), None);
    assert_eq!(convert_line_kind(LineOrigin::Binary), None);
    assert_eq!(convert_line_kind(LineOrigin::FileHeader), None);
    assert_eq!(convert_line_kind(LineOrigin::HunkHeader), None);
}

#[test]
fn eofnl_codes_produce_no_lines() {
    let events = vec![
        file_event(DeltaKind::Modified, Some("a"), Some("a")),
        hunk_event(1, 1, 1, 1),
        line_event(LineOrigin::Addition, "text\n", None, Some(1)),
        line_event(LineOrigin::DeleteEofnl, "\\ No newline at end of file\n", None, None),
    ];
    let files = build_files(&events);
    assert_eq!(files[0].hunks[0].lines.len(), 1);
    assert_eq!(files[0].stats.additions, 1);
    assert_eq!(files[0].stats.deletions, 0);
}

#[test]
fn single_line_modification_counts_one_each_way() {
    let events = vec![
        file_event(DeltaKind::Modified, Some("file.txt"), Some("file.txt")),
        hunk_event(1, 2, 1, 2),
        line_event(LineOrigin::Context, "line 1\n", Some(1), Some(1)),
        line_event(LineOrigin::Deletion, "line 2\n", Some(2), None),
        line_event(LineOrigin::Addition, "line two\n", None, Some(2)),
    ];
    let files = build_files(&events);

    assert_eq!(files.len(), 1);
    let file = &files[0];
    assert_eq!(file.path, "file.txt");
    assert_eq!(file.status, FileStatus::Modified);
    assert_eq!(file.stats.additions, 1);
    assert_eq!(file.stats.deletions, 1);
    assert_eq!(file.hunks.len(), 1);
    assert_eq!(file.hunks[0].lines.len(), 3);
    assert_eq!(file.hunks[0].lines[1].kind, DiffLineKind::Deletion);
    assert_eq!(file.hunks[0].lines[1].text, "line 2");
    assert_eq!(file.hunks[0].lines[2].kind, DiffLineKind::Addition);
    assert_eq!(file.hunks[0].lines[2].head_line, Some(2));
}

#[test]
fn pure_rename_keeps_old_path_and_zero_stats() {
    let events = vec![file_event(DeltaKind::Renamed, Some("old.txt"), Some("new.txt"))];
    let files = build_files(&events);

    assert_eq!(files.len(), 1);
    let file = &files[0];
    assert_eq!(file.path, "new.txt");
    assert_eq!(file.old_path.as_deref(), Some("old.txt"));
    assert_eq!(file.status, FileStatus::Renamed);
    assert_eq!(file.stats.additions, 0);
    assert_eq!(file.stats.deletions, 0);
}

#[test]
fn binary_change_drops_earlier_hunks() {
    let events = vec![
        file_event(DeltaKind::Modified, Some("asset.bin"), Some("asset.bin")),
        hunk_event(1, 1, 1, 1),
        line_event(LineOrigin::Addition, "junk\n", None, Some(1)),
        DiffEvent::BinaryDetected,
    ];
    let files = build_files(&events);

    assert_eq!(files.len(), 1);
    let file = &files[0];
    assert!(file.is_binary);
    assert!(file.hunks.is_empty());
    assert_eq!(file.stats.additions, 0);
    assert_eq!(file.stats.deletions, 0);
}

#[test]
fn initial_commit_lists_only_added_files() {
    let events = vec![
        file_event(DeltaKind::Added, None, Some("hello.txt")),
        hunk_event(0, 0, 1, 1),
        line_event(LineOrigin::Addition, "hi\n", None, Some(1)),
    ];
    let engine = DiffEngine::new();
    let range = RevisionRange {
        base: None,
        head: head_revision(),
    };
    let diff = engine.assemble(range, &events);

    assert!(diff.range.base.is_none());
    assert_eq!(diff.files.len(), 1);
    assert_eq!(diff.files[0].status, FileStatus::Added);
    assert_eq!(diff.files[0].stats.additions, 1);
    assert_eq!(diff.files[0].stats.deletions, 0);
}

#[test]
fn deleted_file_takes_old_path() {
    let events = vec![
        file_event(DeltaKind::Deleted, Some("gone.txt"), None),
        hunk_event(1, 1, 0, 0),
        line_event(LineOrigin::Deletion, "remove me\n", Some(1), None),
    ];
    let files = build_files(&events);

    assert_eq!(files.len(), 1);
    assert_eq!(files[0].path, "gone.txt");
    assert_eq!(files[0].status, FileStatus::Deleted);
    assert_eq!(files[0].stats.deletions, 1);
}

#[test]
fn structural_line_codes_produce_no_lines() {
    let events = vec![
        file_event(DeltaKind::Modified, Some("a"), Some("a")),
        hunk_event(1, 1, 1, 1),
        line_event(LineOrigin::HunkHeader, "@@ -1 +1 @@\n", None, None),
        line_event(LineOrigin::FileHeader, "diff --git\n", None, None),
        line_event(LineOrigin::Binary, "bin\n", None, None),
    ];
    let files = build_files(&events);
    assert_eq!(files[0].hunks[0].lines.len(), 0);
    assert_eq!(files[0].stats.additions, 0);
    assert_eq!(files[0].stats.deletions, 0);
}

#[test]
fn section_survives_crlf_and_spaces() {
    assert_eq!(
        parse_section(b"@@ -1,3 +1,4 @@   impl Widget   \r\n").as_deref(),
        Some("impl Widget")
    );
    assert_eq!(parse_section(&[0xFF, 0xFE, b'@', b'@']), None);
}
