//! Diff assembly from a backend's tree-comparison event stream.
//!
//! The backend walks a tree-to-tree comparison and reports an ordered stream
//! of file, binary, hunk and line events. The builder in this module folds
//! that stream into the [`Diff`] aggregate, classifying statuses, deriving
//! section labels and accumulating per-file line counts.

use vstd::prelude::*;
use vstd::string::StrSliceExecFns;
use vstd::utf8::*;

use crate::api::diff::{
    Diff, DiffFile, DiffFileModel, DiffHunk, DiffHunkModel, DiffLine, DiffLineKind, DiffLineModel,
    DiffRange, DiffStats, FileStatus, file_kind_count, hunk_kind_count,
};
use crate::api::repository::RevisionRange;
use crate::text::{decode_lossy, lossy_decode, trim_blank, trim_eol_spec, trim_spec, try_decode_utf8};

verus! {

/// Change kind reported by the backend for a file delta.
#[derive(Debug, Clone, Copy, PartialEq, Eq, Structural)]
pub enum DeltaKind {
    /// Entry is unchanged.
    Unmodified,
    /// Entry was added.
    Added,
    /// Entry was deleted.
    Deleted,
    /// Entry was modified.
    Modified,
    /// Entry was renamed.
    Renamed,
    /// Entry was copied.
    Copied,
    /// Entry is ignored.
    Ignored,
    /// Entry is untracked.
    Untracked,
    /// Entry changed file type.
    Typechange,
    /// Entry could not be read.
    Unreadable,
    /// Entry carries a conflict.
    Conflicted,
}

/// Origin code reported by the backend for a diff line.
#[derive(Debug, Clone, Copy, PartialEq, Eq, Structural)]
pub enum LineOrigin {
    /// Unchanged context line.
    Context,
    /// Added line.
    Addition,
    /// Deleted line.
    Deletion,
    /// Context end-of-file newline marker.
    ContextEofnl,
    /// Added end-of-file newline marker.
    AddEofnl,
    /// Deleted end-of-file newline marker.
    DeleteEofnl,
    /// File header pseudo-line.
    FileHeader,
    /// Hunk header pseudo-line.
    HunkHeader,
    /// Binary marker pseudo-line.
    Binary,
}

/// "File started" event of the comparison stream.
#[derive(Debug, Clone, PartialEq, Eq)]
pub struct FileEvent {
    /// Backend change kind for the delta.
    pub kind: DeltaKind,
    /// Path on the old side, when present.
    pub old_path: Option<String>,
    /// Path on the new side, when present.
    pub new_path: Option<String>,
    /// Whether the old side was flagged binary.
    pub old_is_binary: bool,
    /// Whether the new side was flagged binary.
    pub new_is_binary: bool,
}

/// "Hunk started" event of the comparison stream.
#[derive(Debug, Clone, PartialEq, Eq)]
pub struct HunkEvent {
    /// 1-based base-side start line.
    pub old_start: u32,
    /// Base-side line count.
    pub old_lines: u32,
    /// 1-based head-side start line.
    pub new_start: u32,
    /// Head-side line count.
    pub new_lines: u32,
    /// Raw hunk header bytes.
    pub header: Vec<u8>,
}

/// "Line" event of the comparison stream.
#[derive(Debug, Clone, PartialEq, Eq)]
pub struct LineEvent {
    /// Origin code of the line.
    pub origin: LineOrigin,
    /// Raw content bytes of the line.
    pub content: Vec<u8>,
    /// 1-based old-side line number, when applicable.
    pub old_lineno: Option<u32>,
    /// 1-based new-side line number, when applicable.
    pub new_lineno: Option<u32>,
}

/// One event of the backend's ordered comparison stream.
#[derive(Debug, Clone, PartialEq, Eq)]
pub enum DiffEvent {
    /// A new file delta started.
    FileStart(FileEvent),
    /// The current file was detected to hold binary content.
    BinaryDetected,
    /// A new hunk of the current file started.
    HunkStart(HunkEvent),
    /// A line of the current hunk was emitted.
    Line(LineEvent),
}

/// Mathematical model of a [`FileEvent`].
pub ghost struct FileEventModel {
    /// Backend change kind.
    pub kind: DeltaKind,
    /// Old-side path.
    pub old_path: Option<Seq<char>>,
    /// New-side path.
    pub new_path: Option<Seq<char>>,
    /// Old-side binary flag.
    pub old_is_binary: bool,
    /// New-side binary flag.
    pub new_is_binary: bool,
}

/// Mathematical model of a [`HunkEvent`].
pub ghost struct HunkEventModel {
    /// 1-based base-side start line.
    pub old_start: u32,
    /// Base-side line count.
    pub old_lines: u32,
    /// 1-based head-side start line.
    pub new_start: u32,
    /// Head-side line count.
    pub new_lines: u32,
    /// Raw hunk header bytes.
    pub header: Seq<u8>,
}

/// Mathematical model of a [`LineEvent`].
pub ghost struct LineEventModel {
    /// Origin code.
    pub origin: LineOrigin,
    /// Raw content bytes.
    pub content: Seq<u8>,
    /// Old-side line number.
    pub old_lineno: Option<u32>,
    /// New-side line number.
    pub new_lineno: Option<u32>,
}

/// Mathematical model of a [`DiffEvent`].
pub ghost enum DiffEventModel {
    /// A new file delta started.
    FileStart(FileEventModel),
    /// Binary content detected for the current file.
    BinaryDetected,
    /// A new hunk started.
    HunkStart(HunkEventModel),
    /// A line was emitted.
    Line(LineEventModel),
}

impl View for FileEvent {
    type V = FileEventModel;

    open spec fn view(&self) -> FileEventModel {
        FileEventModel {
            kind: self.kind,
            old_path: match self.old_path {
                Some(p) => Some(p@),
                None => None,
            },
            new_path: match self.new_path {
                Some(p) => Some(p@),
                None => None,
            },
            old_is_binary: self.old_is_binary,
            new_is_binary: self.new_is_binary,
        }
    }
}

impl View for HunkEvent {
    type V = HunkEventModel;

    open spec fn view(&self) -> HunkEventModel {
        HunkEventModel {
            old_start: self.old_start,
            old_lines: self.old_lines,
            new_start: self.new_start,
            new_lines: self.new_lines,
            header: self.header@,
        }
    }
}

impl View for LineEvent {
    type V = LineEventModel;

    open spec fn view(&self) -> LineEventModel {
        LineEventModel {
            origin: self.origin,
            content: self.content@,
            old_lineno: self.old_lineno,
            new_lineno: self.new_lineno,
        }
    }
}

impl View for DiffEvent {
    type V = DiffEventModel;

    open spec fn view(&self) -> DiffEventModel {
        match self {
            DiffEvent::FileStart(e) => DiffEventModel::FileStart(e@),
            DiffEvent::BinaryDetected => DiffEventModel::BinaryDetected,
            DiffEvent::HunkStart(e) => DiffEventModel::HunkStart(e@),
            DiffEvent::Line(e) => DiffEventModel::Line(e@),
        }
    }
}

/// The file status a backend change kind classifies to.
pub open spec fn status_of(kind: DeltaKind) -> FileStatus {
    match kind {
        DeltaKind::Added | DeltaKind::Untracked => FileStatus::Added,
        DeltaKind::Deleted => FileStatus::Deleted,
        DeltaKind::Modified | DeltaKind::Ignored | DeltaKind::Unreadable | DeltaKind::Conflicted
            | DeltaKind::Unmodified => FileStatus::Modified,
        DeltaKind::Renamed => FileStatus::Renamed,
        DeltaKind::Copied => FileStatus::Copied,
        DeltaKind::Typechange => FileStatus::TypeChange,
    }
}

/// Map a backend change kind to the file status it classifies to.
pub fn convert_status(kind: DeltaKind) -> (r: FileStatus)
    ensures
        r == status_of(kind),
{
    match kind {
        DeltaKind::Added | DeltaKind::Untracked => FileStatus::Added,
        DeltaKind::Deleted => FileStatus::Deleted,
        DeltaKind::Modified | DeltaKind::Ignored | DeltaKind::Unreadable | DeltaKind::Conflicted
            | DeltaKind::Unmodified => FileStatus::Modified,
        DeltaKind::Renamed => FileStatus::Renamed,
        DeltaKind::Copied => FileStatus::Copied,
        DeltaKind::Typechange => FileStatus::TypeChange,
    }
}

/// The diff line kind an ordinary origin code maps to. Line-ending-only
/// codes and the structural codes (binary marker, file header, hunk header)
/// stand for no line.
pub open spec fn line_kind_of(origin: LineOrigin) -> Option<DiffLineKind> {
    match origin {
        LineOrigin::Context => Some(DiffLineKind::Context),
        LineOrigin::Addition => Some(DiffLineKind::Addition),
        LineOrigin::Deletion => Some(DiffLineKind::Deletion),
        LineOrigin::ContextEofnl | LineOrigin::AddEofnl | LineOrigin::DeleteEofnl
            | LineOrigin::Binary | LineOrigin::FileHeader | LineOrigin::HunkHeader => None,
    }
}

/// Map an origin code to the diff line kind it stands for, if any.
pub fn convert_line_kind(origin: LineOrigin) -> (r: Option<DiffLineKind>)
    ensures
        r == line_kind_of(origin),
{
    match origin {
        LineOrigin::Context => Some(DiffLineKind::Context),
        LineOrigin::Addition => Some(DiffLineKind::Addition),
        LineOrigin::Deletion => Some(DiffLineKind::Deletion),
        LineOrigin::ContextEofnl | LineOrigin::AddEofnl | LineOrigin::DeleteEofnl
            | LineOrigin::Binary | LineOrigin::FileHeader | LineOrigin::HunkHeader => None,
    }
}

/// The canonical path of a file delta: the old-side path for deletions or
/// when the new side is absent, otherwise the new-side path.
pub open spec fn canonical_path(
    status: FileStatus,
    old_path: Option<Seq<char>>,
    new_path: Option<Seq<char>>,
) -> Seq<char> {
    if old_path is Some && (status == FileStatus::Deleted || new_path is None) {
        old_path->0
    } else if new_path is Some {
        new_path->0
    } else {
        Seq::empty()
    }
}

/// The `old_path` field of a file delta: the old-side path, but only for
/// renames and copies, and only when it differs from the canonical path.
pub open spec fn old_path_field(
    status: FileStatus,
    old_path: Option<Seq<char>>,
    new_path: Option<Seq<char>>,
) -> Option<Seq<char>> {
    if (status == FileStatus::Renamed || status == FileStatus::Copied) && old_path is Some
        && old_path != new_path && old_path->0 != canonical_path(status, old_path, new_path) {
        old_path
    } else {
        None
    }
}

/// The file model a "file started" event opens.
pub open spec fn file_of_event(e: FileEventModel) -> DiffFileModel {
    let status = status_of(e.kind);
    DiffFileModel {
        path: canonical_path(status, e.old_path, e.new_path),
        old_path: old_path_field(status, e.old_path, e.new_path),
        status,
        stats: DiffStats { additions: 0, deletions: 0 },
        is_binary: e.old_is_binary || e.new_is_binary,
        hunks: Seq::empty(),
    }
}

/// Trailing carriage-return and newline characters removed.
pub open spec fn trim_end_crlf_spec(s: Seq<char>) -> Seq<char>
    decreases s.len(),
{
    if s.len() > 0 && (s.last() == '\r' || s.last() == '\n') {
        trim_end_crlf_spec(s.drop_last())
    } else {
        s
    }
}

/// Position of the last occurrence of two adjacent at-signs.
pub open spec fn rfind_atat(s: Seq<char>) -> Option<int>
    decreases s.len(),
{
    if s.len() < 2 {
        None
    } else if s[s.len() - 2] == '@' && s[s.len() - 1] == '@' {
        Some(s.len() - 2)
    } else {
        rfind_atat(s.drop_last())
    }
}

/// The section label of a decoded hunk header: the trimmed text after the
/// last hunk delimiter, when non-empty.
pub open spec fn parse_section_spec(s: Seq<char>) -> Option<Seq<char>> {
    let trimmed = trim_end_crlf_spec(s);
    match rfind_atat(trimmed) {
        None => None,
        Some(i) => {
            let sec = trim_spec(trimmed.skip(i + 2));
            if sec.len() == 0 {
                None
            } else {
                Some(sec)
            }
        },
    }
}

/// The section label of raw hunk header bytes: none when the bytes are not
/// valid UTF-8.
pub open spec fn section_of(header: Seq<u8>) -> Option<Seq<char>> {
    if valid_utf8(header) {
        parse_section_spec(decode_utf8(header))
    } else {
        None
    }
}

/// The display text of a raw line: its lossy decoding with one trailing
/// newline (and a carriage return before it) removed.
pub open spec fn sanitized_line(bytes: Seq<u8>) -> Seq<char> {
    trim_eol_spec(lossy_decode(bytes))
}

/// The hunk model a "hunk started" event opens.
pub open spec fn hunk_of_event(e: HunkEventModel) -> DiffHunkModel {
    DiffHunkModel {
        header: DiffRange {
            base_start: e.old_start,
            base_lines: e.old_lines,
            head_start: e.new_start,
            head_lines: e.new_lines,
        },
        section: section_of(e.header),
        lines: Seq::empty(),
    }
}

/// The effect of one comparison event on the accumulated files.
pub open spec fn builder_step(files: Seq<DiffFileModel>, e: DiffEventModel) -> Seq<DiffFileModel> {
    match e {
        DiffEventModel::FileStart(fe) => files.push(file_of_event(fe)),
        DiffEventModel::BinaryDetected => {
            if files.len() == 0 {
                files
            } else {
                let f = files.last();
                files.update(
                    files.len() - 1,
                    DiffFileModel {
                        is_binary: true,
                        hunks: Seq::empty(),
                        stats: DiffStats { additions: 0, deletions: 0 },
                        ..f
                    },
                )
            }
        },
        DiffEventModel::HunkStart(he) => {
            if files.len() == 0 {
                files
            } else {
                let f = files.last();
                if f.is_binary {
                    files
                } else {
                    files.update(
                        files.len() - 1,
                        DiffFileModel { hunks: f.hunks.push(hunk_of_event(he)), ..f },
                    )
                }
            }
        },
        DiffEventModel::Line(le) => {
            if files.len() == 0 {
                files
            } else {
                let f = files.last();
                if f.is_binary || f.hunks.len() == 0 {
                    files
                } else {
                    match line_kind_of(le.origin) {
                        None => files,
                        Some(kind) => {
                            let line = DiffLineModel {
                                kind,
                                text: sanitized_line(le.content),
                                base_line: le.old_lineno,
                                head_line: le.new_lineno,
                                highlights: Seq::empty(),
                            };
                            let h = f.hunks.last();
                            let stats = DiffStats {
                                additions: if kind == DiffLineKind::Addition {
                                    (f.stats.additions + 1) as u32
                                } else {
                                    f.stats.additions
                                },
                                deletions: if kind == DiffLineKind::Deletion {
                                    (f.stats.deletions + 1) as u32
                                } else {
                                    f.stats.deletions
                                },
                            };
                            files.update(
                                files.len() - 1,
                                DiffFileModel {
                                    stats,
                                    hunks: f.hunks.update(
                                        f.hunks.len() - 1,
                                        DiffHunkModel { lines: h.lines.push(line), ..h },
                                    ),
                                    ..f
                                },
                            )
                        },
                    }
                }
            }
        },
    }
}

/// The files a whole event stream folds to.
pub open spec fn build_files_spec(events: Seq<DiffEventModel>) -> Seq<DiffFileModel>
    decreases events.len(),
{
    if events.len() == 0 {
        Seq::empty()
    } else {
        builder_step(build_files_spec(events.drop_last()), events.last())
    }
}

/// Accumulator that folds comparison events into file diffs.
pub struct DiffBuilder {
    files: Vec<DiffFile>,
}

impl View for DiffBuilder {
    type V = Seq<DiffFileModel>;

    closed spec fn view(&self) -> Seq<DiffFileModel> {
        self.files@.map_values(|f: DiffFile| f@)
    }
}

impl DiffBuilder {
    /// The accumulated counters still have room for another line.
    pub open spec fn can_count(&self) -> bool {
        self@.len() > 0 ==> self@.last().stats.additions < u32::MAX
            && self@.last().stats.deletions < u32::MAX
    }

    /// Create an empty accumulator.
    pub fn new() -> (r: Self)
        ensures
            r@ =~= Seq::<DiffFileModel>::empty(),
    {
        Self { files: Vec::new() }
    }

    /// Open a new file delta from a "file started" event.
    pub fn start_file(&mut self, event: &FileEvent)
        ensures
            final(self)@ == builder_step(old(self)@, DiffEventModel::FileStart(event@)),
    {
        let status = convert_status(event.kind);
        let old_path = clone_opt_string(&event.old_path);
        let new_path = clone_opt_string(&event.new_path);

        let path: String = if old_path.is_some() && (matches!(status, FileStatus::Deleted)
            || new_path.is_none()) {
            match old_path {
                Some(ref p) => p.clone(),
                None => String::new(),
            }
        } else {
            match new_path {
                Some(ref p) => p.clone(),
                None => String::new(),
            }
        };

        let keeps_old = matches!(status, FileStatus::Renamed | FileStatus::Copied)
            && old_path.is_some() && !opt_string_eq(&old_path, &new_path)
            && !opt_string_holds(&old_path, &path);

        let diff_file = DiffFile {
            path,
            old_path: if keeps_old {
                old_path
            } else {
                None
            },
            status,
            stats: DiffStats::zero(),
            is_binary: event.new_is_binary || event.old_is_binary,
            hunks: Vec::new(),
        };

        let ghost prev = self@;
        self.files.push(diff_file);
        proof {
            assert(final(self)@ =~~= prev.push(file_of_event(event@)));
        }
    }

    /// Flag the current file as binary and drop any accumulated hunks and
    /// line counters: a binary file carries no line-level detail, even when
    /// the backend emitted hunk data before the binary flag.
    pub fn mark_binary(&mut self)
        ensures
            final(self)@ == builder_step(old(self)@, DiffEventModel::BinaryDetected),
    {
        let ghost prev = self@;
        match self.files.pop() {
            None => {
                proof {
                    assert(final(self)@ =~~= prev);
                }
            },
            Some(mut current) => {
                current.is_binary = true;
                current.hunks.clear();
                current.stats = DiffStats::zero();
                self.files.push(current);
                proof {
                    assert(final(self)@ =~~= builder_step(prev, DiffEventModel::BinaryDetected));
                }
            },
        }
    }

    /// Open a new hunk of the current file from a "hunk started" event.
    pub fn start_hunk(&mut self, event: &HunkEvent)
        ensures
            final(self)@ == builder_step(old(self)@, DiffEventModel::HunkStart(event@)),
    {
        let ghost prev = self@;
        match self.files.pop() {
            None => {
                proof {
                    assert(final(self)@ =~~= prev);
                }
            },
            Some(mut file) => {
                if file.is_binary {
                    self.files.push(file);
                    proof {
                        assert(final(self)@ =~~= prev);
                    }
                    return;
                }

                let header = DiffRange {
                    base_start: event.old_start,
                    base_lines: event.old_lines,
                    head_start: event.new_start,
                    head_lines: event.new_lines,
                };

                file.hunks.push(DiffHunk {
                    header,
                    section: parse_section(event.header.as_slice()),
                    lines: Vec::new(),
                });
                self.files.push(file);
                proof {
                    assert(final(self)@ =~~= builder_step(
                        prev,
                        DiffEventModel::HunkStart(event@),
                    ));
                }
            },
        }
    }

    /// Record a line of the current hunk from a "line" event.
    pub fn push_line(&mut self, event: &LineEvent)
        requires
            old(self).can_count(),
        ensures
            final(self)@ == builder_step(old(self)@, DiffEventModel::Line(event@)),
    {
        let ghost prev = self@;
        match self.files.pop() {
            None => {
                proof {
                    assert(final(self)@ =~~= prev);
                }
            },
            Some(mut file) => {
                if file.is_binary {
                    self.files.push(file);
                    proof {
                        assert(final(self)@ =~~= prev);
                    }
                    return;
                }

                match file.hunks.pop() {
                    None => {
                        self.files.push(file);
                        proof {
                            assert(final(self)@ =~~= prev);
                        }
                    },
                    Some(mut hunk) => {
                        match convert_line_kind(event.origin) {
                            None => {
                                file.hunks.push(hunk);
                                self.files.push(file);
                                proof {
                                    assert(final(self)@ =~~= prev);
                                }
                            },
                            Some(kind) => {
                                if matches!(kind, DiffLineKind::Addition) {
                                    file.stats.additions = file.stats.additions + 1;
                                } else if matches!(kind, DiffLineKind::Deletion) {
                                    file.stats.deletions = file.stats.deletions + 1;
                                }

                                hunk.lines.push(DiffLine {
                                    kind,
                                    text: sanitize_line(event.content.as_slice()),
                                    base_line: event.old_lineno,
                                    head_line: event.new_lineno,
                                    highlights: Vec::new(),
                                });
                                file.hunks.push(hunk);
                                self.files.push(file);
                                proof {
                                    assert(final(self)@ =~~= builder_step(
                                        prev,
                                        DiffEventModel::Line(event@),
                                    ));
                                }
                            },
                        }
                    },
                }
            },
        }
    }

    /// Hand back the accumulated file diffs.
    pub fn finish(self) -> (r: Vec<DiffFile>)
        ensures
            r@.map_values(|f: DiffFile| f@) == self@,
    {
        self.files
    }
}

/// Clone an optional string.
fn clone_opt_string(value: &Option<String>) -> (r: Option<String>)
    ensures
        r is Some <==> value is Some,
        r is Some ==> r->0@ == value->0@,
{
    match value {
        Some(s) => Some(s.clone()),
        None => None,
    }
}

/// Whether two optional strings hold the same characters.
fn opt_string_eq(a: &Option<String>, b: &Option<String>) -> (r: bool)
    ensures
        r == ((match a {
            Some(s) => Some(s@),
            None => None,
        }) == (match b {
            Some(s) => Some(s@),
            None => None,
        })),
{
    match (a, b) {
        (Some(x), Some(y)) => x.eq(y),
        (None, None) => true,
        _ => false,
    }
}

/// Whether an optional string holds exactly the given characters.
fn opt_string_holds(a: &Option<String>, p: &String) -> (r: bool)
    ensures
        r == ((match a {
            Some(s) => Some(s@),
            None => None,
        }) == Some(p@)),
{
    match a {
        Some(x) => x.eq(p),
        None => false,
    }
}

/// Derive the section label from raw hunk header bytes: decode as UTF-8
/// (silently yielding no section on invalid bytes), trim trailing line
/// endings, and take the trimmed remainder after the last hunk delimiter.
pub fn parse_section(header: &[u8]) -> (r: Option<String>)
    ensures
        match r {
            Some(s) => section_of(header@) == Some(s@),
            None => section_of(header@) is None,
        },
{
    let decoded = match try_decode_utf8(header) {
        Some(s) => s,
        None => {
            return None;
        },
    };
    let text = decoded.as_str();
    let n: usize = text.unicode_len();

    let mut hi: usize = n;
    proof {
        assert(text@.take(n as int) =~= text@);
    }
    while hi > 0
        invariant
            0 <= hi <= n,
            n == text@.len(),
            trim_end_crlf_spec(text@) == trim_end_crlf_spec(text@.take(hi as int)),
        ensures
            0 <= hi <= n,
            trim_end_crlf_spec(text@) == trim_end_crlf_spec(text@.take(hi as int)),
            hi > 0 ==> !(text@[hi - 1] == '\r' || text@[hi - 1] == '\n'),
        decreases hi,
    {
        let c = text.get_char(hi - 1);
        if c != '\r' && c != '\n' {
            break;
        }
        proof {
            assert(text@.take(hi as int).drop_last() =~= text@.take(hi - 1));
        }
        hi = hi - 1;
    }
    proof {
        assert(text@.take(n as int) =~= text@);
        if hi > 0 {
            assert(trim_end_crlf_spec(text@.take(hi as int)) == text@.take(hi as int));
        } else {
            assert(trim_end_crlf_spec(text@.take(0)) =~= text@.take(0));
        }
    }
    let ghost trimmed = trim_end_crlf_spec(text@);

    let mut j: usize = hi;
    let mut found: usize = 0;
    let mut has_found: bool = false;
    while j >= 2
        invariant_except_break
            !has_found,
        invariant
            0 <= j <= hi,
            hi <= n,
            n == text@.len(),
            trimmed == text@.take(hi as int),
            forall|p: int|
                j - 2 < p <= hi - 2 ==> !(#[trigger] trimmed[p] == '@' && trimmed[p + 1] == '@'),
        ensures
            has_found ==> found + 2 <= hi && trimmed[found as int] == '@'
                && trimmed[found + 1] == '@' && forall|p: int|
                found < p <= hi - 2 ==> !(#[trigger] trimmed[p] == '@' && trimmed[p + 1] == '@'),
            !has_found ==> forall|p: int|
                0 <= p <= hi - 2 ==> !(#[trigger] trimmed[p] == '@' && trimmed[p + 1] == '@'),
        decreases j,
    {
        if text.get_char(j - 2) == '@' && text.get_char(j - 1) == '@' {
            found = j - 2;
            has_found = true;
            break;
        }
        proof {
            assert(trimmed[j - 2] == text@[j - 2]);
            assert(trimmed[j - 1] == text@[j - 1]);
        }
        j = j - 1;
    }

    if !has_found {
        proof {
            lemma_rfind_atat_none(trimmed);
        }
        return None;
    }
    proof {
        lemma_rfind_atat_some(trimmed, found as int);
    }

    let sec = trim_blank(text.substring_char(found + 2, hi));
    proof {
        assert(text@.subrange(found + 2, hi as int) =~= trimmed.skip(found + 2));
    }
    if sec.as_str().is_empty() {
        None
    } else {
        Some(sec)
    }
}

proof fn lemma_rfind_atat_none(t: Seq<char>)
    requires
        forall|p: int| 0 <= p <= t.len() - 2 ==> !(#[trigger] t[p] == '@' && t[p + 1] == '@'),
    ensures
        rfind_atat(t) is None,
    decreases t.len(),
{
    if t.len() >= 2 {
        lemma_rfind_atat_none(t.drop_last());
    }
}

proof fn lemma_rfind_atat_some(t: Seq<char>, i: int)
    requires
        0 <= i <= t.len() - 2,
        t[i] == '@' && t[i + 1] == '@',
        forall|p: int| i < p <= t.len() - 2 ==> !(#[trigger] t[p] == '@' && t[p + 1] == '@'),
    ensures
        rfind_atat(t) == Some(i),
    decreases t.len(),
{
    if i == t.len() - 2 {
    } else {
        lemma_rfind_atat_some(t.drop_last(), i);
    }
}

/// Normalize a raw line's bytes into display text: decode lossily and strip
/// one trailing newline together with a carriage return before it.
pub fn sanitize_line(bytes: &[u8]) -> (r: String)
    ensures
        r@ == sanitized_line(bytes@),
        valid_utf8(bytes@) ==> r@ == trim_eol_spec(decode_utf8(bytes@)),
{
    let text = decode_lossy(bytes);
    trim_line_endings(text)
}

/// Strip one trailing newline and, if present immediately before it, one
/// trailing carriage return.
pub fn trim_line_endings(line: String) -> (r: String)
    ensures
        r@ == trim_eol_spec(line@),
{
    let text = line.as_str();
    let n: usize = text.unicode_len();
    if n > 0 && text.get_char(n - 1) == '\n' {
        let m: usize = if n > 1 && text.get_char(n - 2) == '\r' {
            n - 2
        } else {
            n - 1
        };
        proof {
            assert(text@.take(n - 1) =~= text@.drop_last());
            if n > 1 && text@[n - 2] == '\r' {
                assert(text@.take(n - 2) =~= text@.drop_last().drop_last());
            }
        }
        text.substring_char(0, m).to_owned()
    } else {
        line
    }
}


/// Every file a single comparison event leaves behind is well-formed when
/// every file before it was: counters match the recorded lines, binary files
/// carry no hunks, and `old_path` is only set for renames and copies.
pub proof fn lemma_step_preserves_wf(files: Seq<DiffFileModel>, e: DiffEventModel)
    requires
        forall|k: int| 0 <= k < files.len() ==> (#[trigger] files[k]).wf(),
        files.len() > 0 ==> files.last().stats.additions < u32::MAX
            && files.last().stats.deletions < u32::MAX,
    ensures
        forall|k: int|
            0 <= k < builder_step(files, e).len() ==> (#[trigger] builder_step(files, e)[k]).wf(),
{
    let out = builder_step(files, e);
    match e {
        DiffEventModel::FileStart(fe) => {
            let f = file_of_event(fe);
            assert(f.hunks =~= Seq::<DiffHunkModel>::empty());
            assert(file_kind_count(f.hunks, DiffLineKind::Addition) == 0);
            assert(file_kind_count(f.hunks, DiffLineKind::Deletion) == 0);
            assert(f.wf());
        },
        DiffEventModel::BinaryDetected => {
            if files.len() > 0 {
                let f = out.last();
                assert(file_kind_count(f.hunks, DiffLineKind::Addition) == 0);
                assert(file_kind_count(f.hunks, DiffLineKind::Deletion) == 0);
                assert(f.wf());
            }
        },
        DiffEventModel::HunkStart(he) => {
            if files.len() > 0 && !files.last().is_binary {
                let f = files.last();
                let f2 = out.last();
                assert(f.wf());
                let h = hunk_of_event(he);
                assert(hunk_kind_count(h, DiffLineKind::Addition) == 0);
                assert(hunk_kind_count(h, DiffLineKind::Deletion) == 0);
                assert(f2.hunks.drop_last() =~= f.hunks);
                assert(file_kind_count(f2.hunks, DiffLineKind::Addition) == file_kind_count(
                    f.hunks,
                    DiffLineKind::Addition,
                ) + hunk_kind_count(h, DiffLineKind::Addition));
                assert(file_kind_count(f2.hunks, DiffLineKind::Deletion) == file_kind_count(
                    f.hunks,
                    DiffLineKind::Deletion,
                ) + hunk_kind_count(h, DiffLineKind::Deletion));
                assert(f2.wf());
            }
        },
        DiffEventModel::Line(le) => {
            if files.len() > 0 && !files.last().is_binary && files.last().hunks.len() > 0
                && line_kind_of(le.origin) is Some {
                let f = files.last();
                let f2 = out.last();
                assert(f.wf());
                let kind = line_kind_of(le.origin)->0;
                let h = f.hunks.last();
                let h2 = f2.hunks.last();
                lemma_hunk_count_push(h, h2.lines.last(), DiffLineKind::Addition);
                lemma_hunk_count_push(h, h2.lines.last(), DiffLineKind::Deletion);
                assert(f.hunks.len() > 0);
                assert(file_kind_count(f.hunks, DiffLineKind::Addition) == file_kind_count(
                    f.hunks.drop_last(),
                    DiffLineKind::Addition,
                ) + hunk_kind_count(f.hunks.last(), DiffLineKind::Addition));
                assert(file_kind_count(f.hunks, DiffLineKind::Deletion) == file_kind_count(
                    f.hunks.drop_last(),
                    DiffLineKind::Deletion,
                ) + hunk_kind_count(f.hunks.last(), DiffLineKind::Deletion));
                assert(f2.hunks.drop_last() =~= f.hunks.drop_last());
                assert(file_kind_count(f2.hunks, DiffLineKind::Addition) == file_kind_count(
                    f.hunks.drop_last(),
                    DiffLineKind::Addition,
                ) + hunk_kind_count(h2, DiffLineKind::Addition));
                assert(file_kind_count(f.hunks, DiffLineKind::Addition) == file_kind_count(
                    f.hunks.drop_last(),
                    DiffLineKind::Addition,
                ) + hunk_kind_count(h, DiffLineKind::Addition));
                assert(file_kind_count(f2.hunks, DiffLineKind::Deletion) == file_kind_count(
                    f.hunks.drop_last(),
                    DiffLineKind::Deletion,
                ) + hunk_kind_count(h2, DiffLineKind::Deletion));
                assert(file_kind_count(f.hunks, DiffLineKind::Deletion) == file_kind_count(
                    f.hunks.drop_last(),
                    DiffLineKind::Deletion,
                ) + hunk_kind_count(h, DiffLineKind::Deletion));
                assert(f2.wf());
            }
        },
    }
}

proof fn lemma_hunk_count_push(h: DiffHunkModel, line: DiffLineModel, kind: DiffLineKind)
    ensures
        hunk_kind_count(
            DiffHunkModel { lines: h.lines.push(line), ..h },
            kind,
        ) == hunk_kind_count(h, kind) + line.counts_as(kind),
{
    let h2 = DiffHunkModel { lines: h.lines.push(line), ..h };
    assert(h2.lines.drop_last() =~= h.lines);
    assert(hunk_kind_count(DiffHunkModel { lines: h2.lines.drop_last(), ..h2 }, kind)
        == hunk_kind_count(h, kind)) by {
        lemma_hunk_count_lines_only(
            DiffHunkModel { lines: h2.lines.drop_last(), ..h2 },
            h,
            kind,
        );
    }
}

proof fn lemma_hunk_count_lines_only(a: DiffHunkModel, b: DiffHunkModel, kind: DiffLineKind)
    requires
        a.lines == b.lines,
    ensures
        hunk_kind_count(a, kind) == hunk_kind_count(b, kind),
    decreases a.lines.len(),
{
    if a.lines.len() > 0 {
        lemma_hunk_count_lines_only(
            DiffHunkModel { lines: a.lines.drop_last(), ..a },
            DiffHunkModel { lines: b.lines.drop_last(), ..b },
            kind,
        );
    }
}

/// The accumulated counters of every file are bounded by the number of
/// events folded so far.
pub proof fn lemma_build_files_counts(events: Seq<DiffEventModel>)
    ensures
        forall|k: int|
            0 <= k < build_files_spec(events).len() ==> (#[trigger] build_files_spec(
                events,
            )[k]).stats.additions + build_files_spec(events)[k].stats.deletions <= events.len(),
    decreases events.len(),
{
    if events.len() > 0 {
        let prev = build_files_spec(events.drop_last());
        lemma_build_files_counts(events.drop_last());
        assert(forall|k: int|
            0 <= k < prev.len() ==> (#[trigger] prev[k]).stats.additions
                + prev[k].stats.deletions <= events.len() - 1);
    }
}

/// Every file a whole comparison stream folds to is well-formed.
pub proof fn lemma_build_files_wf(events: Seq<DiffEventModel>)
    requires
        events.len() <= u32::MAX,
    ensures
        forall|k: int|
            0 <= k < build_files_spec(events).len() ==> (#[trigger] build_files_spec(
                events,
            )[k]).wf(),
    decreases events.len(),
{
    if events.len() > 0 {
        lemma_build_files_wf(events.drop_last());
        lemma_build_files_counts(events.drop_last());
        lemma_step_preserves_wf(build_files_spec(events.drop_last()), events.last());
    }
}

/// Fold a whole comparison event stream into file diffs.
pub fn build_files(events: &Vec<DiffEvent>) -> (r: Vec<DiffFile>)
    requires
        events@.len() <= u32::MAX,
    ensures
        r@.map_values(|f: DiffFile| f@) == build_files_spec(events@.map_values(|e: DiffEvent| e@)),
        forall|k: int| 0 <= k < r@.len() ==> (#[trigger] r@[k]@).wf(),
{
    let ghost evs = events@.map_values(|e: DiffEvent| e@);
    let mut builder = DiffBuilder::new();
    let mut i: usize = 0;
    proof {
        assert(evs.take(0) =~= Seq::<DiffEventModel>::empty());
    }
    while i < events.len()
        invariant
            0 <= i <= events@.len(),
            events@.len() <= u32::MAX,
            evs == events@.map_values(|e: DiffEvent| e@),
            builder@ == build_files_spec(evs.take(i as int)),
            forall|k: int|
                0 <= k < builder@.len() ==> #[trigger] builder@[k].stats.additions
                    + builder@[k].stats.deletions <= i,
        decreases events@.len() - i,
    {
        let ghost prev = builder@;
        match &events[i] {
            DiffEvent::FileStart(e) => builder.start_file(e),
            DiffEvent::BinaryDetected => builder.mark_binary(),
            DiffEvent::HunkStart(e) => builder.start_hunk(e),
            DiffEvent::Line(e) => builder.push_line(e),
        }
        proof {
            assert(evs.take(i + 1).drop_last() =~= evs.take(i as int));
            assert(evs.take(i + 1).last() == evs[i as int]);
            assert(builder@ == builder_step(prev, evs[i as int]));
            assert(forall|k: int|
                0 <= k < builder@.len() ==> #[trigger] builder@[k].stats.additions
                    + builder@[k].stats.deletions <= i + 1) by {
                assert(forall|k: int|
                    0 <= k < prev.len() ==> #[trigger] prev[k].stats.additions
                        + prev[k].stats.deletions <= i);
            }
        }
        i = i + 1;
    }
    proof {
        assert(evs.take(evs.len() as int) =~= evs);
        lemma_build_files_wf(evs);
    }
    let out = builder.finish();
    proof {
        assert(forall|k: int|
            0 <= k < out@.len() ==> #[trigger] out@[k]@ == out@.map_values(|f: DiffFile| f@)[k]);
    }
    out
}

/// Entry point for diff generation.
#[derive(Debug)]
pub struct DiffEngine;

impl DiffEngine {
    /// Construct a new diff engine instance.
    pub fn new() -> (r: Self) {
        Self
    }

    /// Assemble the diff for a revision range from the backend's ordered
    /// comparison event stream.
    pub fn assemble(&self, range: RevisionRange, events: &Vec<DiffEvent>) -> (r: Diff)
        requires
            events@.len() <= u32::MAX,
        ensures
            r.range == range,
            r.files@.map_values(|f: DiffFile| f@) == build_files_spec(
                events@.map_values(|e: DiffEvent| e@),
            ),
            forall|k: int| 0 <= k < r.files@.len() ==> (#[trigger] r.files@[k]@).wf(),
    {
        let files = build_files(events);
        Diff { range, files }
    }
}

} // verus!
