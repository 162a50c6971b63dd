use vstd::prelude::*;

use crate::api::repository::RevisionRange;

verus! {

/// A full diff produced for a given revision range.
#[derive(Debug, Clone, PartialEq, Eq)]
pub struct Diff {
    /// The revisions that were compared to produce this diff.
    pub range: RevisionRange,
    /// File-level diffs contained in this diff.
    pub files: Vec<DiffFile>,
}

/// Representation of the diff for a single file.
#[derive(Debug, Clone, PartialEq, Eq)]
pub struct DiffFile {
    /// Path of the file relative to the repository root.
    pub path: String,
    /// Previous path when the file was renamed or copied.
    pub old_path: Option<String>,
    /// Status of the file change in the diff.
    pub status: FileStatus,
    /// High-level summary of insertions/deletions.
    pub stats: DiffStats,
    /// Indicates whether the diff content is binary.
    pub is_binary: bool,
    /// The hunks that make up this file diff.
    pub hunks: Vec<DiffHunk>,
}

/// Summary information about the changes within a file diff.
#[derive(Debug, Clone, Copy, PartialEq, Eq, Structural)]
pub struct DiffStats {
    /// Number of added lines.
    pub additions: u32,
    /// Number of removed lines.
    pub deletions: u32,
}

impl DiffStats {
    /// Convenience constructor for explicit values.
    pub fn new(additions: u32, deletions: u32) -> (r: Self)
        ensures
            r == (DiffStats { additions, deletions }),
    {
        Self { additions, deletions }
    }

    /// A stats instance with zero additions and deletions.
    pub fn zero() -> (r: Self)
        ensures
            r == (DiffStats { additions: 0, deletions: 0 }),
    {
        Self { additions: 0, deletions: 0 }
    }

    /// Combine two stats structs.
    pub fn add(self, other: Self) -> (r: Self)
        requires
            self.additions + other.additions <= u32::MAX,
            self.deletions + other.deletions <= u32::MAX,
        ensures
            r.additions == self.additions + other.additions,
            r.deletions == self.deletions + other.deletions,
    {
        Self {
            additions: self.additions + other.additions,
            deletions: self.deletions + other.deletions,
        }
    }
}

/// A diff hunk containing a contiguous set of changes.
#[derive(Debug, Clone, PartialEq, Eq)]
pub struct DiffHunk {
    /// The range header describing the hunk offsets.
    pub header: DiffRange,
    /// Optional section header (e.g., function signature) extracted from the diff.
    pub section: Option<String>,
    /// Line-level changes inside the hunk.
    pub lines: Vec<DiffLine>,
}

/// The line number ranges referenced by a hunk header.
#[derive(Debug, Clone, Copy, PartialEq, Eq, Structural)]
pub struct DiffRange {
    /// Starting line number for the base side.
    pub base_start: u32,
    /// Number of lines covered on the base side.
    pub base_lines: u32,
    /// Starting line number for the head side.
    pub head_start: u32,
    /// Number of lines covered on the head side.
    pub head_lines: u32,
}

/// A single line within a diff hunk.
#[derive(Debug, Clone, PartialEq, Eq)]
pub struct DiffLine {
    /// The role the line plays in the diff (context, addition, deletion).
    pub kind: DiffLineKind,
    /// Raw text of the line.
    pub text: String,
    /// 1-based line number on the base side if applicable.
    pub base_line: Option<u32>,
    /// 1-based line number on the head side if applicable.
    pub head_line: Option<u32>,
    /// Optional inline highlights (e.g., intraline differences).
    pub highlights: Vec<LineHighlight>,
}

/// Highlights to indicate intraline modifications.
#[derive(Debug, Clone, Copy, PartialEq, Eq, Structural)]
pub struct LineHighlight {
    /// Zero-based column where the highlight begins (inclusive).
    pub start_column: u32,
    /// Zero-based column where the highlight ends (exclusive).
    pub end_column: u32,
}

/// Type of a line contained in a diff.
#[derive(Debug, Clone, Copy, PartialEq, Eq, Structural)]
pub enum DiffLineKind {
    /// Unchanged context line.
    Context,
    /// A newly added line.
    Addition,
    /// A deleted line.
    Deletion,
}

/// File status from the diff's perspective.
#[derive(Debug, Clone, Copy, PartialEq, Eq, Structural)]
pub enum FileStatus {
    /// File only exists in the head side.
    Added,
    /// File only exists in the base side.
    Deleted,
    /// File exists on both sides with modifications.
    Modified,
    /// File path changed between base and head.
    Renamed,
    /// File content copied from another location.
    Copied,
    /// File type changed (e.g., text -> binary).
    TypeChange,
}

/// Mathematical model of a [`DiffLine`].
#[verifier::ext_equal]
pub ghost struct DiffLineModel {
    /// Role of the line.
    pub kind: DiffLineKind,
    /// Characters of the line's text.
    pub text: Seq<char>,
    /// 1-based base-side line number.
    pub base_line: Option<u32>,
    /// 1-based head-side line number.
    pub head_line: Option<u32>,
    /// Intraline highlights.
    pub highlights: Seq<LineHighlight>,
}

/// Mathematical model of a [`DiffHunk`].
#[verifier::ext_equal]
pub ghost struct DiffHunkModel {
    /// The hunk header ranges.
    pub header: DiffRange,
    /// Optional section label.
    pub section: Option<Seq<char>>,
    /// Lines of the hunk, in emission order.
    pub lines: Seq<DiffLineModel>,
}

/// Mathematical model of a [`DiffFile`].
#[verifier::ext_equal]
pub ghost struct DiffFileModel {
    /// Canonical path of the file.
    pub path: Seq<char>,
    /// Previous path for renames and copies.
    pub old_path: Option<Seq<char>>,
    /// Classified status.
    pub status: FileStatus,
    /// Addition/deletion counters.
    pub stats: DiffStats,
    /// Whether the change is binary.
    pub is_binary: bool,
    /// Hunks of the file, in emission order.
    pub hunks: Seq<DiffHunkModel>,
}

impl View for DiffLine {
    type V = DiffLineModel;

    open spec fn view(&self) -> DiffLineModel {
        DiffLineModel {
            kind: self.kind,
            text: self.text@,
            base_line: self.base_line,
            head_line: self.head_line,
            highlights: self.highlights@,
        }
    }
}

impl View for DiffHunk {
    type V = DiffHunkModel;

    open spec fn view(&self) -> DiffHunkModel {
        DiffHunkModel {
            header: self.header,
            section: match self.section {
                Some(s) => Some(s@),
                None => None,
            },
            lines: self.lines@.map_values(|l: DiffLine| l@),
        }
    }
}

impl View for DiffFile {
    type V = DiffFileModel;

    open spec fn view(&self) -> DiffFileModel {
        DiffFileModel {
            path: self.path@,
            old_path: match self.old_path {
                Some(s) => Some(s@),
                None => None,
            },
            status: self.status,
            stats: self.stats,
            is_binary: self.is_binary,
            hunks: self.hunks@.map_values(|h: DiffHunk| h@),
        }
    }
}

impl DiffLineModel {
    /// Count 1 when the line's kind is `kind`, else 0.
    pub open spec fn counts_as(self, kind: DiffLineKind) -> nat {
        if self.kind == kind {
            1
        } else {
            0
        }
    }
}

/// Number of lines of the given kind in one hunk.
pub open spec fn hunk_kind_count(hunk: DiffHunkModel, kind: DiffLineKind) -> nat
    decreases hunk.lines.len(),
{
    if hunk.lines.len() == 0 {
        0
    } else {
        hunk_kind_count(
            DiffHunkModel { lines: hunk.lines.drop_last(), ..hunk },
            kind,
        ) + hunk.lines.last().counts_as(kind)
    }
}

/// Number of lines of the given kind across all hunks of a file.
pub open spec fn file_kind_count(hunks: Seq<DiffHunkModel>, kind: DiffLineKind) -> nat
    decreases hunks.len(),
{
    if hunks.len() == 0 {
        0
    } else {
        file_kind_count(hunks.drop_last(), kind) + hunk_kind_count(hunks.last(), kind)
    }
}

impl DiffFileModel {
    /// The stats counters agree with the recorded lines, and binary files
    /// carry no hunks, and `old_path` is only set for renames and copies when
    /// it differs from `path`.
    pub open spec fn wf(self) -> bool {
        &&& self.stats.additions == file_kind_count(self.hunks, DiffLineKind::Addition)
        &&& self.stats.deletions == file_kind_count(self.hunks, DiffLineKind::Deletion)
        &&& (self.is_binary ==> self.hunks.len() == 0)
        &&& (self.old_path is Some ==> (self.status == FileStatus::Renamed || self.status
            == FileStatus::Copied) && self.old_path != Some(self.path))
    }
}

} // verus!
