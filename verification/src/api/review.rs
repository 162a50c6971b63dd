use vstd::prelude::*;

use crate::api::diff::DiffLineKind;

verus! {

/// Side of the diff a location refers to.
#[derive(Debug, Clone, Copy, PartialEq, Eq, Structural)]
pub enum DiffSide {
    /// Base (often "left") side of the diff.
    Base,
    /// Head (often "right") side of the diff.
    Head,
}

impl DiffSide {
    /// Map a `DiffLineKind` to the side it primarily touches.
    pub fn from_line_kind(kind: DiffLineKind) -> (r: Self)
        ensures
            r == (match kind {
                DiffLineKind::Context | DiffLineKind::Deletion => DiffSide::Base,
                DiffLineKind::Addition => DiffSide::Head,
            }),
    {
        match kind {
            DiffLineKind::Context | DiffLineKind::Deletion => DiffSide::Base,
            DiffLineKind::Addition => DiffSide::Head,
        }
    }
}

/// A 1-based line/column pair.
#[derive(Debug, Clone, Copy, PartialEq, Eq, Structural)]
pub struct Position {
    /// 1-based line number.
    pub line: u32,
    /// Optional 1-based column.
    pub column: Option<u32>,
}

impl Position {
    /// Convenience constructor.
    pub fn new(line: u32, column: Option<u32>) -> (r: Self)
        ensures
            r == (Position { line, column }),
    {
        Self { line, column }
    }

    /// The column the position addresses, defaulting to the first.
    pub open spec fn spec_column(self) -> u32 {
        match self.column {
            Some(c) => c,
            None => 1,
        }
    }
}

/// A range bounded by two positions (inclusive start, exclusive end).
#[derive(Debug, Clone, Copy, PartialEq, Eq, Structural)]
pub struct Range {
    /// Inclusive start position.
    pub start: Position,
    /// Exclusive end position.
    pub end: Position,
}

impl Range {
    /// Construct a range with explicit start and end.
    pub fn new(start: Position, end: Position) -> (r: Self)
        ensures
            r == (Range { start, end }),
    {
        Self { start, end }
    }
}

/// A range within a single file on a specific diff side.
#[derive(Debug, Clone, PartialEq, Eq)]
pub struct FileRange {
    /// Path relative to the repository root.
    pub path: String,
    /// Which side of the diff the range targets.
    pub side: DiffSide,
    /// Line/column span.
    pub range: Range,
}

impl FileRange {
    /// Create a new file range.
    pub fn new(path: &str, side: DiffSide, range: Range) -> (r: Self)
        ensures
            r.path@ == path@,
            r.side == side,
            r.range == range,
    {
        Self { path: path.to_owned(), side, range }
    }
}

/// A text edit used for suggestions or quick fixes.
#[derive(Debug, Clone, PartialEq, Eq)]
pub struct TextEdit {
    /// File location affected by the edit.
    pub location: FileRange,
    /// Replacement text to apply.
    pub replacement: String,
}

impl TextEdit {
    /// Create a new text edit.
    pub fn new(location: FileRange, replacement: &str) -> (r: Self)
        ensures
            r.location == location,
            r.replacement@ == replacement@,
    {
        Self { location, replacement: replacement.to_owned() }
    }
}

/// Suggested change associated with a diagnostic.
#[derive(Debug, Clone, PartialEq, Eq)]
pub struct Suggestion {
    /// Human-friendly title presented to the user.
    pub title: Option<String>,
    /// Individual text edits contained in the suggestion.
    pub edits: Vec<TextEdit>,
}

impl Suggestion {
    /// Create an empty suggestion.
    pub fn new(title: Option<&str>) -> (r: Self)
        ensures
            r.edits@.len() == 0,
            r.title is Some <==> title is Some,
            title is Some ==> r.title->0@ == title->0@,
    {
        Self {
            title: match title {
                Some(t) => Some(t.to_owned()),
                None => None,
            },
            edits: Vec::new(),
        }
    }
}

/// Severity levels for plugin diagnostics.
#[derive(Debug, Clone, Copy, PartialEq, Eq, Structural)]
pub enum Severity {
    /// Informational context without required action.
    Info,
    /// Potential issue that may require attention.
    Warning,
    /// Definite issue that must be addressed before submission.
    Error,
}

/// Diagnostic emitted by an agent plugin.
#[derive(Debug, Clone, PartialEq, Eq)]
pub struct Diagnostic {
    /// Short title summarizing the issue.
    pub title: String,
    /// Detailed explanation, if provided.
    pub detail: Option<String>,
    /// Severity level of the diagnostic.
    pub severity: Severity,
    /// Where the diagnostic applies.
    pub location: FileRange,
    /// Additional tags or categories attached by the plugin.
    pub tags: Vec<String>,
    /// Suggested remediations.
    pub suggestions: Vec<Suggestion>,
}

impl Diagnostic {
    /// Convenience constructor for diagnostics without suggestions.
    pub fn new(title: &str, severity: Severity, location: FileRange) -> (r: Self)
        ensures
            r.title@ == title@,
            r.detail is None,
            r.severity == severity,
            r.location == location,
            r.tags@.len() == 0,
            r.suggestions@.len() == 0,
    {
        Self {
            title: title.to_owned(),
            detail: None,
            severity,
            location,
            tags: Vec::new(),
            suggestions: Vec::new(),
        }
    }
}

/// Draft comment prepared for submission by the UI or plugin.
#[derive(Debug, Clone, PartialEq, Eq)]
pub struct CommentDraft {
    /// Markdown-formatted body of the comment.
    pub body: String,
    /// Location the comment is anchored to.
    pub location: FileRange,
}

impl CommentDraft {
    /// Create a new comment draft.
    pub fn new(body: &str, location: FileRange) -> (r: Self)
        ensures
            r.body@ == body@,
            r.location == location,
    {
        Self { body: body.to_owned(), location }
    }
}

/// A comment already published in a review thread.
#[derive(Debug, Clone, PartialEq, Eq)]
pub struct ReviewComment {
    /// Optional author display name.
    pub author: Option<String>,
    /// Markdown body of the comment.
    pub body: String,
    /// Unix timestamp (seconds) when the comment was created.
    pub created_at: Option<i64>,
}

/// An entire comment thread tied to a diff location.
#[derive(Debug, Clone, PartialEq, Eq)]
pub struct ReviewThread {
    /// Optional unique identifier for the thread.
    pub id: Option<String>,
    /// Shared location for all comments in the thread.
    pub location: FileRange,
    /// Ordered comments contained in the thread.
    pub comments: Vec<ReviewComment>,
    /// Whether the thread has been marked as resolved.
    pub resolved: bool,
}

} // verus!
