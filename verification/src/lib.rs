//! Core library for a diff review workflow.
//!
//! The crate is layered around three primary responsibilities:
//! - data models for repository snapshots, diffs and review suggestions
//! - diff assembly from a backend's tree-comparison event stream
//! - translation of positional suggestion edits into safe text mutations

use vstd::prelude::*;

/// Public data model surface.
pub mod api;

verus! {

/// Common result type for the crate.
pub type Result<T> = core::result::Result<T, Error>;

/// Errors surfaced by the core library.
#[derive(Debug)]
pub enum Error {
    /// Placeholder variant until detailed error handling is implemented.
    Unimplemented(&'static str),
    /// Underlying git operation failed.
    Git {
        /// Message of the backend error bubbled up by the core library.
        message: String,
    },
    /// Provided path does not correspond to a git repository.
    NotARepository {
        /// Path that failed to resolve to a repository.
        path: String,
    },
    /// Bare repositories are currently unsupported.
    BareRepository {
        /// Path of the repository lacking a working tree.
        path: String,
    },
    /// Repository has no head revision to diff.
    MissingHeadRevision,
    /// Filesystem interaction failed.
    Io {
        /// Filesystem path involved in the failed operation.
        path: String,
        /// Message of the I/O error returned by the standard library.
        message: String,
    },
    /// Translating or applying a suggestion failed.
    Suggestion {
        /// Underlying suggestion error.
        source: crate::suggestion::SuggestionError,
    },
    /// Plugin was not registered with the core.
    PluginNotRegistered {
        /// Identifier that failed to resolve.
        plugin: String,
    },
    /// Plugin failed to handle the request.
    Plugin {
        /// Identifier of the failing plugin.
        plugin: String,
        /// Error surfaced by the plugin.
        source: crate::plugins::PluginError,
    },
}

} // verus!

/// Text formats of the Amp agent integration.
pub mod amp;

/// Diff assembly from backend comparison events.
pub mod diff;
/// Host-facing error codes.
pub mod ffi;
/// Agent plugin registry and service facade.
pub mod plugins;
/// Line/column positions resolved to byte offsets.
pub mod offset;
/// Suggestion edits applied to file text.
pub mod suggestion;
/// Text utilities shared by the engines.
pub mod text;

pub use api::diff::{
    Diff, DiffFile, DiffHunk, DiffLine, DiffLineKind, DiffRange, DiffStats, FileStatus,
    LineHighlight,
};
pub use api::repository::{
    RepositoryInfo, RepositorySnapshot, Revision, RevisionRange, Signature, WorkspaceStatus,
};
pub use api::review::{
    CommentDraft, Diagnostic, DiffSide, FileRange, Position, Range, ReviewComment, ReviewThread,
    Severity, Suggestion, TextEdit,
};
pub use suggestion::{ApplyPreview, FileChange, SuggestionError};

