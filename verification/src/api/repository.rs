use vstd::prelude::*;

verus! {

/// Basic information about the repository the library is operating on.
#[derive(Debug, Clone, PartialEq, Eq)]
pub struct RepositoryInfo {
    /// Absolute path to the repository working tree.
    pub root: String,
    /// Default branch name when available (e.g., "main").
    pub default_branch: Option<String>,
}

/// Identity of a revision the library can reference.
#[derive(Debug, Clone, PartialEq, Eq)]
pub struct Revision {
    /// Full object identifier (e.g., git SHA).
    pub oid: String,
    /// Optional human-friendly reference such as a branch name.
    pub reference: Option<String>,
    /// Optional summary line describing the revision.
    pub summary: Option<String>,
    /// Author information when available.
    pub author: Option<Signature>,
    /// Committer information when available.
    pub committer: Option<Signature>,
    /// Unix timestamp (seconds) associated with the revision.
    pub timestamp: Option<i64>,
}

/// Structured author/committer identity.
#[derive(Debug, Clone, PartialEq, Eq)]
pub struct Signature {
    /// Display name for the individual.
    pub name: String,
    /// Optional email address.
    pub email: Option<String>,
}

/// The pair of revisions used for diff operations.
#[derive(Debug, Clone, PartialEq, Eq)]
pub struct RevisionRange {
    /// Base revision (often the "previous" commit). May be omitted for new files.
    pub base: Option<Revision>,
    /// Head revision (the state being reviewed).
    pub head: Revision,
}

/// Lightweight summary of the workspace status.
#[derive(Debug, Clone, PartialEq, Eq)]
pub struct WorkspaceStatus {
    /// Name of the currently checked-out branch, if any.
    pub current_branch: Option<String>,
    /// Indicates if there are uncommitted modifications.
    pub dirty: bool,
}

/// Immutable snapshot of the repository state used as a review baseline.
#[derive(Debug, Clone, PartialEq, Eq)]
pub struct RepositorySnapshot {
    /// Static metadata about the repository.
    pub info: RepositoryInfo,
    /// Current workspace status (branch/dirty).
    pub workspace: WorkspaceStatus,
    /// Revision range representing the pending review, if available.
    pub revisions: Option<RevisionRange>,
}

} // verus!
