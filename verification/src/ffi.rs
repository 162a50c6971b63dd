//! Flattened error codes for a host-facing boundary.
//!
//! A host application cannot carry the library's structured errors across a
//! language boundary, so each collapses to one coarse code.

use vstd::prelude::*;

use crate::Error;

verus! {

/// Errors surfaced through host bindings.
#[derive(Debug, Clone, Copy, PartialEq, Eq, Structural)]
pub enum CoreError {
    /// Path does not correspond to a git repository.
    NotARepository,
    /// Repository is bare and unsupported.
    BareRepository,
    /// Repository has no head revision to diff.
    MissingHeadRevision,
    /// Underlying git operation failed.
    Git,
    /// Filesystem interaction failed.
    Io,
    /// Feature has not yet been implemented.
    Unimplemented,
    /// Internal invariant failed.
    Internal,
    /// Plugin was not registered with the core.
    PluginNotRegistered,
    /// Plugin failed to handle the request.
    Plugin,
    /// A suggestion could not be translated or applied.
    Suggestion,
}

/// The code each library error collapses to.
pub open spec fn code_of(error: Error) -> CoreError {
    match error {
        Error::Unimplemented(_) => CoreError::Unimplemented,
        Error::Git { .. } => CoreError::Git,
        Error::NotARepository { .. } => CoreError::NotARepository,
        Error::BareRepository { .. } => CoreError::BareRepository,
        Error::MissingHeadRevision => CoreError::MissingHeadRevision,
        Error::Io { .. } => CoreError::Io,
        Error::Suggestion { .. } => CoreError::Suggestion,
        Error::PluginNotRegistered { .. } => CoreError::PluginNotRegistered,
        Error::Plugin { .. } => CoreError::Plugin,
    }
}

impl CoreError {
    /// Collapse a library error to its host-facing code.
    pub fn of_error(error: &Error) -> (r: Self)
        ensures
            r == code_of(*error),
    {
        match error {
            Error::Unimplemented(_) => Self::Unimplemented,
            Error::Git { .. } => Self::Git,
            Error::NotARepository { .. } => Self::NotARepository,
            Error::BareRepository { .. } => Self::BareRepository,
            Error::MissingHeadRevision => Self::MissingHeadRevision,
            Error::Io { .. } => Self::Io,
            Error::Suggestion { .. } => Self::Suggestion,
            Error::PluginNotRegistered { .. } => Self::PluginNotRegistered,
            Error::Plugin { .. } => Self::Plugin,
        }
    }
}

} // verus!
