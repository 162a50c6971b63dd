//! Public data models shared across the library's surface.
//!
//! The structures in this module are restricted to plain values so that
//! contracts can speak about them directly.

/// Diff-related data types surfaced to the UI and plugins.
pub mod diff;
/// Repository metadata and revision representations.
pub mod repository;
/// Review comments, diagnostics, and suggestion models.
pub mod review;
