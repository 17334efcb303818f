//! Filesystem-state reconciliation for a project's asset inventory.
//!
//! Given the recorded inventory of known assets (identifier, path, content
//! hash) and a fresh scan of the files on disk (path, content hash), the
//! library computes the ordered list of change events — create, delete,
//! modify, rename — that brings the inventory back in line with disk.
//! It also classifies file paths into asset categories by extension and
//! normalizes scanned paths to a single separator convention.

pub mod text;
pub mod classify;
pub mod events;
pub mod scan;
pub mod reconcile;
pub mod laws;
