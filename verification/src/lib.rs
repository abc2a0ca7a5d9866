//! A verified core for a media-gallery scanner.
//!
//! The library discovers "projects" (directories that directly contain at
//! least one recognized media file) inside a snapshot of a directory tree,
//! chooses a deterministic preview image for each, and produces sorted
//! per-project media listings. All logic is pure: the snapshot is handed in
//! as plain path components, so every function here is verified.

pub mod classify;
pub mod detail;
pub mod laws;
pub mod order;
pub mod paths;
pub mod scan;
pub mod sorting;
pub mod types;
