//! The result types of the scanner and the detail resolver, and their
//! spec-level views.

use vstd::prelude::*;

verus! {

/// A discovered project: a directory that directly holds at least one media
/// file, shown with a preview image path (or the placeholder).
#[derive(Debug)]
pub struct Project {
    pub name: String,
    pub preview_image: String,
}

/// One media file of a project listing: its path relative to the base
/// directory, and whether it is a video.
#[derive(Debug)]
pub struct MediaFile {
    pub path: String,
    pub is_video: bool,
}

/// A project's ordered media listing.
#[derive(Debug)]
pub struct ProjectImages {
    pub name: String,
    pub media_files: Vec<MediaFile>,
}

/// The mathematical content of a `Project`.
pub open spec fn proj_view(p: Project) -> (Seq<char>, Seq<char>) {
    (p.name@, p.preview_image@)
}

/// The mathematical content of a sequence of `Project`s.
pub open spec fn proj_views(s: Seq<Project>) -> Seq<(Seq<char>, Seq<char>)> {
    s.map_values(|p: Project| proj_view(p))
}

/// The mathematical content of a `MediaFile`.
pub open spec fn media_view(m: MediaFile) -> (Seq<char>, bool) {
    (m.path@, m.is_video)
}

/// The mathematical content of a sequence of `MediaFile`s.
pub open spec fn media_views(s: Seq<MediaFile>) -> Seq<(Seq<char>, bool)> {
    s.map_values(|m: MediaFile| media_view(m))
}

/// Projects sorted (weakly) ascending by name, in ordinal order.
pub open spec fn sorted_by_name(s: Seq<Project>) -> bool {
    forall|i: int, j: int| 0 <= i < j < s.len() ==> crate::order::seq_le(s[i].name@, s[j].name@)
}

/// Media files sorted (weakly) ascending by path, in ordinal order.
pub open spec fn sorted_by_path(s: Seq<MediaFile>) -> bool {
    forall|i: int, j: int| 0 <= i < j < s.len() ==> crate::order::seq_le(s[i].path@, s[j].path@)
}

} // verus!
