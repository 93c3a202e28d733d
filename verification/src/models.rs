//! The application's data model: files, tags and tag groups, in the current
//! schema and in the older one that a migration starts from.

use vstd::prelude::*;
use crate::CURRENT_VERSION;

verus! {

/// A group that tags may belong to.
#[derive(Debug, Clone)]
pub struct TagGroup {
    pub id: String,
    pub name: String,
    pub color: Option<String>,
}

/// One tag; it may sit under a parent tag and inside a group.
#[derive(Debug, Clone)]
pub struct Tag {
    pub id: String,
    pub name: String,
    pub parent_id: Option<String>,
    pub group_id: Option<String>,
}

/// One file the application tracks, with the tags attached to it.
#[derive(Debug, Clone)]
pub struct FileItem {
    pub id: String,
    pub name: String,
    pub path: String,
    pub extension: String,
    pub size: u64,
    pub mime_type: String,
    pub added_at: i64,
    pub tag_ids: Vec<String>,
}

/// The whole persisted application state in the current schema.
#[derive(Debug, Clone)]
pub struct AppData {
    pub version: u32,
    pub files: Vec<FileItem>,
    pub tags: Vec<Tag>,
    pub groups: Vec<TagGroup>,
}

impl Default for AppData {
    /// An empty store in the current schema version.
    fn default() -> (d: Self)
        ensures
            d.version == CURRENT_VERSION,
            d.files@.len() == 0,
            d.tags@.len() == 0,
            d.groups@.len() == 0,
    {
        AppData { version: CURRENT_VERSION, files: Vec::new(), tags: Vec::new(), groups: Vec::new() }
    }
}

/// A file as the previous schema stored it: tags were plain names.
#[derive(Debug, Clone)]
pub struct FileItemV1 {
    pub id: String,
    pub name: String,
    pub path: String,
    pub extension: String,
    pub size: u64,
    pub mime_type: String,
    pub added_at: i64,
    pub tags: Vec<String>,
}

/// The whole store in the previous schema.
#[derive(Debug, Clone)]
pub struct AppDataV1 {
    pub version: u32,
    pub files: Vec<FileItemV1>,
}

impl Default for AppDataV1 {
    /// An empty store in the previous schema version.
    fn default() -> (d: Self)
        ensures
            d.version == 1,
            d.files@.len() == 0,
    {
        AppDataV1 { version: 1, files: Vec::new() }
    }
}

/// What one batch of added paths came to: the records created, and the paths
/// skipped as duplicates or as unsupported types.
#[derive(Debug)]
pub struct AddFilesResponse {
    pub added_files: Vec<FileItem>,
    pub skipped_duplicates: Vec<String>,
    pub skipped_unsupported: Vec<String>,
}

} // verus!
