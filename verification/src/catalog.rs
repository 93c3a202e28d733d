//! The decision core behind adding files to the store.
//!
//! For each candidate path the application decides: skip it as a duplicate of
//! a tracked path, skip it because nothing exists there, skip it as an
//! unsupported type, or admit it. Directories are always admitted; a plain
//! file is admitted only when its lower-cased extension is on the fixed
//! whitelist. The caller probes the filesystem and supplies the identity and
//! timestamp; everything decided here is a pure function of those inputs.

use vstd::prelude::*;
use crate::fsio::{mime_for_ext, mime_of};
use crate::models::FileItem;
use crate::render::{extension_of, extension_of_path};
use crate::strutil::{contains_str, str_eq};

verus! {

/// The file types the application accepts: documents, images, videos, audio.
pub open spec fn is_allowed_extension(ext: Seq<char>) -> bool {
    ||| ext == "pdf"@
    ||| ext == "doc"@
    ||| ext == "docx"@
    ||| ext == "txt"@
    ||| ext == "md"@
    ||| ext == "markdown"@
    ||| ext == "xls"@
    ||| ext == "xlsx"@
    ||| ext == "ppt"@
    ||| ext == "pptx"@
    ||| ext == "rtf"@
    ||| ext == "csv"@
    ||| ext == "json"@
    ||| ext == "xml"@
    ||| ext == "epub"@
    ||| ext == "jpg"@
    ||| ext == "jpeg"@
    ||| ext == "png"@
    ||| ext == "gif"@
    ||| ext == "bmp"@
    ||| ext == "webp"@
    ||| ext == "svg"@
    ||| ext == "ico"@
    ||| ext == "tiff"@
    ||| ext == "mp4"@
    ||| ext == "mkv"@
    ||| ext == "avi"@
    ||| ext == "mov"@
    ||| ext == "webm"@
    ||| ext == "wmv"@
    ||| ext == "flv"@
    ||| ext == "mp3"@
    ||| ext == "wav"@
    ||| ext == "flac"@
    ||| ext == "aac"@
    ||| ext == "ogg"@
    ||| ext == "m4a"@
    ||| ext == "wma"@
}

/// Whether an extension is on the whitelist.
pub fn allowed_extension(ext: &str) -> (r: bool)
    ensures
        r == is_allowed_extension(ext@),
{
    str_eq(ext, "pdf") || str_eq(ext, "doc") || str_eq(ext, "docx") || str_eq(ext, "txt") || str_eq(
        ext,
        "md",
    ) || str_eq(ext, "markdown") || str_eq(ext, "xls") || str_eq(ext, "xlsx") || str_eq(ext, "ppt")
        || str_eq(ext, "pptx") || str_eq(ext, "rtf") || str_eq(ext, "csv") || str_eq(ext, "json")
        || str_eq(ext, "xml") || str_eq(ext, "epub") || str_eq(ext, "jpg") || str_eq(ext, "jpeg")
        || str_eq(ext, "png") || str_eq(ext, "gif") || str_eq(ext, "bmp") || str_eq(ext, "webp")
        || str_eq(ext, "svg") || str_eq(ext, "ico") || str_eq(ext, "tiff") || str_eq(ext, "mp4")
        || str_eq(ext, "mkv") || str_eq(ext, "avi") || str_eq(ext, "mov") || str_eq(ext, "webm")
        || str_eq(ext, "wmv") || str_eq(ext, "flv") || str_eq(ext, "mp3") || str_eq(ext, "wav")
        || str_eq(ext, "flac") || str_eq(ext, "aac") || str_eq(ext, "ogg") || str_eq(ext, "m4a")
        || str_eq(ext, "wma")
}

/// The answer for one candidate path.
#[derive(Clone, Copy, Debug, PartialEq, Eq, Structural)]
pub enum AddDecision {
    /// The path is already tracked.
    SkipDuplicate,
    /// Nothing exists at the path.
    SkipMissing,
    /// A plain file whose extension is not whitelisted.
    SkipUnsupported,
    /// The candidate is admitted.
    Add,
}

/// The decision for one candidate, given what the filesystem probe saw.
pub open spec fn spec_decide_add(
    existing: Seq<Seq<char>>,
    path: Seq<char>,
    exists: bool,
    is_dir: bool,
) -> AddDecision {
    if existing.contains(path) {
        AddDecision::SkipDuplicate
    } else if !exists {
        AddDecision::SkipMissing
    } else if !is_dir && !is_allowed_extension(extension_of(path)) {
        AddDecision::SkipUnsupported
    } else {
        AddDecision::Add
    }
}

/// Decides one candidate path against the paths already tracked; `exists`
/// and `is_dir` are what the caller's filesystem probe reported.
pub fn decide_add(existing_paths: &Vec<String>, path: &str, exists: bool, is_dir: bool) -> (d:
    AddDecision)
    ensures
        d == spec_decide_add(
            existing_paths@.map_values(|s: String| s@),
            path@,
            exists,
            is_dir,
        ),
{
    if contains_str(existing_paths, path) {
        AddDecision::SkipDuplicate
    } else if !exists {
        AddDecision::SkipMissing
    } else {
        let ext = extension_of_path(path);
        if !is_dir && !allowed_extension(ext.as_str()) {
            AddDecision::SkipUnsupported
        } else {
            AddDecision::Add
        }
    }
}

/// Builds the record for an admitted candidate. A directory is recorded with
/// size zero, the pseudo-extension `folder` and the directory MIME type; a
/// plain file carries its probed size, its lower-cased extension and the
/// MIME type guessed from its path.
pub fn build_file_item(
    id: String,
    name: String,
    path: &str,
    is_dir: bool,
    size: u64,
    added_at: i64,
) -> (f: FileItem)
    ensures
        f.id == id,
        f.name == name,
        f.path@ == path@,
        f.added_at == added_at,
        f.tag_ids@.len() == 0,
        f.size == if is_dir {
            0u64
        } else {
            size
        },
        f.extension@ == if is_dir {
            "folder"@
        } else {
            extension_of(path@)
        },
        f.mime_type@ == if is_dir {
            "inode/directory"@
        } else {
            mime_of(extension_of(path@))
        },
{
    let extension = if is_dir {
        "folder".to_owned()
    } else {
        extension_of_path(path)
    };
    let mime_type = if is_dir {
        "inode/directory".to_owned()
    } else {
        mime_for_ext(extension.as_str())
    };
    FileItem {
        id,
        name,
        path: path.to_owned(),
        extension,
        size: if is_dir {
            0
        } else {
            size
        },
        mime_type,
        added_at,
        tag_ids: Vec::new(),
    }
}

} // verus!
