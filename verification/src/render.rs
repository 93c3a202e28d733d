//! Renderer dispatch: which backend produces a thumbnail for a source file.
//!
//! Routing looks at the lower-cased extension of the input path and nothing
//! else — there is no content sniffing, so a mismatched extension yields
//! whatever the downstream renderer makes of the wrong content. A fixed set
//! of document extensions goes to the document renderer; every other type is
//! handed to the platform's preview subsystem, and where that subsystem is
//! unavailable the request fails with `UnsupportedFormat` rather than
//! attempting anything.

use vstd::prelude::*;
use vstd::string::StrSliceExecFns;
use crate::cleanup::{find_last_dot, last_dot};
use crate::errors::EngineError;
use crate::strutil::{ascii_lower, str_eq, to_ascii_lower};

verus! {

/// Position of the last path separator in a path, or -1 when it has none.
pub open spec fn last_sep(s: Seq<char>) -> int
    decreases s.len(),
{
    if s.len() == 0 {
        -1
    } else if s.last() == '/' || s.last() == '\\' {
        s.len() - 1
    } else {
        last_sep(s.drop_last())
    }
}

/// The final component of a path: everything after its last separator.
pub open spec fn file_name_of(path: Seq<char>) -> Seq<char> {
    path.skip(last_sep(path) + 1)
}

/// The extension of a path as dispatch sees it: what follows the last `.` of
/// the file name (empty when there is no extension), ASCII letters
/// lower-cased.
pub open spec fn extension_of(path: Seq<char>) -> Seq<char> {
    let name = file_name_of(path);
    let p = last_dot(name);
    if p > 0 {
        ascii_lower(name.skip(p + 1))
    } else {
        Seq::empty()
    }
}

/// The extensions routed to the document renderer.
pub open spec fn is_document_extension(ext: Seq<char>) -> bool {
    ext == "pdf"@
}

/// The two rendering backends.
#[derive(Clone, Copy, Debug, PartialEq, Eq, Structural)]
pub enum RendererKind {
    /// Load the source as a paginated document and rasterize its first page.
    Document,
    /// Ask the host operating system to synthesize a preview bitmap.
    PlatformPreview,
}

/// Which backend an extension routes to.
pub open spec fn renderer_for(ext: Seq<char>) -> RendererKind {
    if is_document_extension(ext) {
        RendererKind::Document
    } else {
        RendererKind::PlatformPreview
    }
}

/// What one generation request must do, with every bound fixed.
#[derive(Clone, Copy, Debug, PartialEq, Eq, Structural)]
pub enum RenderPlan {
    /// Open the document, take page index 0 only, rasterize it directly at
    /// the bounded size (rotating landscape pages to stay within the bound
    /// without distortion), and save the encoded result as the artifact.
    Document { target_width: u32, target_height: u32, rotate_if_landscape: bool },
    /// Ask the platform preview subsystem for a bitmap fitted within the box,
    /// aspect-preserving, then normalize its pixels before encoding.
    PlatformPreview { box_width: u32, box_height: u32 },
}

/// The plan dispatch settles on, or the error when no backend applies.
pub open spec fn spec_plan_thumbnail(
    path: Seq<char>,
    max_dimension: u32,
    platform_preview_available: bool,
) -> Result<RenderPlan, EngineError> {
    if is_document_extension(extension_of(path)) {
        Ok(
            RenderPlan::Document {
                target_width: max_dimension,
                target_height: max_dimension,
                rotate_if_landscape: true,
            },
        )
    } else if platform_preview_available {
        Ok(RenderPlan::PlatformPreview { box_width: max_dimension, box_height: max_dimension })
    } else {
        Err(EngineError::UnsupportedFormat)
    }
}

/// Law: a file type no document renderer claims, on a platform without a
/// preview subsystem, is refused outright — dispatch hands out no plan, so
/// nothing is ever rendered or written for it.
pub proof fn lemma_unsupported_format_is_refused(path: Seq<char>, max_dimension: u32)
    requires
        !is_document_extension(extension_of(path)),
    ensures
        spec_plan_thumbnail(path, max_dimension, false) == Err::<RenderPlan, EngineError>(
            EngineError::UnsupportedFormat,
        ),
{
}

fn find_last_sep(path: &str) -> (r: Option<usize>)
    ensures
        match r {
            Some(p) => p < path@.len() && last_sep(path@) == p,
            None => last_sep(path@) == -1,
        },
{
    let n = path.unicode_len();
    let mut k = n;
    while k > 0
        invariant
            k <= n,
            n == path@.len(),
            forall|j: int| k <= j < n ==> path@[j] != '/' && path@[j] != '\\',
        decreases k,
    {
        let c = path.get_char(k - 1);
        if c == '/' || c == '\\' {
            proof {
                lemma_last_sep_at(path@, k - 1);
            }
            return Some(k - 1);
        }
        k = k - 1;
    }
    proof {
        lemma_no_sep(path@);
    }
    None
}

proof fn lemma_last_sep_at(s: Seq<char>, p: int)
    requires
        0 <= p < s.len(),
        s[p] == '/' || s[p] == '\\',
        forall|k: int| p < k < s.len() ==> s[k] != '/' && s[k] != '\\',
    ensures
        last_sep(s) == p,
    decreases s.len(),
{
    if p < s.len() - 1 {
        lemma_last_sep_at(s.drop_last(), p);
    }
}

proof fn lemma_no_sep(s: Seq<char>)
    requires
        forall|k: int| 0 <= k < s.len() ==> s[k] != '/' && s[k] != '\\',
    ensures
        last_sep(s) == -1,
    decreases s.len(),
{
    if s.len() > 0 {
        lemma_no_sep(s.drop_last());
    }
}

/// The lower-cased extension of a path; empty when the path has none.
pub fn extension_of_path(path: &str) -> (r: String)
    ensures
        r@ == extension_of(path@),
{
    let n = path.unicode_len();
    let start = match find_last_sep(path) {
        Some(p) => p + 1,
        None => 0,
    };
    let name = path.substring_char(start, n);
    proof {
        assert(name@ =~= file_name_of(path@));
    }
    let m = name.unicode_len();
    match find_last_dot(name) {
        Some(p) => {
            if p > 0 {
                let raw = name.substring_char(p + 1, m);
                proof {
                    assert(raw@ =~= file_name_of(path@).skip(p + 1));
                }
                to_ascii_lower(raw)
            } else {
                String::new()
            }
        },
        None => String::new(),
    }
}

/// Which backend the dispatch selects for an extension.
pub fn choose_renderer(extension: &str) -> (k: RendererKind)
    ensures
        k == renderer_for(extension@),
{
    if str_eq(extension, "pdf") {
        RendererKind::Document
    } else {
        RendererKind::PlatformPreview
    }
}

/// Renderer dispatch for one generation request: inspects the lower-cased
/// extension of `input_path` and fixes the plan the caller must execute, or
/// refuses with `UnsupportedFormat` when no backend applies on this platform.
pub fn plan_thumbnail(input_path: &str, max_dimension: u32, platform_preview_available: bool) -> (r:
    Result<RenderPlan, EngineError>)
    ensures
        r == spec_plan_thumbnail(input_path@, max_dimension, platform_preview_available),
{
    let ext = extension_of_path(input_path);
    if str_eq(ext.as_str(), "pdf") {
        Ok(
            RenderPlan::Document {
                target_width: max_dimension,
                target_height: max_dimension,
                rotate_if_landscape: true,
            },
        )
    } else if platform_preview_available {
        Ok(RenderPlan::PlatformPreview { box_width: max_dimension, box_height: max_dimension })
    } else {
        Err(EngineError::UnsupportedFormat)
    }
}

} // verus!
