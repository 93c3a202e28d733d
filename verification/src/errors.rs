//! Error kinds surfaced by the thumbnail engine.

use vstd::prelude::*;

verus! {

/// One kind per failure the engine can report.
///
/// Generation failures (`BindingFailure` through `EncodeFailure`) are returned
/// to the immediate caller; the engine never retries internally. Index load
/// and save failures are reported but must never crash the host: a lost index
/// only costs future cache misses. A failed best-effort deletion
/// (`DeletionFailure`) is only ever logged, never surfaced from the engine.
#[derive(Clone, Copy, Debug, PartialEq, Eq, Structural)]
pub enum EngineError {
    /// The native rendering library could not be loaded or initialized.
    BindingFailure,
    /// No renderer applies to the file, or the platform preview subsystem is
    /// unavailable on this operating system.
    UnsupportedFormat,
    /// The source document or file could not be opened or parsed.
    SourceReadFailure,
    /// The first page of a paginated document is missing.
    PageUnavailable,
    /// Rasterization or the native preview call failed.
    RenderFailure,
    /// Raw pixel data length is inconsistent with the declared dimensions.
    BufferShapeMismatch,
    /// Writing the final encoded image failed.
    EncodeFailure,
    /// Loading or saving the metadata index failed.
    IndexIOFailure,
    /// A best-effort deletion of an orphaned artifact failed.
    DeletionFailure,
}

/// The diagnostic label for each error kind.
pub open spec fn spec_describe(e: EngineError) -> Seq<char> {
    match e {
        EngineError::BindingFailure => "failed to bind the rendering library"@,
        EngineError::UnsupportedFormat => "no renderer supports this file type on this platform"@,
        EngineError::SourceReadFailure => "failed to open or parse the source file"@,
        EngineError::PageUnavailable => "the first page of the document is unavailable"@,
        EngineError::RenderFailure => "rendering failed"@,
        EngineError::BufferShapeMismatch => "pixel buffer does not match its declared dimensions"@,
        EngineError::EncodeFailure => "failed to encode or write the thumbnail"@,
        EngineError::IndexIOFailure => "failed to load or save the cache index"@,
        EngineError::DeletionFailure => "failed to delete an orphaned thumbnail"@,
    }
}

impl EngineError {
    /// A short diagnostic label for logs and user-facing reports.
    pub fn describe(&self) -> (r: &'static str)
        ensures
            r@ == spec_describe(*self),
            r@.len() > 0,
    {
        proof {
            reveal_strlit("failed to bind the rendering library");
            reveal_strlit("no renderer supports this file type on this platform");
            reveal_strlit("failed to open or parse the source file");
            reveal_strlit("the first page of the document is unavailable");
            reveal_strlit("rendering failed");
            reveal_strlit("pixel buffer does not match its declared dimensions");
            reveal_strlit("failed to encode or write the thumbnail");
            reveal_strlit("failed to load or save the cache index");
            reveal_strlit("failed to delete an orphaned thumbnail");
        }
        match self {
            EngineError::BindingFailure => "failed to bind the rendering library",
            EngineError::UnsupportedFormat => "no renderer supports this file type on this platform",
            EngineError::SourceReadFailure => "failed to open or parse the source file",
            EngineError::PageUnavailable => "the first page of the document is unavailable",
            EngineError::RenderFailure => "rendering failed",
            EngineError::BufferShapeMismatch => "pixel buffer does not match its declared dimensions",
            EngineError::EncodeFailure => "failed to encode or write the thumbnail",
            EngineError::IndexIOFailure => "failed to load or save the cache index",
            EngineError::DeletionFailure => "failed to delete an orphaned thumbnail",
        }
    }
}

} // verus!
