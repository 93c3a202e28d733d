//! A thumbnail generation-and-caching engine for a file-tagging tool.
//!
//! The library keeps a persistent index that decides whether a previously
//! rendered preview image is still valid for a source file (`cache`, with its
//! on-disk format in `codec`), plans bounded reclamation of previews whose
//! source disappeared (`cleanup`), selects a rendering backend per file type
//! (`render`), and normalizes native pixel buffers into canonical top-down
//! RGBA (`pixels`). Around the engine sit the application's data model
//! (`models`) and the rules for admitting files into the store (`catalog`).
//! Everything that touches the platform — the filesystem probe and the MIME
//! guesser — goes through the trusted liaisons in `fsio`; all the rest is
//! verified down to the contracts it states.

use vstd::prelude::*;

pub mod cache;
pub mod catalog;
pub mod cleanup;
pub mod codec;
pub mod errors;
pub mod fsio;
pub mod models;
pub mod pixels;
pub mod render;
pub mod strutil;

verus! {

/// Current version of the persisted application data schema.
pub const CURRENT_VERSION: u32 = 2;

/// Version assumed for persisted application data that carries no version field.
pub fn default_version() -> (v: u32)
    ensures
        v == CURRENT_VERSION,
{
    CURRENT_VERSION
}

} // verus!
