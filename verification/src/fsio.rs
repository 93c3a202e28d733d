//! Trusted liaisons to the platform and to outside crates.
//!
//! Each function here wraps exactly one outside call; everything the rest of
//! the library concludes about these calls rests on the contracts below.

use vstd::prelude::*;

verus! {

/// Whether a filesystem path currently refers to an existing entity.
///
/// Relies on std::path::Path::exists. The answer depends on the state of the
/// disk at the moment of the call, so nothing is promised about it.
#[verifier::external_body]
pub fn path_exists(path: &str) -> bool {
    std::path::Path::new(path).exists()
}

/// Appends one character to a string.
///
/// Relies on String::push: the given char is appended to the end of the string.
#[verifier::external_body]
pub fn push_char(s: &mut String, c: char)
    ensures
        final(s)@ == old(s)@.push(c),
{
    s.push(c);
}

/// The MIME type guessed for a file-name extension.
pub uninterp spec fn mime_of(extension: Seq<char>) -> Seq<char>;

/// Relies on mime_guess::MimeGuess::from_ext and
/// MimeGuess::first_or_octet_stream: the guess is a case-insensitive lookup
/// of the extension in a fixed table, and the fallback
/// `application/octet-stream` guarantees a non-empty answer.
#[verifier::external_body]
pub fn mime_for_ext(extension: &str) -> (r: String)
    ensures
        r@ == mime_of(extension@),
        r@.len() > 0,
{
    mime_guess::MimeGuess::from_ext(extension).first_or_octet_stream().to_string()
}

} // verus!
