//! File paths, held as strings and taken apart by `async_std::path`.
//!
//! What the path functions return is not spelled out here: each result has
//! a name, and the layout rules of the library are stated over those names.
//! The names stand for the path conventions of the platform that the
//! library is built for.

use vstd::prelude::*;

verus! {

/// The path that `Path::join` gives for `name` adjoined to `base`.
pub uninterp spec fn joined(base: Seq<char>, name: Seq<char>) -> Seq<char>;

/// The extension that `Path::extension` finds in `path`.
pub uninterp spec fn extension_of(path: Seq<char>) -> Option<Seq<char>>;

/// The final component that `Path::file_name` finds in `path`.
pub uninterp spec fn file_name_of(path: Seq<char>) -> Option<Seq<char>>;

/// The path that `PathBuf::set_extension` leaves when `path` is given
/// `extension`.
pub uninterp spec fn re_extended(path: Seq<char>, extension: Seq<char>) -> Seq<char>;

/// Whether a string holds no path separator of any platform.
pub open spec fn separator_free(text: Seq<char>) -> bool {
    !text.contains('/') && !text.contains('\\')
}

/// Calls `async_std::path::Path::join`, which forwards to the standard
/// library. Trusted: the result is the joined path, as a string.
#[verifier::external_body]
pub(crate) fn join(base: &str, name: &str) -> (path: String)
    ensures
        path@ == joined(base@, name@),
{
    async_std::path::Path::new(base).join(name).to_string_lossy().into_owned()
}

/// Calls `async_std::path::Path::extension`, which forwards to the standard
/// library. Trusted: the result is the extension found, as a string.
#[verifier::external_body]
pub(crate) fn extension(path: &str) -> (found: Option<String>)
    ensures
        crate::model::text_of(found) == extension_of(path@),
{
    async_std::path::Path::new(path).extension().map(|e| e.to_string_lossy().into_owned())
}

/// Calls `async_std::path::Path::file_name`, which forwards to the standard
/// library. Trusted: the result is the final component found, as a string.
#[verifier::external_body]
pub(crate) fn file_name(path: &str) -> (found: Option<String>)
    ensures
        crate::model::text_of(found) == file_name_of(path@),
{
    async_std::path::Path::new(path).file_name().map(|n| n.to_string_lossy().into_owned())
}

/// Calls `async_std::path::PathBuf::set_extension`, which forwards to the
/// standard library and panics on an extension that holds a separator.
/// Trusted: the result is the path it leaves, as a string.
#[verifier::external_body]
pub(crate) fn set_extension(path: &str, extension: &str) -> (changed: String)
    requires
        separator_free(extension@),
    ensures
        changed@ == re_extended(path@, extension@),
{
    let mut buffer = async_std::path::PathBuf::from(path);
    buffer.set_extension(extension);
    buffer.to_string_lossy().into_owned()
}

} // verus!
