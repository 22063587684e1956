//! The decisions of the request handlers.

use vstd::prelude::*;

use crate::paths::{extension_of, extension_with, main_separator};
use crate::types::Error;
use crate::utils::{get_mime_type, mime_type_of};

pub mod files;
pub mod folders;

verus! {

/// Whether `r` is the `Content-Type` of the media response for the file at
/// `path` under the rules of `sep`: the MIME type of its extension, or the
/// error "missing extension" where it has none.
pub open spec fn media_type_result(r: Result<String, Error>, path: Seq<char>, sep: char) -> bool {
    match extension_of(path, sep) {
        Some(ext) => r matches Ok(t) && t@ == mime_type_of(ext),
        None => r matches Err(e) && e.0@ == "missing extension"@,
    }
}

/// The `Content-Type` of the media response for the file at `path` under
/// the rules of `sep`.
pub fn media_content_type_with(path: &str, sep: char) -> (r: Result<String, Error>)
    requires
        sep == '/' || sep == '\\',
    ensures
        media_type_result(r, path@, sep),
{
    match extension_with(path, sep) {
        Some(ext) => Ok(get_mime_type(ext.as_str())),
        None => Err(Error::msg("missing extension")),
    }
}

/// The `Content-Type` of the media response for the file at `path` on this
/// platform.
pub fn media_content_type(path: &str) -> (r: Result<String, Error>)
    ensures
        media_type_result(r, path@, '/') || media_type_result(r, path@, '\\'),
{
    media_content_type_with(path, main_separator())
}

} // verus!
