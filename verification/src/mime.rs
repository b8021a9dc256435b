//! File-extension → MIME mapping for the static file server. Unknown
//! extensions get a binary stream type, so nothing is mislabelled.

use vstd::prelude::*;
use crate::text::{chars_eq_str, chars_of, last_index, last_index_chars, lower_chars, lower_seq, slice_chars};

verus! {

/// The text after the last `.` of a path, or the whole path without one.
pub open spec fn extension(path: Seq<char>) -> Seq<char> {
    match last_index(path, '.') {
        Some(k) => path.subrange(k + 1, path.len() as int),
        None => path,
    }
}

/// The Content-Type for a lowercased extension.
pub open spec fn mime_of(ext: Seq<char>) -> Seq<char> {
    if ext == "html"@ || ext == "htm"@ {
        "text/html; charset=utf-8"@
    } else if ext == "js"@ || ext == "mjs"@ {
        "text/javascript; charset=utf-8"@
    } else if ext == "css"@ {
        "text/css; charset=utf-8"@
    } else if ext == "json"@ {
        "application/json; charset=utf-8"@
    } else if ext == "svg"@ {
        "image/svg+xml"@
    } else if ext == "png"@ {
        "image/png"@
    } else if ext == "jpg"@ || ext == "jpeg"@ {
        "image/jpeg"@
    } else if ext == "gif"@ {
        "image/gif"@
    } else if ext == "webp"@ {
        "image/webp"@
    } else if ext == "ico"@ {
        "image/x-icon"@
    } else if ext == "woff2"@ {
        "font/woff2"@
    } else if ext == "woff"@ {
        "font/woff"@
    } else if ext == "txt"@ {
        "text/plain; charset=utf-8"@
    } else if ext == "xml"@ {
        "application/xml; charset=utf-8"@
    } else {
        "application/octet-stream"@
    }
}

/// Content-Type for a path, by its extension (ASCII case ignored). Defaults
/// to a binary stream for anything unrecognized.
pub fn for_path(path: &str) -> (r: &'static str)
    ensures
        r@ == mime_of(lower_seq(extension(path@))),
{
    let v = chars_of(path);
    let ext = match last_index_chars(&v, '.') {
        Some(k) => slice_chars(&v, k + 1, v.len()),
        None => slice_chars(&v, 0, v.len()),
    };
    assert(v@.subrange(0, v@.len() as int) =~= v@);
    let e = lower_chars(&ext);
    if chars_eq_str(&e, "html") || chars_eq_str(&e, "htm") {
        "text/html; charset=utf-8"
    } else if chars_eq_str(&e, "js") || chars_eq_str(&e, "mjs") {
        "text/javascript; charset=utf-8"
    } else if chars_eq_str(&e, "css") {
        "text/css; charset=utf-8"
    } else if chars_eq_str(&e, "json") {
        "application/json; charset=utf-8"
    } else if chars_eq_str(&e, "svg") {
        "image/svg+xml"
    } else if chars_eq_str(&e, "png") {
        "image/png"
    } else if chars_eq_str(&e, "jpg") || chars_eq_str(&e, "jpeg") {
        "image/jpeg"
    } else if chars_eq_str(&e, "gif") {
        "image/gif"
    } else if chars_eq_str(&e, "webp") {
        "image/webp"
    } else if chars_eq_str(&e, "ico") {
        "image/x-icon"
    } else if chars_eq_str(&e, "woff2") {
        "font/woff2"
    } else if chars_eq_str(&e, "woff") {
        "font/woff"
    } else if chars_eq_str(&e, "txt") {
        "text/plain; charset=utf-8"
    } else if chars_eq_str(&e, "xml") {
        "application/xml; charset=utf-8"
    } else {
        "application/octet-stream"
    }
}

} // verus!
