//! The media type of a template.
use vstd::prelude::*;

use crate::path::{extension, Parts, TemplatePath};

verus! {

/// `s` with the letters from `A` to `Z` in lower case.
pub open spec fn lower(s: Seq<char>) -> Seq<char> {
    Seq::new(
        s.len(),
        |i: int|
            if 'A' <= s[i] && s[i] <= 'Z' {
                (s[i] as int + 32) as char
            } else {
                s[i]
            },
    )
}

/// The media type of the files with the extension `ext`.
pub uninterp spec fn mime_type(ext: Seq<char>) -> Option<Seq<char>>;

/// Looks up the media type of an extension with `mime_guess::get_mime_type_str`. The contract
/// says that the answer depends on the extension alone, that it is the answer for the extension
/// in lower case, and that there is none for the empty extension; which media type an extension
/// has is left unsaid.
#[verifier::external_body]
pub(crate) fn mime_type_str(ext: &str) -> (r: Option<&'static str>)
    ensures
        mime_type(ext@) == match r {
            Some(m) => Some(m@),
            None => None,
        },
        mime_type(lower(ext@)) == match r {
            Some(m) => Some(m@),
            None => None,
        },
        ext@.len() == 0 ==> r is None,
{
    mime_guess::get_mime_type_str(ext)
}

/// The extension that decides on the media type of the template at `path`.
pub open spec fn mime_extension(path: Parts) -> Seq<char> {
    match extension(path) {
        Some(e) => e,
        None => "txt"@,
    }
}

/// The extension that decides on the media type of the template at `path`.
pub fn extension_or_txt(path: &TemplatePath) -> (r: &str)
    ensures
        r@ == mime_extension(path@),
{
    match path.extension() {
        Some(e) => e,
        None => "txt",
    }
}

} // verus!
