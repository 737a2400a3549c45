//! MIME types, guessed from names and sniffed from contents.
use crate::text::opt_view;
use crate::unix_path::{extension, strict_text, UnixPath};
use vstd::prelude::*;
use vstd::string::*;
use vstd::utf8::*;

verus! {

/// What `mime_guess::from_ext` guesses first for an extension, without
/// parameters.
pub uninterp spec fn guessed_mime(ext: Seq<char>) -> Option<Seq<char>>;

/// What `infer::get` recognises bytes as.
pub uninterp spec fn sniffed_mime(bytes: Seq<u8>) -> Option<Seq<char>>;

/// Calls `mime_guess::from_ext` and takes the essence of the first guess. It is
/// looked up in a fixed table by the extension alone; the table is not
/// restated.
#[verifier::external_body]
fn guess_from_ext(ext: &str) -> (r: Option<String>)
    ensures
        opt_view(r) == guessed_mime(ext@),
{
    mime_guess::from_ext(ext).first().map(|m| m.essence_str().to_owned())
}

/// Calls `infer::get` and takes the MIME type of the match. The built-in
/// matchers look at the bytes alone; they are not restated.
#[verifier::external_body]
fn infer_get(bytes: &[u8]) -> (r: Option<String>)
    ensures
        opt_view(r) == sniffed_mime(bytes@),
{
    infer::get(bytes).map(|t| t.mime_type().to_owned())
}

/// The type guessed for a path: by its extension, if that is UTF-8.
pub open spec fn path_mime(p: Seq<u8>) -> Option<Seq<char>> {
    match extension(p) {
        Some(e) => if valid_utf8(e) {
            guessed_mime(decode_utf8(e))
        } else {
            None
        },
        None => None,
    }
}

/// Guesses the type of a path by its extension.
pub fn mime_from_path(path: &UnixPath) -> (r: Option<String>)
    ensures
        opt_view(r) == path_mime(path@),
{
    match path.extension() {
        Some(e) => {
            match strict_text(&e) {
                Some(t) => guess_from_ext(t.as_str()),
                None => None,
            }
        },
        None => None,
    }
}

/// Recognises a type by the first bytes of a file.
pub fn mime_from_header(bytes: &[u8]) -> (r: Option<String>)
    ensures
        opt_view(r) == sniffed_mime(bytes@),
{
    infer_get(bytes)
}

} // verus!
