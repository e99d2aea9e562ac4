//! Upload headers: the media type guessed from a file extension, and the
//! content-disposition line naming the file.

use vstd::prelude::*;
use vstd::string::StringExecFns;

verus! {

/// The first media type registered for a file extension, if any. A
/// function of the extension alone.
pub uninterp spec fn mime_for_ext(ext: Seq<char>) -> Option<Seq<char>>;

/// Relies on `mime_guess2::from_ext(..).first_raw()`: a pure table
/// lookup by extension.
#[verifier::external_body]
fn guess_mime(ext: &str) -> (r: Option<&'static str>)
    ensures
        match r {
            Option::Some(m) => mime_for_ext(ext@) == Option::Some(m@),
            Option::None => mime_for_ext(ext@) is None,
        },
{
    mime_guess2::from_ext(ext).first_raw()
}

/// The content type sent for a file extension: the guessed media type,
/// or the octet-stream fallback for an unknown extension.
pub fn content_type_for_extension(ext: &str) -> (r: String)
    ensures
        r@ == match mime_for_ext(ext@) {
            Option::Some(m) => m,
            Option::None => "application/octet-stream"@,
        },
{
    match guess_mime(ext) {
        Option::Some(m) => String::from_str(m),
        Option::None => String::from_str("application/octet-stream"),
    }
}

/// The content-disposition header line naming an uploaded file.
pub fn content_disposition(filename: &str) -> (r: String)
    ensures
        r@ == "attachment; filename=\""@ + filename@ + "\""@,
{
    String::from_str("attachment; filename=\"").concat(filename).concat("\"")
}

} // verus!
