//! Media types of files, guessed from their extensions.

use vstd::prelude::*;
use vstd::string::*;

verus! {

/// The media type under which the document provider lists a directory.
pub const DIR_MIME_TYPE: &'static str = "vnd.android.document/directory";

/// The media type that `mime_guess` gives for a file extension: the first
/// type in its table for the extension, or `application/octet-stream` where
/// the table has none.
pub uninterp spec fn guessed_mime(ext: Seq<char>) -> Seq<char>;

/// Calls `mime_guess::from_ext(ext).first_or_octet_stream()` and returns the
/// text of the media type. The contract claims only that the text is a
/// function of the extension, which the crate computes from a fixed table.
#[verifier::external_body]
pub(crate) fn guess_mime(ext: &str) -> (mime: String)
    ensures
        mime@ == guessed_mime(ext@),
{
    mime_guess::from_ext(ext).first_or_octet_stream().as_ref().to_string()
}

} // verus!
