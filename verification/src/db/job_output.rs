//! The output files that jobs upload.

use vstd::prelude::*;

use crate::text;

verus! {

/// The files that a job may upload.
pub open spec fn is_valid_file_spec(name: Seq<char>) -> bool {
    ||| name == "result.json"@
    ||| name == "report.md"@
    ||| name == "test-results.xml"@
    ||| name == "archive.tar.gz"@
    ||| name == "test-snapshots.tar.gz"@
}

/// Whether a job may upload a file of that name.
pub fn is_valid_file(name: &str) -> (r: bool)
    ensures
        r == is_valid_file_spec(name@),
{
    text::eq(name, "result.json") || text::eq(name, "report.md") || text::eq(
        name,
        "test-results.xml",
    ) || text::eq(name, "archive.tar.gz") || text::eq(name, "test-snapshots.tar.gz")
}

/// The text that bytes encode in UTF-8, where they do.
pub open spec fn utf8_spec(bytes: Seq<u8>) -> Option<Seq<char>> {
    if vstd::utf8::valid_utf8(bytes) {
        Some(vstd::utf8::decode_utf8(bytes))
    } else {
        None
    }
}

/// `String::from_utf8` gives the text that the bytes encode in UTF-8, and fails
/// where they encode none.
#[verifier::external_body]
pub(crate) fn from_utf8(bytes: Vec<u8>) -> (r: Option<String>)
    ensures
        r.deep_view() == utf8_spec(bytes@),
{
    String::from_utf8(bytes).ok()
}

/// The text of an uploaded file: nothing where there is no file, or its bytes
/// are not UTF-8.
pub fn file_text(content: Option<Vec<u8>>) -> (r: Option<String>)
    ensures
        r.deep_view() == (match content {
            Some(bytes) => utf8_spec(bytes@),
            None => None,
        }),
{
    match content {
        Some(bytes) => from_utf8(bytes),
        None => None,
    }
}

} // verus!
