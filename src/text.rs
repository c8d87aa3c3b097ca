//! Substring search in document text.
use vstd::prelude::*;

verus! {

/// Whether `needle` occurs in `hay` as a contiguous run of characters.
pub open spec fn is_substring(needle: Seq<char>, hay: Seq<char>) -> bool {
    exists|i: int|
        0 <= i && i + needle.len() <= hay.len() && #[trigger] hay.subrange(i, i + needle.len())
            == needle
}

/// Relies on `str::contains` with a `&str` pattern: true exactly when the
/// pattern occurs in the text.
#[verifier::external_body]
pub(crate) fn text_contains(hay: &str, needle: &str) -> (r: bool)
    ensures
        r == is_substring(needle@, hay@),
{
    hay.contains(needle)
}

} // verus!
