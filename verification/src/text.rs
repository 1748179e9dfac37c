use vstd::prelude::*;

verus! {

/// Whether `needle` occurs in `text` as a run of consecutive characters.
pub open spec fn is_substring(needle: Seq<char>, text: Seq<char>) -> bool {
    exists|at: int|
        0 <= at <= text.len() - needle.len() && #[trigger] text.subrange(
            at,
            at + needle.len(),
        ) == needle
}

/// Calls `str::contains` with a string pattern, which is true exactly when
/// the pattern matches a sub-slice of the text.
#[verifier::external_body]
pub(crate) fn str_contains(text: &str, needle: &str) -> (found: bool)
    ensures
        found == is_substring(needle@, text@),
{
    text.contains(needle)
}

} // verus!
