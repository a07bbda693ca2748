//! Text operations that the standard library performs for the classifier.
use vstd::prelude::*;

verus! {

/// The lowercase form that `str::to_lowercase` gives to a text.
pub uninterp spec fn lowercase_of(s: Seq<char>) -> Seq<char>;

/// Whether `needle` occurs in `hay` as a contiguous run of characters.
pub open spec fn occurs_in(hay: Seq<char>, needle: Seq<char>) -> bool {
    exists|i: int, j: int|
        0 <= i && j == i + needle.len() && j <= hay.len() && #[trigger] hay.subrange(i, j) == needle
}

/// Calls `str::to_lowercase`. The result is a function of the text alone
/// (the Unicode lowercase mapping, which knows no locale); the contract
/// gives it the name [`lowercase_of`] and claims nothing else of it.
#[verifier::external_body]
pub(crate) fn to_lowercase(s: &str) -> (lowered: String)
    ensures
        lowered@ == lowercase_of(s@),
{
    s.to_lowercase()
}

/// Calls `str::contains` with a text pattern, which reports whether the
/// pattern matches a sub-slice of the text: the contract says the same over
/// the characters.
#[verifier::external_body]
pub(crate) fn contains_text(hay: &str, needle: &str) -> (found: bool)
    ensures
        found == occurs_in(hay@, needle@),
{
    hay.contains(needle)
}

} // verus!
