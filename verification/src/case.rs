//! Lower case, as the standard library computes it.

use vstd::prelude::*;

verus! {

/// The lower-case form of a text: what `str::to_lowercase` returns for it.
/// It follows the Unicode property `Lowercase`, which maps a character to
/// one or more characters and lets the result depend on the characters
/// around it, so nothing is stated of it here but that it is a function of
/// the text.
pub uninterp spec fn lowercase(text: Seq<char>) -> Seq<char>;

/// Calls `str::to_lowercase` of the standard library. Trusted: the result
/// is the lower-case form of `s`, which depends on the characters of `s`
/// and on nothing else.
#[verifier::external_body]
pub(crate) fn to_lowercase(s: &str) -> (lower: String)
    ensures
        lower@ == lowercase(s@),
{
    s.to_lowercase()
}

} // verus!
