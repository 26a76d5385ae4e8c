//! Lowercasing of text, as the standard library defines it.

use vstd::prelude::*;

verus! {

/// The lowercase form of `text`: what `str::to_lowercase` returns for it.
/// The mapping follows the Unicode case tables and may change the number of
/// characters; nothing about it is assumed beyond its being a function of the
/// text.
pub uninterp spec fn lowercase_of(text: Seq<char>) -> Seq<char>;

/// Calls `str::to_lowercase`. Trusted: the returned string is the lowercase
/// form of `text`, which depends on nothing but the characters of `text`.
#[verifier::external_body]
pub(crate) fn to_lowercase(text: &str) -> (lowered: String)
    ensures
        lowered@ == lowercase_of(text@),
{
    text.to_lowercase()
}

} // verus!
