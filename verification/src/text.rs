//! The operations on text that the index of an archive rests on.

use vstd::prelude::*;

verus! {

/// The lower-case form that `str::to_lowercase` gives a text.
pub uninterp spec fn lowercase(text: Seq<char>) -> Seq<char>;

/// `str::to_lowercase` returns the lower-case form of the text as a new
/// `String`; which form that is depends on the text alone.
pub assume_specification[ str::to_lowercase ](text: &str) -> (lowered: String)
    ensures
        lowered@ == lowercase(text@),
;

/// `str::ends_with`, given a string as its pattern, tells whether the text
/// ends with the characters of that string.
#[verifier::external_body]
pub(crate) fn ends_with(text: &str, suffix: &str) -> (result: bool)
    ensures
        result == suffix@.is_suffix_of(text@),
{
    text.ends_with(suffix)
}

} // verus!
