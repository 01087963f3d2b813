//! Case folding, as the standard library does it.

use vstd::prelude::*;

verus! {

/// The lowercase form of a text: what `str::to_lowercase` returns for it.
/// It goes by Unicode's lowercase mapping, character by character but for
/// the context rule of the Greek final sigma, and is the same in every
/// locale. It is no full case folding: two texts that differ in case only
/// may have different lowercase forms.
pub uninterp spec fn lowercase_of(text: Seq<char>) -> Seq<char>;

/// `str::to_lowercase` returns the lowercase form of its text, as a new
/// `String`. What that form is, character by character, is not stated here.
pub assume_specification[ str::to_lowercase ](text: &str) -> (folded: String)
    ensures
        folded@ == lowercase_of(text@),
;

} // verus!
