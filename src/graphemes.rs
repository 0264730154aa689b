//! Counting user-perceived characters.

use vstd::prelude::*;
use unicode_segmentation::UnicodeSegmentation;

verus! {

/// The number of extended grapheme clusters in `s`.
pub uninterp spec fn extended_grapheme_count(s: Seq<char>) -> nat;

/// Relies on `UnicodeSegmentation::graphemes(s, true).count()` of
/// unicode-segmentation: the number of extended grapheme clusters of `s`. Each
/// cluster the iterator yields is a non-empty slice between two boundaries, so
/// there are at most as many clusters as characters.
#[verifier::external_body]
pub(crate) fn grapheme_count(s: &str) -> (r: usize)
    ensures
        r == extended_grapheme_count(s@),
        r <= s@.len(),
{
    s.graphemes(true).count()
}

} // verus!
