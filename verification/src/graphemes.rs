//! Splitting text into displayed units.
//!
//! A canvas cell holds one user-perceived character (grapheme cluster),
//! which may span several `char`s. The split itself is delegated to the
//! `unicode_segmentation` crate; its result is named by an uninterpreted
//! function, together with the facts callers rely on.

use unicode_segmentation::UnicodeSegmentation;
use vstd::prelude::*;

use crate::text_canvas::row_text;

verus! {

/// The grapheme clusters of a character sequence, in order, each cluster
/// the characters of one user-perceived character.
pub uninterp spec fn graphemes_of(s: Seq<char>) -> Seq<Seq<char>>;

/// Relies on `unicode_segmentation::UnicodeSegmentation::graphemes` with
/// extended grapheme clusters: the clusters are consecutive non-empty
/// substrings of the input, and together they cover it exactly.
#[verifier::external_body]
pub(crate) fn split_graphemes(s: &str) -> (r: Vec<String>)
    ensures
        r@.map_values(|t: String| t@) == graphemes_of(s@),
        row_text(r@.map_values(|t: String| t@)) == s@,
        forall|i: int| 0 <= i < r@.len() ==> 1 <= (#[trigger] r@[i])@.len(),
{
    s.graphemes(true).map(|g| g.to_string()).collect()
}

} // verus!
