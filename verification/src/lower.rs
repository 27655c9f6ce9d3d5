//! Lower-case text, as std's Unicode case mapping gives it.
use vstd::prelude::*;

verus! {

/// The lower-case form of a text (`str::to_lowercase`, Unicode rules).
pub uninterp spec fn lowercase(s: Seq<char>) -> Seq<char>;

/// `str::to_lowercase`: the lower-case form of a text under Unicode's case
/// mapping, where every character maps to one or more characters; like every
/// `String`, the result holds at most `isize::MAX` bytes. Its result
/// depends on the text alone; the mapping itself (pages of Unicode tables,
/// with a context-dependent final sigma) is not restated.
#[verifier::external_body]
pub(crate) fn to_lowercase(s: &str) -> (r: String)
    ensures
        r@ == lowercase(s@),
        r@.len() >= s@.len(),
        crate::text::fits(r@),
{
    s.to_lowercase()
}

} // verus!
