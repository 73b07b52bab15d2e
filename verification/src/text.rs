//! Text helpers that the rest of the crate shares.

use vstd::prelude::*;

verus! {

/// Whether two string slices hold the same text.
///
/// Calls `str`'s `==`, which std documents as comparing the two slices'
/// contents, so the result is that of comparing them character by character.
#[verifier::external_body]
pub(crate) fn same_text(a: &str, b: &str) -> (same: bool)
    ensures
        same == (a@ == b@),
{
    a == b
}

} // verus!
