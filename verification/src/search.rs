//! Byte comparison and the substring-search primitive.
//!
//! Substring search for multi-byte patterns is delegated to the `memmem`
//! crate; everything the rest of the library needs from it is captured in the
//! contract of `search_slice`.

use crate::pattern::{first_match_from, occurs_from};
use vstd::prelude::*;

verus! {

/// Relies on memmem's `TwoWaySearcher::search_in`: it returns the starting
/// index of the first occurrence of the needle in the haystack, `None` when
/// the needle does not occur, and `Some(0)` for an empty needle.
#[verifier::external_body]
pub(crate) fn search_slice(haystack: &[u8], needle: &[u8]) -> (r: Option<usize>)
    ensures
        match r {
            Some(i) => first_match_from(haystack@, 0, needle@, i as int),
            None => !occurs_from(haystack@, 0, needle@),
        },
{
    let searcher = memmem::TwoWaySearcher::new(needle);
    memmem::Searcher::search_in(&searcher, haystack)
}

/// Byte-for-byte equality of two slices.
pub(crate) fn slice_eq(a: &[u8], b: &[u8]) -> (r: bool)
    ensures
        r <==> a@ == b@,
{
    if a.len() != b.len() {
        return false;
    }
    let mut i: usize = 0;
    while i < a.len()
        invariant
            i <= a.len(),
            a@.len() == b@.len(),
            forall|j: int| 0 <= j < i ==> a@[j] == b@[j],
        decreases a.len() - i,
    {
        if a[i] != b[i] {
            return false;
        }
        i += 1;
    }
    proof {
        assert(a@ =~= b@);
    }
    true
}

} // verus!
