//! Specification vocabulary for byte and byte-sequence occurrences, and the
//! lemmas that relate occurrences before and after a store grows.

use vstd::prelude::*;

verus! {

/// `pat` occurs in `s` starting exactly at index `i`.
pub open spec fn matches_at(s: Seq<u8>, i: int, pat: Seq<u8>) -> bool {
    &&& 0 <= i
    &&& i + pat.len() <= s.len()
    &&& s.subrange(i, i + pat.len() as int) == pat
}

/// `pat` occurs somewhere in `s` at or after index `from`.
pub open spec fn occurs_from(s: Seq<u8>, from: int, pat: Seq<u8>) -> bool {
    exists|i: int| from <= i && #[trigger] matches_at(s, i, pat)
}

/// `i` is the leftmost start of an occurrence of `pat` in `s` at or after `from`.
pub open spec fn first_match_from(s: Seq<u8>, from: int, pat: Seq<u8>, i: int) -> bool {
    &&& from <= i
    &&& matches_at(s, i, pat)
    &&& forall|j: int| from <= j < i ==> !matches_at(s, j, pat)
}

/// The byte `b` stands at index `i` of `s`.
pub open spec fn byte_matches_at(s: Seq<u8>, i: int, b: u8) -> bool {
    &&& 0 <= i < s.len()
    &&& s[i] == b
}

/// The byte `b` occurs in `s` at or after index `from`.
pub open spec fn byte_occurs_from(s: Seq<u8>, from: int, b: u8) -> bool {
    exists|i: int| from <= i && #[trigger] byte_matches_at(s, i, b)
}

/// `i` is the leftmost index at or after `from` where `s` holds the byte `b`.
pub open spec fn first_byte_from(s: Seq<u8>, from: int, b: u8, i: int) -> bool {
    &&& from <= i
    &&& byte_matches_at(s, i, b)
    &&& forall|j: int| from <= j < i ==> !byte_matches_at(s, j, b)
}

/// None of the candidate bytes occurs in `s` at or after `from`.
pub open spec fn no_byte_occurs(s: Seq<u8>, from: int, cands: Seq<u8>) -> bool {
    forall|k: int| 0 <= k < cands.len() ==> !byte_occurs_from(s, from, #[trigger] cands[k])
}

/// Candidate `k` wins the leftmost-match contest over single-byte candidates:
/// it occurs at `i`, and every occurrence of any candidate is either further
/// right, or at the same index with a later list position.
pub open spec fn multi_byte_winner(s: Seq<u8>, from: int, cands: Seq<u8>, k: int, i: int) -> bool {
    &&& 0 <= k < cands.len()
    &&& from <= i
    &&& byte_matches_at(s, i, cands[k])
    &&& forall|k2: int, j: int|
        0 <= k2 < cands.len() && from <= j && #[trigger] byte_matches_at(s, j, cands[k2]) ==> i < j
            || (i == j && k <= k2)
}

/// Candidate `k` wins the first-listed contest over single-byte candidates:
/// no earlier-listed candidate occurs at all, and `i` is the leftmost
/// occurrence of candidate `k` itself.
pub open spec fn multi_byte_cut_winner(
    s: Seq<u8>,
    from: int,
    cands: Seq<u8>,
    k: int,
    i: int,
) -> bool {
    &&& 0 <= k < cands.len()
    &&& first_byte_from(s, from, cands[k], i)
    &&& forall|k2: int| 0 <= k2 < k ==> !byte_occurs_from(s, from, #[trigger] cands[k2])
}

/// The views of a list of byte-slice patterns.
pub open spec fn pattern_views(pats: Seq<&[u8]>) -> Seq<Seq<u8>> {
    Seq::new(pats.len(), |i: int| pats[i]@)
}

/// None of the candidate patterns occurs in `s` at or after `from`.
pub open spec fn no_occurs(s: Seq<u8>, from: int, pats: Seq<Seq<u8>>) -> bool {
    forall|k: int| 0 <= k < pats.len() ==> !occurs_from(s, from, #[trigger] pats[k])
}

/// Pattern `k` wins the leftmost-match contest: it occurs at `i`, and every
/// occurrence of any pattern is either further right, or at the same index
/// with a later list position.
pub open spec fn multi_winner(s: Seq<u8>, from: int, pats: Seq<Seq<u8>>, k: int, i: int) -> bool {
    &&& 0 <= k < pats.len()
    &&& from <= i
    &&& matches_at(s, i, pats[k])
    &&& forall|k2: int, j: int|
        0 <= k2 < pats.len() && from <= j && #[trigger] matches_at(s, j, pats[k2]) ==> i < j || (i
            == j && k <= k2)
}

/// Pattern `k` wins the first-listed contest: no earlier-listed pattern occurs
/// at all, and `i` is the leftmost occurrence of pattern `k` itself.
pub open spec fn multi_cut_winner(
    s: Seq<u8>,
    from: int,
    pats: Seq<Seq<u8>>,
    k: int,
    i: int,
) -> bool {
    &&& 0 <= k < pats.len()
    &&& first_match_from(s, from, pats[k], i)
    &&& forall|k2: int| 0 <= k2 < k ==> !occurs_from(s, from, #[trigger] pats[k2])
}

/// An occurrence that lies entirely inside the prefix already stood there.
pub proof fn lemma_matches_at_shrink(s: Seq<u8>, t: Seq<u8>, i: int, pat: Seq<u8>)
    requires
        s.is_prefix_of(t),
        matches_at(t, i, pat),
        i + pat.len() <= s.len(),
    ensures
        matches_at(s, i, pat),
{
    assert(s.subrange(i, i + pat.len() as int) =~= t.subrange(i, i + pat.len() as int));
}

/// Occurrences in the tail `s.skip(p)` are exactly occurrences in `s` shifted by `p`.
pub proof fn lemma_matches_at_skip(s: Seq<u8>, p: int, pat: Seq<u8>, i: int)
    requires
        0 <= p <= s.len(),
        0 <= i,
    ensures
        matches_at(s.skip(p), i, pat) <==> matches_at(s, p + i, pat),
{
    if i + pat.len() <= s.len() - p {
        assert(s.skip(p).subrange(i, i + pat.len() as int) =~= s.subrange(
            p + i,
            p + i + pat.len() as int,
        ));
    }
}

/// The empty pattern occurs at every index of `s` up to its length.
pub proof fn lemma_empty_matches(s: Seq<u8>, i: int)
    requires
        0 <= i <= s.len(),
    ensures
        matches_at(s, i, Seq::<u8>::empty()),
{
    assert(s.subrange(i, i) =~= Seq::<u8>::empty());
}

/// A leftmost match in the tail `s.skip(p)` is a leftmost match in `s` from `p`.
pub proof fn lemma_first_match_skip(s: Seq<u8>, p: int, pat: Seq<u8>, i: int)
    requires
        0 <= p <= s.len(),
        0 <= i,
        first_match_from(s.skip(p), 0, pat, i),
    ensures
        first_match_from(s, p, pat, p + i),
{
    lemma_matches_at_skip(s, p, pat, i);
    assert forall|j: int| p <= j < p + i implies !matches_at(s, j, pat) by {
        lemma_matches_at_skip(s, p, pat, j - p);
    }
}

/// No occurrence in the tail `s.skip(p)` means no occurrence in `s` from `p`.
pub proof fn lemma_no_occurs_skip(s: Seq<u8>, p: int, pat: Seq<u8>)
    requires
        0 <= p <= s.len(),
        !occurs_from(s.skip(p), 0, pat),
    ensures
        !occurs_from(s, p, pat),
{
    assert forall|j: int| p <= j implies !matches_at(s, j, pat) by {
        lemma_matches_at_skip(s, p, pat, j - p);
        assert(!matches_at(s.skip(p), j - p, pat));
    }
}

/// A region known to hold no occurrence keeps holding none after the store
/// grows, provided the region ends at least a pattern length before the old
/// end of the store (the overlap rule), or is empty.
pub proof fn lemma_clean_region_grows(s: Seq<u8>, t: Seq<u8>, from: int, upto: int, pat: Seq<u8>)
    requires
        s.is_prefix_of(t),
        0 <= from <= upto,
        upto == from || upto + pat.len() - 1 <= s.len(),
        forall|j: int| from <= j < upto ==> !matches_at(s, j, pat),
    ensures
        forall|j: int| from <= j < upto ==> !matches_at(t, j, pat),
{
    assert forall|j: int| from <= j < upto implies !matches_at(t, j, pat) by {
        if matches_at(t, j, pat) {
            if pat.len() == 0 {
                assert(pat =~= Seq::<u8>::empty());
                lemma_empty_matches(s, j);
            } else {
                lemma_matches_at_shrink(s, t, j, pat);
            }
            assert(matches_at(s, j, pat));
            assert(false);
        }
    }
}

} // verus!
