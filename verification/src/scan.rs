//! Match-and-consume and multi-pattern operations: slurp a window, scan it,
//! and reposition the cursor on success.

use crate::pattern::{
    byte_matches_at, byte_occurs_from, first_byte_from, first_match_from, matches_at,
    multi_byte_cut_winner, multi_byte_winner, multi_cut_winner, multi_winner, no_byte_occurs,
    no_occurs, occurs_from, pattern_views,
};
use crate::reader::{BlockWiseReader, BufferIdx, Finding, FindPos, PatternIdx};
use crate::search::slice_eq;
use crate::source::ByteSource;
use vstd::prelude::*;
use vstd::slice::slice_subrange;

verus! {

impl<S: ByteSource> BlockWiseReader<S> {
    /// The cursor offset a successful find of a single byte applies.
    pub open spec fn byte_offset_of(fp: FindPos) -> int {
        match fp {
            FindPos::Begin => 0,
            FindPos::End => 1,
        }
    }

    /// Slurps as many bytes as `marker_str` is long and compares them with it.
    /// On an exact match the cursor advances past the marker and `true` comes
    /// back. On any mismatch, a short supply too, the cursor is unchanged —
    /// though the store keeps whatever the slurp read.
    pub fn slurp_match_repos(&mut self, marker_str: &[u8]) -> (r: Result<bool, std::io::Error>)
        requires
            old(self).wf(),
            old(self).cursor() + marker_str@.len() <= usize::MAX,
        ensures
            final(self).wf(),
            match r {
                Ok(b) => {
                    &&& Self::slurped(*old(self), *final(self), marker_str@.len() as int)
                    &&& (b <==> final(self).store().len() >= old(self).cursor()
                        + marker_str@.len() && final(self).store().subrange(
                        old(self).cursor(),
                        old(self).cursor() + marker_str@.len() as int,
                    ) == marker_str@)
                    &&& final(self).cursor() == if b {
                        old(self).cursor() + marker_str@.len() as int
                    } else {
                        old(self).cursor()
                    }
                },
                Err(_) => Self::slurp_errored(*old(self), *final(self), marker_str@.len() as int),
            },
    {
        let rod = match self.slurp(marker_str.len()) {
            Ok(n) => n,
            Err(e) => return Err(e),
        };
        if rod < marker_str.len() {
            return Ok(false);
        }
        let window = slice_subrange(self.v_slice(), self.pos_get(), self.pos_get()
            + marker_str.len());
        if !slice_eq(window, marker_str) {
            return Ok(false);
        }
        self.pos_add(marker_str.len());
        Ok(true)
    }

    /// True when the bytes immediately before the cursor equal `marker_str`;
    /// false, not an error, when fewer than that many bytes precede it.
    pub fn match_back(&self, marker_str: &[u8]) -> (r: bool)
        requires
            self.wf(),
        ensures
            r <==> (marker_str@.len() <= self.cursor() && self.store().subrange(
                self.cursor() - marker_str@.len(),
                self.cursor(),
            ) == marker_str@),
    {
        let len = marker_str.len();
        if len > self.pos_get() {
            return false;
        }
        let window = slice_subrange(self.v_slice(), self.pos_get() - len, self.pos_get());
        slice_eq(window, marker_str)
    }

    /// Slurps `bytecount` bytes, then scans the pending bytes for `e`. When
    /// found, the cursor lands on the byte (`Begin`) or one past it (`End`);
    /// when not found, the cursor is unchanged.
    pub fn slurp_find_repos(&mut self, bytecount: usize, e: u8, fp: FindPos) -> (r: Result<
        bool,
        std::io::Error,
    >)
        requires
            old(self).wf(),
            old(self).cursor() + bytecount <= usize::MAX,
        ensures
            final(self).wf(),
            match r {
                Ok(b) => {
                    &&& Self::slurped(*old(self), *final(self), bytecount as int)
                    &&& (b <==> byte_occurs_from(final(self).store(), old(self).cursor(), e))
                    &&& (b ==> first_byte_from(
                        final(self).store(),
                        old(self).cursor(),
                        e,
                        final(self).cursor() - Self::byte_offset_of(fp),
                    ))
                    &&& (!b ==> final(self).cursor() == old(self).cursor())
                },
                Err(_) => Self::slurp_errored(*old(self), *final(self), bytecount as int),
            },
    {
        match self.slurp(bytecount) {
            Ok(_) => (),
            Err(e2) => return Err(e2),
        }
        match self.find(e) {
            None => Ok(false),
            Some(found) => {
                self.pos_add(found);
                match fp {
                    FindPos::Begin => (),
                    FindPos::End => self.pos_add(1),
                }
                Ok(true)
            },
        }
    }

    /// `slurp_find_repos` with the `End` policy: the cursor lands one past a
    /// found byte; it is unchanged when the byte is absent.
    pub fn slurp_find_repos1(&mut self, bytecount: usize, e: u8) -> (r: Result<
        bool,
        std::io::Error,
    >)
        requires
            old(self).wf(),
            old(self).cursor() + bytecount <= usize::MAX,
        ensures
            final(self).wf(),
            match r {
                Ok(b) => {
                    &&& Self::slurped(*old(self), *final(self), bytecount as int)
                    &&& (b <==> byte_occurs_from(final(self).store(), old(self).cursor(), e))
                    &&& (b ==> first_byte_from(
                        final(self).store(),
                        old(self).cursor(),
                        e,
                        final(self).cursor() - 1,
                    ))
                    &&& (!b ==> final(self).cursor() == old(self).cursor())
                },
                Err(_) => Self::slurp_errored(*old(self), *final(self), bytecount as int),
            },
    {
        self.slurp_find_repos(bytecount, e, FindPos::End)
    }

    /// `slurp_find_repos` with the `Begin` policy: the cursor lands exactly on
    /// a found byte; it is unchanged when the byte is absent.
    pub fn slurp_find_repos0(&mut self, bytecount: usize, e: u8) -> (r: Result<
        bool,
        std::io::Error,
    >)
        requires
            old(self).wf(),
            old(self).cursor() + bytecount <= usize::MAX,
        ensures
            final(self).wf(),
            match r {
                Ok(b) => {
                    &&& Self::slurped(*old(self), *final(self), bytecount as int)
                    &&& (b <==> byte_occurs_from(final(self).store(), old(self).cursor(), e))
                    &&& (b ==> first_byte_from(
                        final(self).store(),
                        old(self).cursor(),
                        e,
                        final(self).cursor(),
                    ))
                    &&& (!b ==> final(self).cursor() == old(self).cursor())
                },
                Err(_) => Self::slurp_errored(*old(self), *final(self), bytecount as int),
            },
    {
        self.slurp_find_repos(bytecount, e, FindPos::Begin)
    }

    /// Slurps `bytecount` bytes, then scans the pending bytes for each of the
    /// candidate bytes of `se`, and reports which candidate won. With `cut`
    /// false every candidate is tried and the leftmost match wins, ties going
    /// to the earliest-listed candidate; with `cut` true the first listed
    /// candidate that matches at all wins, even when a later candidate matches
    /// further left. The cursor lands on the winning byte (`Begin`) or one
    /// past it (`End`); when no candidate matches, it is unchanged.
    pub fn slurp_find_multiple_repos_idx(
        &mut self,
        bytecount: usize,
        se: &[u8],
        cut: bool,
        fp: FindPos,
    ) -> (r: Result<Option<PatternIdx>, std::io::Error>)
        requires
            old(self).wf(),
            old(self).cursor() + bytecount <= usize::MAX,
        ensures
            final(self).wf(),
            match r {
                Ok(opt) => {
                    &&& Self::slurped(*old(self), *final(self), bytecount as int)
                    &&& match opt {
                        Some(pi) => {
                            let i = final(self).cursor() - Self::byte_offset_of(fp);
                            if cut {
                                multi_byte_cut_winner(
                                    final(self).store(),
                                    old(self).cursor(),
                                    se@,
                                    pi.idx as int,
                                    i,
                                )
                            } else {
                                multi_byte_winner(
                                    final(self).store(),
                                    old(self).cursor(),
                                    se@,
                                    pi.idx as int,
                                    i,
                                )
                            }
                        },
                        None => no_byte_occurs(final(self).store(), old(self).cursor(), se@)
                            && final(self).cursor() == old(self).cursor(),
                    }
                },
                Err(_) => Self::slurp_errored(*old(self), *final(self), bytecount as int),
            },
    {
        match self.slurp(bytecount) {
            Ok(_) => (),
            Err(e2) => return Err(e2),
        }
        let ghost snap = *self;
        let mut foundpos: Option<Finding> = None;
        let mut idx: usize = 0;
        while idx < se.len()
            invariant_except_break
                foundpos matches Some(f) ==> !cut,
                match foundpos {
                    None => forall|k2: int|
                        0 <= k2 < idx ==> !byte_occurs_from(
                            self.store(),
                            self.cursor(),
                            #[trigger] se@[k2],
                        ),
                    Some(f) => {
                        &&& 0 <= f.pi.idx < idx <= se@.len()
                        &&& self.cursor() <= f.bi.idx
                        &&& byte_matches_at(self.store(), f.bi.idx as int, se@[f.pi.idx as int])
                        &&& forall|k2: int, j: int|
                            0 <= k2 < idx && self.cursor() <= j && #[trigger] byte_matches_at(
                                self.store(),
                                j,
                                se@[k2],
                            ) ==> f.bi.idx < j || (f.bi.idx == j && f.pi.idx <= k2)
                    },
                },
            invariant
                *self == snap,
                self.wf(),
                idx <= se@.len(),
            ensures
                *self == snap,
                match foundpos {
                    None => no_byte_occurs(self.store(), self.cursor(), se@),
                    Some(f) => if cut {
                        multi_byte_cut_winner(
                            self.store(),
                            self.cursor(),
                            se@,
                            f.pi.idx as int,
                            f.bi.idx as int,
                        )
                    } else {
                        multi_byte_winner(
                            self.store(),
                            self.cursor(),
                            se@,
                            f.pi.idx as int,
                            f.bi.idx as int,
                        )
                    },
                },
            decreases se@.len() - idx,
        {
            match self.find(se[idx]) {
                Some(rel) => {
                    proof {
                        self.lemma_store_len_bound();
                    }
                    let finding = Finding {
                        pi: PatternIdx { idx },
                        bi: BufferIdx { idx: self.pos_get() + rel },
                    };
                    foundpos = match foundpos {
                        None => Some(finding),
                        Some(f) => Some(*f.min(&finding)),
                    };
                    if cut {
                        break;
                    }
                },
                None => (),
            }
            idx += 1;
        }
        match foundpos {
            None => Ok(None),
            Some(f) => {
                self.pos_set(f.bi.idx);
                match fp {
                    FindPos::Begin => (),
                    FindPos::End => self.pos_add(1),
                }
                Ok(Some(f.pi))
            },
        }
    }

    /// As `slurp_find_multiple_repos_idx`, reporting only whether some
    /// candidate matched.
    pub fn slurp_find_multiple_repos(
        &mut self,
        bytecount: usize,
        se: &[u8],
        cut: bool,
        fp: FindPos,
    ) -> (r: Result<bool, std::io::Error>)
        requires
            old(self).wf(),
            old(self).cursor() + bytecount <= usize::MAX,
        ensures
            final(self).wf(),
            match r {
                Ok(b) => {
                    &&& Self::slurped(*old(self), *final(self), bytecount as int)
                    &&& (b <==> !no_byte_occurs(final(self).store(), old(self).cursor(), se@))
                    &&& (b && cut ==> exists|k: int|
                        #[trigger] multi_byte_cut_winner(
                            final(self).store(),
                            old(self).cursor(),
                            se@,
                            k,
                            final(self).cursor() - Self::byte_offset_of(fp),
                        ))
                    &&& (b && !cut ==> exists|k: int|
                        #[trigger] multi_byte_winner(
                            final(self).store(),
                            old(self).cursor(),
                            se@,
                            k,
                            final(self).cursor() - Self::byte_offset_of(fp),
                        ))
                    &&& (!b ==> final(self).cursor() == old(self).cursor())
                },
                Err(_) => Self::slurp_errored(*old(self), *final(self), bytecount as int),
            },
    {
        match self.slurp_find_multiple_repos_idx(bytecount, se, cut, fp) {
            Ok(Some(pi)) => {
                proof {
                    let i = self.cursor() - Self::byte_offset_of(fp);
                    if cut {
                        assert(multi_byte_cut_winner(
                            self.store(),
                            old(self).cursor(),
                            se@,
                            pi.idx as int,
                            i,
                        ));
                        assert(byte_matches_at(self.store(), i, se@[pi.idx as int]));
                    } else {
                        assert(multi_byte_winner(
                            self.store(),
                            old(self).cursor(),
                            se@,
                            pi.idx as int,
                            i,
                        ));
                        assert(byte_matches_at(self.store(), i, se@[pi.idx as int]));
                    }
                }
                Ok(true)
            },
            Ok(None) => Ok(false),
            Err(e) => Err(e),
        }
    }

    /// The cursor offset a successful search for `pat` applies.
    pub open spec fn pattern_offset_of(fp: FindPos, pat: Seq<u8>) -> int {
        match fp {
            FindPos::Begin => 0,
            FindPos::End => pat.len() as int,
        }
    }

    /// Slurps `bytecount` bytes, then searches the pending bytes for the
    /// byte-sequence `bytes`. When found, the cursor lands on the first byte
    /// of the match (`Begin`) or one past its end (`End`); when not found, the
    /// cursor is unchanged.
    pub fn slurp_search_repos(&mut self, bytecount: usize, bytes: &[u8], fp: FindPos) -> (r:
        Result<bool, std::io::Error>)
        requires
            old(self).wf(),
            old(self).cursor() + bytecount <= usize::MAX,
        ensures
            final(self).wf(),
            match r {
                Ok(b) => {
                    &&& Self::slurped(*old(self), *final(self), bytecount as int)
                    &&& (b <==> occurs_from(final(self).store(), old(self).cursor(), bytes@))
                    &&& (b ==> first_match_from(
                        final(self).store(),
                        old(self).cursor(),
                        bytes@,
                        final(self).cursor() - Self::pattern_offset_of(fp, bytes@),
                    ))
                    &&& (!b ==> final(self).cursor() == old(self).cursor())
                },
                Err(_) => Self::slurp_errored(*old(self), *final(self), bytecount as int),
            },
    {
        match self.slurp(bytecount) {
            Ok(_) => (),
            Err(e2) => return Err(e2),
        }
        match self.search(bytes) {
            None => Ok(false),
            Some(found) => {
                self.pos_add(found);
                match fp {
                    FindPos::Begin => (),
                    FindPos::End => self.pos_add(bytes.len()),
                }
                Ok(true)
            },
        }
    }

    /// `slurp_search_repos` with the `Begin` policy: the cursor lands on the
    /// first byte of a found occurrence; it is unchanged when there is none.
    pub fn slurp_search_repos0(&mut self, bytecount: usize, bytes: &[u8]) -> (r: Result<
        bool,
        std::io::Error,
    >)
        requires
            old(self).wf(),
            old(self).cursor() + bytecount <= usize::MAX,
        ensures
            final(self).wf(),
            match r {
                Ok(b) => {
                    &&& Self::slurped(*old(self), *final(self), bytecount as int)
                    &&& (b <==> occurs_from(final(self).store(), old(self).cursor(), bytes@))
                    &&& (b ==> first_match_from(
                        final(self).store(),
                        old(self).cursor(),
                        bytes@,
                        final(self).cursor(),
                    ))
                    &&& (!b ==> final(self).cursor() == old(self).cursor())
                },
                Err(_) => Self::slurp_errored(*old(self), *final(self), bytecount as int),
            },
    {
        self.slurp_search_repos(bytecount, bytes, FindPos::Begin)
    }

    /// `slurp_search_repos` with the `End` policy: the cursor lands one past
    /// the end of a found occurrence; it is unchanged when there is none.
    pub fn slurp_search_repos1(&mut self, bytecount: usize, bytes: &[u8]) -> (r: Result<
        bool,
        std::io::Error,
    >)
        requires
            old(self).wf(),
            old(self).cursor() + bytecount <= usize::MAX,
        ensures
            final(self).wf(),
            match r {
                Ok(b) => {
                    &&& Self::slurped(*old(self), *final(self), bytecount as int)
                    &&& (b <==> occurs_from(final(self).store(), old(self).cursor(), bytes@))
                    &&& (b ==> first_match_from(
                        final(self).store(),
                        old(self).cursor(),
                        bytes@,
                        final(self).cursor() - bytes@.len(),
                    ))
                    &&& (!b ==> final(self).cursor() == old(self).cursor())
                },
                Err(_) => Self::slurp_errored(*old(self), *final(self), bytecount as int),
            },
    {
        self.slurp_search_repos(bytecount, bytes, FindPos::End)
    }

    /// Slurps `bytecount` bytes, then searches the pending bytes for each of
    /// the candidate byte-sequences of `sbytes`, and reports which candidate
    /// won. With `cut` false every candidate is tried and the leftmost match
    /// wins, ties going to the earliest-listed candidate; with `cut` true the
    /// first listed candidate that matches at all wins. The cursor lands on
    /// the first byte of the winning match (`Begin`) or one past its end
    /// (`End`, using the winning pattern's own length); when no candidate
    /// matches, it is unchanged.
    pub fn slurp_search_multiple_repos_idx(
        &mut self,
        bytecount: usize,
        sbytes: &[&[u8]],
        cut: bool,
        fp: FindPos,
    ) -> (r: Result<Option<PatternIdx>, std::io::Error>)
        requires
            old(self).wf(),
            old(self).cursor() + bytecount <= usize::MAX,
        ensures
            final(self).wf(),
            match r {
                Ok(opt) => {
                    &&& Self::slurped(*old(self), *final(self), bytecount as int)
                    &&& match opt {
                        Some(pi) => {
                            let pats = pattern_views(sbytes@);
                            let i = final(self).cursor() - Self::pattern_offset_of(
                                fp,
                                pats[pi.idx as int],
                            );
                            &&& pi.idx < sbytes@.len()
                            &&& if cut {
                                multi_cut_winner(
                                    final(self).store(),
                                    old(self).cursor(),
                                    pats,
                                    pi.idx as int,
                                    i,
                                )
                            } else {
                                multi_winner(
                                    final(self).store(),
                                    old(self).cursor(),
                                    pats,
                                    pi.idx as int,
                                    i,
                                )
                            }
                        },
                        None => no_occurs(
                            final(self).store(),
                            old(self).cursor(),
                            pattern_views(sbytes@),
                        ) && final(self).cursor() == old(self).cursor(),
                    }
                },
                Err(_) => Self::slurp_errored(*old(self), *final(self), bytecount as int),
            },
    {
        match self.slurp(bytecount) {
            Ok(_) => (),
            Err(e2) => return Err(e2),
        }
        let ghost snap = *self;
        let ghost pats = pattern_views(sbytes@);
        let mut foundpos: Option<Finding> = None;
        let mut idx: usize = 0;
        while idx < sbytes.len()
            invariant_except_break
                foundpos matches Some(f) ==> !cut,
                match foundpos {
                    None => forall|k2: int|
                        0 <= k2 < idx ==> !occurs_from(
                            self.store(),
                            self.cursor(),
                            #[trigger] pats[k2],
                        ),
                    Some(f) => {
                        &&& 0 <= f.pi.idx < idx <= pats.len()
                        &&& self.cursor() <= f.bi.idx
                        &&& matches_at(self.store(), f.bi.idx as int, pats[f.pi.idx as int])
                        &&& forall|k2: int, j: int|
                            0 <= k2 < idx && self.cursor() <= j && #[trigger] matches_at(
                                self.store(),
                                j,
                                pats[k2],
                            ) ==> f.bi.idx < j || (f.bi.idx == j && f.pi.idx <= k2)
                    },
                },
            invariant
                *self == snap,
                self.wf(),
                idx <= sbytes@.len(),
                pats == pattern_views(sbytes@),
            ensures
                *self == snap,
                match foundpos {
                    None => no_occurs(self.store(), self.cursor(), pats),
                    Some(f) => if cut {
                        multi_cut_winner(
                            self.store(),
                            self.cursor(),
                            pats,
                            f.pi.idx as int,
                            f.bi.idx as int,
                        )
                    } else {
                        multi_winner(
                            self.store(),
                            self.cursor(),
                            pats,
                            f.pi.idx as int,
                            f.bi.idx as int,
                        )
                    },
                },
            decreases sbytes@.len() - idx,
        {
            match self.search(sbytes[idx]) {
                Some(rel) => {
                    proof {
                        self.lemma_store_len_bound();
                    }
                    let finding = Finding {
                        pi: PatternIdx { idx },
                        bi: BufferIdx { idx: self.pos_get() + rel },
                    };
                    foundpos = match foundpos {
                        None => Some(finding),
                        Some(f) => Some(*f.min(&finding)),
                    };
                    if cut {
                        break;
                    }
                },
                None => (),
            }
            idx += 1;
        }
        match foundpos {
            None => Ok(None),
            Some(f) => {
                self.pos_set(f.bi.idx);
                match fp {
                    FindPos::Begin => (),
                    FindPos::End => self.pos_add(sbytes[f.pi.idx].len()),
                }
                Ok(Some(f.pi))
            },
        }
    }
}

} // verus!
