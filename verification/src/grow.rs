//! Growth-retry operations: enlarge the read window step by step until a
//! match is found or the source is exhausted. The substring variants carry an
//! overlap of one less than the pattern length across window boundaries, so a
//! match straddling a boundary is still found without rescanning the whole
//! store.

use crate::pattern::{
    byte_matches_at, byte_occurs_from, first_byte_from, first_match_from, matches_at,
    multi_cut_winner, multi_winner, no_occurs, occurs_from, pattern_views,
};
use crate::reader::{BlockWiseReader, Error, FindPos, PatternIdx};
use crate::source::ByteSource;
use vstd::prelude::*;

verus! {

impl<S: ByteSource> BlockWiseReader<S> {
    /// Reads in `buffersize` steps until the byte `e` appears among the
    /// pending bytes or the source is exhausted. On success the cursor lands
    /// on the leftmost such byte at or after its starting point (`Begin`) or
    /// one past it (`End`); when the source runs out first, the cursor is put
    /// back where it started. A `buffersize` of zero could never make
    /// progress and is rejected before any read.
    pub fn slurp_find_repos_loop(&mut self, buffersize: usize, e: u8, fp: FindPos) -> (r: Result<
        bool,
        Error,
    >)
        requires
            old(self).wf(),
            old(self).store().len() + old(self).source_remaining().len() + buffersize
                <= usize::MAX,
        ensures
            final(self).wf(),
            buffersize == 0 <==> r matches Err(Error::Msg(_)),
            r matches Err(Error::IO(_)) ==> !(old(self).store().len() >= old(self).cursor()
                + buffersize && byte_occurs_from(old(self).store(), old(self).cursor(), e)),
            match r {
                Ok(true) => {
                    &&& Self::grew(*old(self), *final(self))
                    &&& first_byte_from(
                        final(self).store(),
                        old(self).cursor(),
                        e,
                        final(self).cursor() - Self::byte_offset_of(fp),
                    )
                },
                Ok(false) => {
                    &&& Self::grew(*old(self), *final(self))
                    &&& final(self).at_eof()
                    &&& !byte_occurs_from(final(self).store(), old(self).cursor(), e)
                    &&& final(self).cursor() == old(self).cursor()
                },
                Err(e2) => match e2 {
                    Error::Msg(m) => {
                        &&& buffersize == 0
                        &&& m@ == "buffersize 0 leads to an infinite loop"@
                        &&& *final(self) == *old(self)
                    },
                    Error::IO(_) => Self::grew_errored(*old(self), *final(self)),
                },
            },
    {
        if 0 == buffersize {
            return Err(Error::Msg("buffersize 0 leads to an infinite loop"));
        }
        let oldpos = self.pos_get();
        let ghost orig = *self;
        proof {
            assert(orig.store() + orig.source_remaining().take(0) =~= orig.store());
            assert(orig.source_remaining().skip(0) =~= orig.source_remaining());
        }
        loop
            invariant
                self.wf(),
                1 <= buffersize,
                orig == *old(self),
                oldpos == orig.cursor(),
                oldpos <= self.cursor(),
                orig.wf(),
                Self::grew(orig, *self),
                orig.store().len() + orig.source_remaining().len() + buffersize <= usize::MAX,
                self.at_eof() == orig.at_eof(),
                (orig.store().len() >= orig.cursor() + buffersize && byte_occurs_from(
                    orig.store(),
                    orig.cursor(),
                    e,
                )) ==> *self == orig,
                forall|j: int|
                    oldpos <= j < self.cursor() ==> !byte_matches_at(self.store(), j, e),
            decreases 2 * self.source_remaining().len() + (
            if self.store().len() >= self.cursor() + buffersize {
                1int
            } else {
                0int
            }),
        {
            let ghost head = *self;
            let found = match self.slurp_find_repos(buffersize, e, fp) {
                Ok(b) => b,
                Err(e2) => {
                    proof {
                        Self::lemma_grew_then_errored(orig, head, *self, buffersize as int);
                    }
                    return Err(Error::IO(e2));
                },
            };
            proof {
                Self::lemma_slurped_grew(head, *self, buffersize as int);
                Self::lemma_grew_trans(orig, head, *self);
                assert forall|j: int|
                    oldpos <= j < head.cursor() implies !byte_matches_at(
                    self.store(),
                    j,
                    e,
                ) by {
                    assert(self.store()[j] == head.store()[j]);
                    assert(!byte_matches_at(head.store(), j, e));
                }
            }
            if found {
                return Ok(true);
            }
            if self.eof() {
                proof {
                    assert forall|j: int| oldpos <= j implies !byte_matches_at(
                        self.store(),
                        j,
                        e,
                    ) by {
                        if head.cursor() <= j {
                            assert(!byte_occurs_from(self.store(), head.cursor(), e));
                        }
                    }
                }
                self.pos_set(oldpos);
                return Ok(false);
            } else {
                let avail = self.available_bytes();
                self.pos_add(avail);
            }
        }
    }

    /// Reads in `buffersize` steps until the byte-sequence `bytes` appears
    /// among the pending bytes or the source is exhausted. Each retry window
    /// keeps an overlap of one less than the pattern length from before the
    /// previous window's end, so a match straddling a window boundary is
    /// found without rescanning from the start. On success the cursor lands
    /// on the first byte of the leftmost occurrence at or after its starting
    /// point (`Begin`) or one past its end (`End`); when the source runs out
    /// first, the cursor is put back where it started. A `buffersize` of
    /// zero, or one not exceeding the pattern length, could never make
    /// progress and is rejected before any read.
    pub fn slurp_search_repos_loop(&mut self, buffersize: usize, bytes: &[u8], fp: FindPos) -> (r:
        Result<bool, Error>)
        requires
            old(self).wf(),
            old(self).store().len() + old(self).source_remaining().len() + buffersize
                + bytes@.len() <= usize::MAX,
        ensures
            final(self).wf(),
            (buffersize == 0 || buffersize <= bytes@.len()) <==> r matches Err(Error::Msg(_)),
            r matches Err(Error::IO(_)) ==> !(old(self).store().len() >= old(self).cursor()
                + buffersize && occurs_from(old(self).store(), old(self).cursor(), bytes@)),
            match r {
                Ok(true) => {
                    &&& Self::grew(*old(self), *final(self))
                    &&& first_match_from(
                        final(self).store(),
                        old(self).cursor(),
                        bytes@,
                        final(self).cursor() - Self::pattern_offset_of(fp, bytes@),
                    )
                },
                Ok(false) => {
                    &&& Self::grew(*old(self), *final(self))
                    &&& final(self).at_eof()
                    &&& !occurs_from(final(self).store(), old(self).cursor(), bytes@)
                    &&& final(self).cursor() == old(self).cursor()
                },
                Err(e2) => match e2 {
                    Error::Msg(m) => {
                        &&& *final(self) == *old(self)
                        &&& (buffersize == 0 ==> m@ == "buffersize 0 leads to an infinite loop"@)
                        &&& (buffersize >= 1 ==> buffersize <= bytes@.len() && m@
                            == "error: buffersize <= bytes.len()"@)
                    },
                    Error::IO(_) => Self::grew_errored(*old(self), *final(self)),
                },
            },
    {
        if 0 == buffersize {
            return Err(Error::Msg("buffersize 0 leads to an infinite loop"));
        }
        if buffersize <= bytes.len() {
            return Err(Error::Msg("error: buffersize <= bytes.len()"));
        }
        let oldpos = self.pos_get();
        let ghost orig = *self;
        proof {
            assert(orig.store() + orig.source_remaining().take(0) =~= orig.store());
            assert(orig.source_remaining().skip(0) =~= orig.source_remaining());
        }
        let mut offset: usize = 0;
        loop
            invariant
                self.wf(),
                orig == *old(self),
                bytes@.len() < buffersize,
                oldpos == orig.cursor(),
                oldpos <= self.cursor(),
                orig.wf(),
                Self::grew(orig, *self),
                orig.store().len() + orig.source_remaining().len() + buffersize + bytes@.len()
                    <= usize::MAX,
                self.at_eof() == orig.at_eof(),
                (orig.store().len() >= orig.cursor() + buffersize && occurs_from(
                    orig.store(),
                    orig.cursor(),
                    bytes@,
                )) ==> (*self == orig && offset == 0),
                offset <= bytes@.len(),
                self.cursor() == oldpos || self.cursor() + bytes@.len() <= self.store().len() + 1,
                forall|j: int| oldpos <= j < self.cursor() ==> !matches_at(self.store(), j, bytes@),
            decreases 2 * self.source_remaining().len() + (
            if self.store().len() >= self.cursor() + buffersize + offset {
                1int
            } else {
                0int
            }),
        {
            let ghost head = *self;
            let req = buffersize + offset;
            let found = match self.slurp_search_repos(req, bytes, fp) {
                Ok(b) => b,
                Err(e2) => {
                    proof {
                        Self::lemma_grew_then_errored(orig, head, *self, req as int);
                    }
                    return Err(Error::IO(e2));
                },
            };
            proof {
                Self::lemma_slurped_grew(head, *self, req as int);
                Self::lemma_grew_trans(orig, head, *self);
                assert(head.store() =~= self.store().subrange(0, head.store().len() as int));
                crate::pattern::lemma_clean_region_grows(
                    head.store(),
                    self.store(),
                    oldpos as int,
                    head.cursor(),
                    bytes@,
                );
            }
            if found {
                return Ok(true);
            }
            if self.eof() {
                proof {
                    assert forall|j: int| oldpos <= j implies !matches_at(
                        self.store(),
                        j,
                        bytes@,
                    ) by {
                        if head.cursor() <= j {
                            assert(!occurs_from(self.store(), head.cursor(), bytes@));
                        }
                    }
                }
                self.pos_set(oldpos);
                return Ok(false);
            } else {
                proof {
                    if bytes@.len() == 0 {
                        assert(bytes@ =~= Seq::<u8>::empty());
                        crate::pattern::lemma_empty_matches(self.store(), self.cursor());
                        assert(matches_at(self.store(), self.cursor(), bytes@));
                        assert(false);
                    }
                }
                let m1 = bytes.len() - 1;
                let prev = self.pos_get();
                let len = self.size();
                let newpos = if len >= m1 && len - m1 > prev {
                    len - m1
                } else {
                    prev
                };
                self.pos_set(newpos);
                offset = m1;
            }
        }
    }

    /// Reads in `buffersize` steps until one of the candidate byte-sequences
    /// of `sbytes` appears among the pending bytes or the source is
    /// exhausted, and reports which candidate won, with the same `cut` and
    /// tie-break rules as `slurp_search_multiple_repos_idx`. Each retry
    /// window keeps an overlap of one less than the longest candidate's
    /// length, so a match of any candidate straddling a window boundary is
    /// still found. When the source runs out first, the cursor is put back
    /// where it started. A `buffersize` of zero, or one not exceeding some
    /// candidate's length, could never make progress and is rejected before
    /// any read.
    pub fn slurp_search_multiple_repos_loop_idx(
        &mut self,
        buffersize: usize,
        sbytes: &[&[u8]],
        cut: bool,
        fp: FindPos,
    ) -> (r: Result<Option<PatternIdx>, Error>)
        requires
            old(self).wf(),
            old(self).store().len() + old(self).source_remaining().len() + buffersize + buffersize
                <= usize::MAX,
        ensures
            final(self).wf(),
            (buffersize == 0 || exists|k: int|
                0 <= k < sbytes@.len() && buffersize <= (#[trigger] pattern_views(
                    sbytes@,
                )[k]).len()) <==> r matches Err(Error::Msg(_)),
            r matches Err(Error::IO(_)) ==> !(old(self).store().len() >= old(self).cursor()
                + buffersize && !no_occurs(
                old(self).store(),
                old(self).cursor(),
                pattern_views(sbytes@),
            )),
            match r {
                Ok(opt) => match opt {
                    Some(pi) => {
                        let pats = pattern_views(sbytes@);
                        let i = final(self).cursor() - Self::pattern_offset_of(
                            fp,
                            pats[pi.idx as int],
                        );
                        &&& Self::grew(*old(self), *final(self))
                        &&& pi.idx < sbytes@.len()
                        &&& if cut {
                            multi_cut_winner(
                                final(self).store(),
                                old(self).cursor(),
                                pats,
                                pi.idx as int,
                                i,
                            )
                        } else {
                            multi_winner(
                                final(self).store(),
                                old(self).cursor(),
                                pats,
                                pi.idx as int,
                                i,
                            )
                        }
                    },
                    None => {
                        &&& Self::grew(*old(self), *final(self))
                        &&& final(self).at_eof()
                        &&& no_occurs(
                            final(self).store(),
                            old(self).cursor(),
                            pattern_views(sbytes@),
                        )
                        &&& final(self).cursor() == old(self).cursor()
                    },
                },
                Err(e2) => match e2 {
                    Error::Msg(m) => {
                        &&& *final(self) == *old(self)
                        &&& (buffersize == 0 ==> m@ == "buffersize 0 leads to an infinite loop"@)
                        &&& (buffersize >= 1 ==> m@ == "error: buffersize <= bytes.len()"@)
                    },
                    Error::IO(_) => Self::grew_errored(*old(self), *final(self)),
                },
            },
    {
        if 0 == buffersize {
            return Err(Error::Msg("buffersize 0 leads to an infinite loop"));
        }
        let ghost pats = pattern_views(sbytes@);
        let mut max_bytes_len: usize = 0;
        let mut k: usize = 0;
        while k < sbytes.len()
            invariant
                *self == *old(self),
                self.wf(),
                k <= sbytes@.len(),
                1 <= buffersize,
                pats == pattern_views(sbytes@),
                max_bytes_len < buffersize,
                forall|j: int| 0 <= j < k ==> (#[trigger] pats[j]).len() <= max_bytes_len,
            decreases sbytes@.len() - k,
        {
            let bl = sbytes[k].len();
            if max_bytes_len < bl {
                max_bytes_len = bl;
            }
            if buffersize <= bl {
                proof {
                    assert(buffersize <= (pattern_views(sbytes@)[k as int]).len());
                }
                return Err(Error::Msg("error: buffersize <= bytes.len()"));
            }
            k += 1;
        }
        let oldpos = self.pos_get();
        let ghost orig = *self;
        proof {
            assert(orig.store() + orig.source_remaining().take(0) =~= orig.store());
            assert(orig.source_remaining().skip(0) =~= orig.source_remaining());
        }
        let mut offset: usize = 0;
        loop
            invariant
                self.wf(),
                orig == *old(self),
                pats == pattern_views(sbytes@),
                1 <= buffersize,
                max_bytes_len < buffersize,
                forall|j: int| 0 <= j < pats.len() ==> (#[trigger] pats[j]).len() <= max_bytes_len,
                oldpos == orig.cursor(),
                oldpos <= self.cursor(),
                orig.wf(),
                Self::grew(orig, *self),
                orig.store().len() + orig.source_remaining().len() + buffersize + buffersize
                    <= usize::MAX,
                self.at_eof() == orig.at_eof(),
                (orig.store().len() >= orig.cursor() + buffersize && !no_occurs(
                    orig.store(),
                    orig.cursor(),
                    pats,
                )) ==> (*self == orig && offset == 0),
                offset <= max_bytes_len,
                self.cursor() == oldpos || self.cursor() + max_bytes_len <= self.store().len() + 1,
                forall|k2: int, j: int|
                    #![trigger matches_at(self.store(), j, pats[k2])]
                    0 <= k2 < pats.len() && oldpos <= j < self.cursor() ==> !matches_at(
                        self.store(),
                        j,
                        pats[k2],
                    ),
            decreases 2 * self.source_remaining().len() + (
            if self.store().len() >= self.cursor() + buffersize + offset {
                1int
            } else {
                0int
            }),
        {
            let ghost head = *self;
            let req = buffersize + offset;
            let res = match self.slurp_search_multiple_repos_idx(req, sbytes, cut, fp) {
                Ok(o) => o,
                Err(e2) => {
                    proof {
                        Self::lemma_grew_then_errored(orig, head, *self, req as int);
                    }
                    return Err(Error::IO(e2));
                },
            };
            proof {
                Self::lemma_slurped_grew(head, *self, req as int);
                Self::lemma_grew_trans(orig, head, *self);
                assert(head.store() =~= self.store().subrange(0, head.store().len() as int));
                assert forall|k2: int, j: int|
                    #![trigger matches_at(self.store(), j, pats[k2])]
                    0 <= k2 < pats.len() && oldpos <= j < head.cursor() implies !matches_at(
                    self.store(),
                    j,
                    pats[k2],
                ) by {
                    if matches_at(self.store(), j, pats[k2]) {
                        if pats[k2].len() == 0 {
                            assert(pats[k2] =~= Seq::<u8>::empty());
                            crate::pattern::lemma_empty_matches(head.store(), j);
                        } else {
                            crate::pattern::lemma_matches_at_shrink(
                                head.store(),
                                self.store(),
                                j,
                                pats[k2],
                            );
                        }
                        assert(matches_at(head.store(), j, pats[k2]));
                        assert(false);
                    }
                }
            }
            match res {
                Some(pi) => {
                    proof {
                        if cut {
                            assert forall|k2: int|
                                0 <= k2 < pi.idx as int implies !occurs_from(
                                self.store(),
                                oldpos as int,
                                #[trigger] pats[k2],
                            ) by {
                                assert(!occurs_from(self.store(), head.cursor(), pats[k2]));
                                assert forall|j: int| oldpos <= j implies !matches_at(
                                    self.store(),
                                    j,
                                    pats[k2],
                                ) by {
                                    if head.cursor() <= j {
                                        assert(!matches_at(self.store(), j, pats[k2]));
                                    }
                                }
                            }
                        }
                    }
                    return Ok(Some(pi));
                },
                None => {
                    if self.eof() {
                        proof {
                            assert forall|k2: int, j: int|
                                #![trigger matches_at(self.store(), j, pats[k2])]
                                0 <= k2 < pats.len() && oldpos <= j implies !matches_at(
                                self.store(),
                                j,
                                pats[k2],
                            ) by {
                                if head.cursor() <= j {
                                    assert(!occurs_from(self.store(), head.cursor(), pats[k2]));
                                }
                            }
                        }
                        self.pos_set(oldpos);
                        return Ok(None);
                    } else {
                        let m1 = if max_bytes_len == 0 {
                            0
                        } else {
                            max_bytes_len - 1
                        };
                        let prev = self.pos_get();
                        let len = self.size();
                        let newpos = if len >= m1 && len - m1 > prev {
                            len - m1
                        } else {
                            prev
                        };
                        self.pos_set(newpos);
                        offset = m1;
                    }
                },
            }
        }
    }
}

} // verus!
