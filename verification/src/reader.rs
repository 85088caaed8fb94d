//! The stream buffer: a growable byte store over an owned byte source, with a
//! read cursor separating consumed bytes from pending ones.

use crate::pattern::{
    byte_matches_at, byte_occurs_from, first_byte_from, first_match_from, lemma_first_match_skip,
    lemma_no_occurs_skip, occurs_from,
};
use crate::search::search_slice;
use crate::source::ByteSource;
use vstd::prelude::*;
use vstd::slice::slice_subrange;

verus! {

/// Where the cursor lands after a successful find or search.
#[derive(Clone, Copy)]
pub enum FindPos {
    /// Land on the first byte of the match.
    Begin,
    /// Land one past the end of the match.
    End,
}

/// What a reader operation can fail with.
#[derive(Debug)]
pub enum Error {
    /// The byte source reported a failure during a read.
    IO(std::io::Error),
    /// Loop parameters that could never make progress were rejected before
    /// any read was attempted.
    Msg(&'static str),
}

impl From<std::io::Error> for Error {
    fn from(value: std::io::Error) -> (r: Self) {
        Error::IO(value)
    }
}

impl vstd::std_specs::convert::FromSpecImpl<std::io::Error> for Error {
    open spec fn obeys_from_spec() -> bool {
        true
    }

    open spec fn from_spec(value: std::io::Error) -> Self {
        Error::IO(value)
    }
}

/// Which entry of a list of candidate patterns produced a match.
#[derive(Clone, Copy, PartialEq, Eq, Structural, PartialOrd, Debug)]
pub struct PatternIdx {
    pub idx: usize,
}

#[derive(Clone, Copy)]
pub(crate) struct BufferIdx {
    pub(crate) idx: usize,
}

#[derive(Clone, Copy)]
pub(crate) struct Finding {
    pub(crate) pi: PatternIdx,
    pub(crate) bi: BufferIdx,
}

impl Finding {
    /// The finding that stands earlier in the buffer; `self` on ties.
    pub(crate) fn min<'a>(&'a self, other: &'a Self) -> (r: &'a Self)
        ensures
            self.bi.idx <= other.bi.idx ==> r == self,
            self.bi.idx > other.bi.idx ==> r == other,
    {
        if self.bi.idx <= other.bi.idx {
            self
        } else {
            other
        }
    }
}

/// The stream buffer: an owned byte source, the bytes read from it so far,
/// and a cursor into them.
pub struct BlockWiseReader<S: ByteSource> {
    v: Vec<u8>,
    r: S,
    pos: usize,
    eof: bool,
}

impl<S: ByteSource> BlockWiseReader<S> {
    /// The byte store: everything read from the source (or spliced in) so far.
    pub closed spec fn store(&self) -> Seq<u8> {
        self.v@
    }

    /// The cursor: bytes before it are consumed, bytes at or after it pending.
    pub closed spec fn cursor(&self) -> int {
        self.pos as int
    }

    /// Whether the source has signalled end of data (a read of zero bytes).
    pub closed spec fn at_eof(&self) -> bool {
        self.eof
    }

    /// What the underlying source can still deliver.
    pub closed spec fn source_remaining(&self) -> Seq<u8> {
        self.r.remaining()
    }

    /// The cursor stays within the store.
    pub open spec fn wf(&self) -> bool {
        0 <= self.cursor() <= self.store().len()
    }

    /// The pending bytes: the store from the cursor on.
    pub open spec fn pending(&self) -> Seq<u8> {
        self.store().skip(self.cursor())
    }

    /// Everything but the cursor is unchanged.
    pub open spec fn only_cursor_moved(pre: Self, post: Self) -> bool {
        &&& post.store() == pre.store()
        &&& post.at_eof() == pre.at_eof()
        &&& post.source_remaining() == pre.source_remaining()
    }

    /// How one `slurp(want)` changes store, source and flag (the cursor aside):
    /// either enough bytes were already on hand and nothing happens, or the
    /// store is extended with a prefix of the source's remaining bytes, up to
    /// what was asked for, and a zero-byte delivery raises the flag.
    pub open spec fn slurped(pre: Self, post: Self, want: int) -> bool {
        if pre.store().len() >= pre.cursor() + want {
            &&& post.store() == pre.store()
            &&& post.source_remaining() == pre.source_remaining()
            &&& post.at_eof() == pre.at_eof()
        } else {
            let delta = post.store().len() - pre.store().len();
            &&& 0 <= delta <= pre.source_remaining().len()
            &&& post.store().len() <= pre.cursor() + want
            &&& post.store() == pre.store() + pre.source_remaining().take(delta)
            &&& post.source_remaining() == pre.source_remaining().skip(delta)
            &&& post.at_eof() == (pre.at_eof() || delta == 0)
        }
    }

    /// Several growth steps: the store has been extended with bytes taken in
    /// order from the source.
    pub open spec fn grew(pre: Self, post: Self) -> bool {
        let delta = post.store().len() - pre.store().len();
        &&& 0 <= delta <= pre.source_remaining().len()
        &&& post.store() == pre.store() + pre.source_remaining().take(delta)
        &&& post.source_remaining() == pre.source_remaining().skip(delta)
        &&& (pre.at_eof() ==> post.at_eof())
    }

    /// The state after a read failure inside a single `slurp(want)`: the store
    /// was already resized for the request, so its tail past the old content
    /// holds unspecified bytes; nothing else changed, and there is no rollback.
    pub open spec fn slurp_errored(pre: Self, post: Self, want: int) -> bool {
        &&& pre.store().len() < pre.cursor() + want
        &&& post.store().len() == pre.cursor() + want
        &&& post.store().subrange(0, pre.store().len() as int) == pre.store()
        &&& post.source_remaining() == pre.source_remaining()
        &&& post.at_eof() == pre.at_eof()
        &&& post.cursor() == pre.cursor()
    }

    /// The state after a read failure inside a growth-retry loop: whatever was
    /// assembled before the failing read is kept, the aborted request's tail
    /// holds unspecified bytes, and there is no rollback. The end-of-data flag
    /// is exactly what it was, and the cursor has not moved backward past
    /// where it stood, nor beyond the store.
    pub open spec fn grew_errored(pre: Self, post: Self) -> bool {
        &&& post.at_eof() == pre.at_eof()
        &&& pre.cursor() <= post.cursor() <= post.store().len()
        &&& exists|d: int|
            {
                &&& 0 <= d <= pre.source_remaining().len()
                &&& post.store().len() >= pre.store().len() + d
                &&& post.store().subrange(0, pre.store().len() + d) == pre.store()
                    + pre.source_remaining().take(d)
                &&& post.source_remaining() == #[trigger] pre.source_remaining().skip(d)
            }
    }

    /// The store fits in a vector, so its length is bounded by the machine.
    pub proof fn lemma_store_len_bound(&self)
        ensures
            self.store().len() <= usize::MAX,
    {
        assert(self.v@.len() == self.v.len());
    }

    /// One slurp is a growth step.
    pub proof fn lemma_slurped_grew(pre: Self, post: Self, want: int)
        requires
            Self::slurped(pre, post, want),
            pre.wf(),
            want >= 0,
        ensures
            Self::grew(pre, post),
    {
        if pre.store().len() >= pre.cursor() + want {
            assert(post.store() =~= pre.store() + pre.source_remaining().take(0));
            assert(post.source_remaining() =~= pre.source_remaining().skip(0));
        }
    }

    /// Growth steps compose.
    pub proof fn lemma_grew_trans(a: Self, b: Self, c: Self)
        requires
            Self::grew(a, b),
            Self::grew(b, c),
        ensures
            Self::grew(a, c),
    {
        let d1 = b.store().len() - a.store().len();
        let d2 = c.store().len() - b.store().len();
        assert(c.store() =~= a.store() + a.source_remaining().take(d1 + d2));
        assert(c.source_remaining() =~= a.source_remaining().skip(d1 + d2));
    }

    /// A growth step followed by a failed slurp leaves an errored-growth state.
    pub proof fn lemma_grew_then_errored(a: Self, b: Self, c: Self, want: int)
        requires
            Self::grew(a, b),
            Self::slurp_errored(b, c, want),
            a.at_eof() == b.at_eof(),
            a.cursor() <= b.cursor(),
            want >= 0,
        ensures
            Self::grew_errored(a, c),
    {
        let d = b.store().len() - a.store().len();
        assert(c.store().subrange(0, a.store().len() + d) == b.store());
        assert(c.source_remaining() == a.source_remaining().skip(d));
        assert(0 <= d <= a.source_remaining().len() && c.store().len() >= a.store().len() + d
            && c.store().subrange(0, a.store().len() + d) == a.store()
            + a.source_remaining().take(d) && c.source_remaining()
            == a.source_remaining().skip(d));
    }

    /// Creates a reader over the given source: empty store, cursor at zero,
    /// end of data not yet seen.
    pub fn new(r: S) -> (res: Self)
        ensures
            res.wf(),
            res.store() == Seq::<u8>::empty(),
            res.cursor() == 0,
            !res.at_eof(),
            res.source_remaining() == r.remaining(),
    {
        let res = BlockWiseReader { v: Vec::new(), r, pos: 0, eof: false };
        proof {
            assert(res.store() =~= Seq::<u8>::empty());
        }
        res
    }

    /// How many bytes stand between the cursor and the end of the store.
    pub fn available_bytes(&self) -> (n: usize)
        requires
            self.wf(),
        ensures
            n == self.store().len() - self.cursor(),
    {
        self.v.len() - self.pos
    }

    /// The overall size of the store.
    pub fn size(&self) -> (n: usize)
        ensures
            n == self.store().len(),
    {
        self.v.len()
    }

    /// The current cursor value.
    pub fn pos_get(&self) -> (p: usize)
        ensures
            p == self.cursor(),
    {
        self.pos
    }

    /// The whole store as a slice.
    pub(crate) fn v_slice(&self) -> (r: &[u8])
        ensures
            r@ == self.store(),
    {
        self.v.as_slice()
    }

    /// True when the source has signalled end of data.
    pub(crate) fn eof(&self) -> (b: bool)
        ensures
            b == self.at_eof(),
    {
        self.eof
    }

    /// Sets the cursor.
    pub fn pos_set(&mut self, pos: usize)
        requires
            pos <= old(self).store().len(),
        ensures
            final(self).wf(),
            final(self).cursor() == pos,
            Self::only_cursor_moved(*old(self), *final(self)),
    {
        self.pos = pos;
    }

    /// Moves the cursor forward.
    pub fn pos_add(&mut self, pos: usize)
        requires
            old(self).cursor() + pos <= old(self).store().len(),
        ensures
            final(self).wf(),
            final(self).cursor() == old(self).cursor() + pos,
            Self::only_cursor_moved(*old(self), *final(self)),
    {
        proof {
            assert(self.v@.len() == self.v.len());
        }
        self.pos = self.pos + pos;
    }

    /// Moves the cursor backward.
    pub fn pos_sub(&mut self, pos: usize)
        requires
            old(self).wf(),
            pos <= old(self).cursor(),
        ensures
            final(self).wf(),
            final(self).cursor() == old(self).cursor() - pos,
            Self::only_cursor_moved(*old(self), *final(self)),
    {
        self.pos = self.pos - pos;
    }

    /// Moves the cursor by a signed amount.
    pub fn pos_add_i(&mut self, pos: isize)
        requires
            old(self).wf(),
            0 <= old(self).cursor() + pos,
            old(self).cursor() + pos <= old(self).store().len(),
        ensures
            final(self).wf(),
            final(self).cursor() == old(self).cursor() + pos,
            Self::only_cursor_moved(*old(self), *final(self)),
    {
        if pos >= 0 {
            self.pos_add(pos as usize)
        } else {
            let mag: usize = ((-1 - pos) as usize) + 1;
            self.pos_sub(mag)
        }
    }

    /// Removes and returns the consumed prefix of the store, keeps the pending
    /// bytes, and resets the cursor to zero. The pending bytes are unchanged.
    pub fn pos_cut(&mut self) -> (r: Vec<u8>)
        requires
            old(self).wf(),
        ensures
            final(self).wf(),
            r@ == old(self).store().take(old(self).cursor()),
            final(self).store() == old(self).pending(),
            final(self).cursor() == 0,
            final(self).pending() == old(self).pending(),
            final(self).at_eof() == old(self).at_eof(),
            final(self).source_remaining() == old(self).source_remaining(),
    {
        let mut ret = self.v.split_off(self.pos);
        core::mem::swap(&mut self.v, &mut ret);
        self.pos = 0;
        proof {
            assert(ret@ =~= old(self).store().take(old(self).cursor()));
            assert(self.v@ =~= old(self).pending());
            assert(self.v@.skip(0) =~= self.v@);
        }
        ret
    }

    /// Splices the bytes of `s` into the store at the cursor; the cursor value
    /// itself is unchanged, so the injected bytes lead the pending bytes.
    pub fn pos_inject(&mut self, s: &[u8])
        requires
            old(self).wf(),
            old(self).store().len() + s@.len() <= usize::MAX,
        ensures
            final(self).wf(),
            final(self).store() == old(self).store().take(old(self).cursor()) + s@ + old(
                self,
            ).pending(),
            final(self).cursor() == old(self).cursor(),
            final(self).pending() == s@ + old(self).pending(),
            final(self).at_eof() == old(self).at_eof(),
            final(self).source_remaining() == old(self).source_remaining(),
    {
        let mut v3 = self.v.split_off(self.pos);
        self.v.extend_from_slice(s);
        self.v.append(&mut v3);
        proof {
            assert(self.v@ =~= old(self).store().take(old(self).cursor()) + s@ + old(
                self,
            ).pending());
            assert(self.v@.skip(self.pos as int) =~= s@ + old(self).pending());
        }
    }

    /// The pending bytes, from the cursor to the end of the store.
    pub fn get(&self) -> (r: &[u8])
        requires
            self.wf(),
        ensures
            r@ == self.pending(),
    {
        let r = slice_subrange(self.v.as_slice(), self.pos, self.v.len());
        proof {
            assert(r@ =~= self.pending());
        }
        r
    }

    /// The bytes from the given position to the end of the store.
    pub fn get_from(&self, pos: usize) -> (r: &[u8])
        requires
            pos <= self.store().len(),
        ensures
            r@ == self.store().skip(pos as int),
    {
        let r = slice_subrange(self.v.as_slice(), pos, self.v.len());
        proof {
            assert(r@ =~= self.store().skip(pos as int));
        }
        r
    }

    /// The bytes from `back` before the cursor to the end of the store.
    pub fn get_back(&self, back: usize) -> (r: &[u8])
        requires
            self.wf(),
            back <= self.cursor(),
        ensures
            r@ == self.store().skip(self.cursor() - back),
    {
        let r = slice_subrange(self.v.as_slice(), self.pos - back, self.v.len());
        proof {
            assert(r@ =~= self.store().skip(self.cursor() - back));
        }
        r
    }

    /// The bytes from the given position up to the cursor.
    pub fn get_from_to_current(&self, pos: usize) -> (r: &[u8])
        requires
            self.wf(),
            pos <= self.cursor(),
        ensures
            r@ == self.store().subrange(pos as int, self.cursor()),
    {
        slice_subrange(self.v.as_slice(), pos, self.pos)
    }

    /// Makes at least `bytecount` bytes available beyond the cursor, if the
    /// source can still deliver them. If the store already holds that many,
    /// nothing is read. Otherwise exactly the missing amount is requested from
    /// the source in one call; the source may deliver less, and a zero-byte
    /// delivery records end of data. Returns the bytes now available beyond
    /// the cursor, which may exceed `bytecount` (earlier over-reads) or fall
    /// short of it (source ran out).
    pub fn slurp(&mut self, bytecount: usize) -> (r: Result<usize, std::io::Error>)
        requires
            old(self).wf(),
            old(self).cursor() + bytecount <= usize::MAX,
        ensures
            final(self).wf(),
            final(self).cursor() == old(self).cursor(),
            match r {
                Ok(n) => {
                    &&& Self::slurped(*old(self), *final(self), bytecount as int)
                    &&& n == final(self).store().len() - final(self).cursor()
                    &&& final(self).store().len() >= old(self).store().len()
                },
                Err(_) => Self::slurp_errored(*old(self), *final(self), bytecount as int),
            },
    {
        let pos = self.pos;
        let read_start = self.v.len();
        if read_start >= pos + bytecount {
            return Ok(self.available_bytes());
        }
        let amount_to_read = pos + bytecount - read_start;
        self.v.resize(pos + bytecount, 0);
        let rod = match self.r.read_at(&mut self.v, read_start) {
            Ok(n) => n,
            Err(e) => {
                proof {
                    assert(self.v@.subrange(0, old(self).store().len() as int) =~= old(
                        self,
                    ).store());
                }
                return Err(e);
            },
        };
        if rod < amount_to_read {
            self.v.truncate(read_start + rod);
        }
        if rod == 0 {
            self.eof = true;
        }
        proof {
            assert(self.v@ =~= old(self).store() + old(self).source_remaining().take(rod as int));
        }
        Ok(self.available_bytes())
    }

    /// Reads from the source in `buffersize` steps until it delivers nothing,
    /// accumulating everything it had into the store. Returns the bytes then
    /// available beyond the cursor.
    pub fn slurp_loop(&mut self, buffersize: usize) -> (r: Result<usize, std::io::Error>)
        requires
            old(self).wf(),
            old(self).store().len() + old(self).source_remaining().len() + buffersize
                <= usize::MAX,
        ensures
            final(self).wf(),
            final(self).cursor() == old(self).cursor(),
            match r {
                Ok(n) => {
                    &&& Self::grew(*old(self), *final(self))
                    &&& final(self).at_eof()
                    &&& n == final(self).store().len() - final(self).cursor()
                },
                Err(_) => Self::grew_errored(*old(self), *final(self)),
            },
    {
        proof {
            assert(old(self).store() + old(self).source_remaining().take(0) =~= old(self).store());
            assert(old(self).source_remaining().skip(0) =~= old(self).source_remaining());
        }
        loop
            invariant_except_break
                self.at_eof() == old(self).at_eof(),
            invariant
                self.wf(),
                self.cursor() == old(self).cursor(),
                Self::grew(*old(self), *self),
                old(self).store().len() + old(self).source_remaining().len() + buffersize
                    <= usize::MAX,
            ensures
                self.wf(),
                self.cursor() == old(self).cursor(),
                self.at_eof(),
                Self::grew(*old(self), *self),
            decreases self.source_remaining().len(),
        {
            let ghost head = *self;
            let len = self.v.len();
            let newlen = len + buffersize;
            self.v.resize(newlen, 0);
            let rod = match self.r.read_at(&mut self.v, len) {
                Ok(n) => n,
                Err(e) => {
                    proof {
                        let d = head.store().len() - old(self).store().len();
                        assert(self.v@.subrange(0, old(self).store().len() + d) =~= head.store());
                        assert(0 <= d <= old(self).source_remaining().len() && self.v@.len() >= old(
                            self,
                        ).store().len() + d && self.v@.subrange(0, old(self).store().len() + d)
                            == old(self).store() + old(self).source_remaining().take(d)
                            && self.source_remaining() == old(self).source_remaining().skip(d));
                    }
                    return Err(e);
                },
            };
            if rod < buffersize {
                self.v.truncate(len + rod);
            }
            proof {
                assert(self.v@ =~= head.store() + head.source_remaining().take(rod as int));
                Self::lemma_grew_trans(*old(self), head, *self);
            }
            if rod == 0 {
                self.eof = true;
                proof {
                    Self::lemma_grew_trans(*old(self), head, *self);
                }
                break;
            }
        }
        Ok(self.available_bytes())
    }

    /// The leftmost index, relative to the cursor, of a pending byte equal to
    /// `e`; `None` when no pending byte equals it.
    pub fn find(&self, e: u8) -> (r: Option<usize>)
        requires
            self.wf(),
        ensures
            match r {
                Some(i) => first_byte_from(self.store(), self.cursor(), e, self.cursor() + i),
                None => !byte_occurs_from(self.store(), self.cursor(), e),
            },
    {
        let mut i: usize = self.pos;
        while i < self.v.len()
            invariant
                self.wf(),
                self.cursor() <= i <= self.store().len(),
                forall|j: int| self.cursor() <= j < i ==> !byte_matches_at(self.store(), j, e),
            decreases self.store().len() - i,
        {
            if self.v[i] == e {
                return Some(i - self.pos);
            }
            i += 1;
        }
        None
    }

    /// The leftmost index, relative to the cursor, of an occurrence of the
    /// byte-sequence `bytes` within the pending bytes; `None` when it does not
    /// occur there.
    pub fn search(&self, bytes: &[u8]) -> (r: Option<usize>)
        requires
            self.wf(),
        ensures
            match r {
                Some(i) => first_match_from(
                    self.store(),
                    self.cursor(),
                    bytes@,
                    self.cursor() + i,
                ),
                None => !occurs_from(self.store(), self.cursor(), bytes@),
            },
    {
        let hay = slice_subrange(self.v.as_slice(), self.pos, self.v.len());
        let r = search_slice(hay, bytes);
        proof {
            assert(hay@ =~= self.pending());
            match r {
                Some(i) => lemma_first_match_skip(self.store(), self.cursor(), bytes@, i as int),
                None => lemma_no_occurs_skip(self.store(), self.cursor(), bytes@),
            }
        }
        r
    }
}

} // verus!
