//! The byte-source capability the reader consumes: yield up to a requested
//! number of bytes on demand, fewer or none at end of data.

use vstd::prelude::*;

verus! {

#[verifier::external_type_specification]
#[verifier::external_body]
pub struct ExIoError(std::io::Error);

/// A demand-driven byte source.
///
/// `remaining` is the source's model: the bytes it can still deliver, in
/// order. A read hands out a prefix of `remaining` and drops it from the
/// model. A read of zero bytes is how a source signals end of data; the
/// contract does not oblige a source to deliver anything while bytes remain,
/// so a caller must treat a zero-byte read as final.
pub trait ByteSource: Sized {
    /// The bytes this source can still deliver. A verified source overrides
    /// this with its own model; a source outside the verified world can leave
    /// the default in place, since nothing is proved about it anyway.
    open spec fn remaining(&self) -> Seq<u8> {
        Seq::<u8>::empty()
    }

    /// Fill `buf[start..]` with the source's next bytes and return how many
    /// bytes were written. The region of `buf` before `start` is untouched.
    fn read_at(&mut self, buf: &mut Vec<u8>, start: usize) -> (r: Result<usize, std::io::Error>)
        requires
            start <= old(buf)@.len(),
        ensures
            final(buf)@.len() == old(buf)@.len(),
            forall|i: int| 0 <= i < start ==> final(buf)@[i] == old(buf)@[i],
            match r {
                Ok(n) => {
                    &&& start + n <= old(buf)@.len()
                    &&& n <= old(self).remaining().len()
                    &&& final(buf)@.subrange(start as int, start + n) == old(
                        self,
                    ).remaining().take(n as int)
                    &&& final(self).remaining() == old(self).remaining().skip(n as int)
                },
                Err(_) => final(self).remaining() == old(self).remaining(),
            },
    ;
}

/// A source that serves from a byte vector held in memory. It delivers as
/// many bytes as are asked for and still on hand, and never fails.
pub struct SliceSource {
    data: Vec<u8>,
    off: usize,
}

impl SliceSource {
    #[verifier::type_invariant]
    spec fn inv(&self) -> bool {
        self.off <= self.data@.len()
    }

    /// A source that will deliver exactly the bytes of `data`.
    pub fn new(data: Vec<u8>) -> (r: Self)
        ensures
            r.remaining() == data@,
    {
        let r = SliceSource { data, off: 0 };
        proof {
            assert(r.remaining() =~= r.data@);
        }
        r
    }
}

impl ByteSource for SliceSource {
    closed spec fn remaining(&self) -> Seq<u8> {
        if self.off <= self.data@.len() {
            self.data@.skip(self.off as int)
        } else {
            Seq::<u8>::empty()
        }
    }

    fn read_at(&mut self, buf: &mut Vec<u8>, start: usize) -> (r: Result<usize, std::io::Error>) {
        proof {
            use_type_invariant(&*self);
        }
        let cap: usize = buf.len() - start;
        let avail: usize = self.data.len() - self.off;
        let n: usize = if cap < avail {
            cap
        } else {
            avail
        };
        let mut i: usize = 0;
        while i < n
            invariant
                i <= n,
                start + n <= buf.len(),
                self.off + n <= self.data.len(),
                self == old(self),
                buf@.len() == old(buf)@.len(),
                forall|j: int| 0 <= j < start ==> buf@[j] == old(buf)@[j],
                forall|j: int| start + i <= j < buf@.len() ==> buf@[j] == old(buf)@[j],
                forall|j: int|
                    start <= j < start + i ==> #[trigger] buf@[j] == self.data@[self.off + (j
                        - start)],
            decreases n - i,
        {
            buf[start + i] = self.data[self.off + i];
            i += 1;
        }
        proof {
            assert(buf@.subrange(start as int, start + n) =~= self.remaining().take(n as int));
        }
        self.off = self.off + n;
        proof {
            assert(self.remaining() =~= old(self).remaining().skip(n as int));
        }
        Ok(n)
    }
}

} // verus!
