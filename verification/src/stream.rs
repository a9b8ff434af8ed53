//! The transport model: a pair of in-memory byte buffers.
//!
//! The codec reads frames from a `ReadStream` and writes frames to a
//! `WriteStream`; a caller pumps bytes between these buffers and the real
//! connection.  A `Stream` bundles both directions and can be split into its
//! two independent halves.

use vstd::prelude::*;

verus! {

/// The inbound half: bytes fed by the transport, consumed by the read pipeline.
pub struct ReadStream {
    buf: Vec<u8>,
    pos: usize,
}

impl ReadStream {
    /// The bytes fed but not yet consumed.
    pub closed spec fn remaining(self) -> Seq<u8> {
        self.buf@.subrange(self.pos as int, self.buf@.len() as int)
    }

    pub closed spec fn wf(self) -> bool {
        self.pos <= self.buf@.len()
    }

    pub fn new() -> (r: ReadStream)
        ensures
            r.wf(),
            r.remaining() == Seq::<u8>::empty(),
    {
        let r = ReadStream { buf: Vec::new(), pos: 0 };
        proof {
            assert(r.remaining() =~= Seq::<u8>::empty());
        }
        r
    }

    /// Append transport bytes behind whatever is still unconsumed.
    pub fn feed(&mut self, data: &[u8])
        requires
            old(self).wf(),
        ensures
            final(self).wf(),
            final(self).remaining() == old(self).remaining() + data@,
    {
        let mut i: usize = 0;
        while i < data.len()
            invariant
                self.wf(),
                i <= data@.len(),
                self.pos == old(self).pos,
                self.buf@ == old(self).buf@ + data@.take(i as int),
            decreases data@.len() - i,
        {
            self.buf.push(data[i]);
            i = i + 1;
            proof {
                assert(self.buf@ =~= old(self).buf@ + data@.take(i as int));
            }
        }
        proof {
            assert(data@.take(data@.len() as int) =~= data@);
            assert(final(self).remaining() =~= old(self).remaining() + data@);
        }
    }

    /// The byte at offset `i` of the unconsumed input.
    pub fn byte_at(&self, i: usize) -> (r: u8)
        requires
            self.wf(),
            i < self.remaining().len(),
        ensures
            r == self.remaining()[i as int],
    {
        proof {
            assert(self.remaining().len() == self.buf@.len() - self.pos);
        }
        let l: usize = self.buf.len();
        self.buf[self.pos + i]
    }

    /// How many bytes are still unconsumed.
    pub fn available(&self) -> (r: usize)
        requires
            self.wf(),
        ensures
            r == self.remaining().len(),
    {
        self.buf.len() - self.pos
    }

    /// Copy `n` unconsumed bytes starting at offset `start`, without consuming.
    pub fn copy_range(&self, start: usize, n: usize) -> (r: Vec<u8>)
        requires
            self.wf(),
            start + n <= self.remaining().len(),
        ensures
            r@ == self.remaining().subrange(start as int, start + n),
    {
        proof {
            assert(self.remaining().len() == self.buf@.len() - self.pos);
        }
        let l: usize = self.buf.len();
        let base: usize = self.pos + start;
        let mut out: Vec<u8> = Vec::new();
        let mut i: usize = 0;
        while i < n
            invariant
                self.wf(),
                start + n <= self.remaining().len(),
                self.remaining().len() == self.buf@.len() - self.pos,
                base == self.pos + start,
                l == self.buf@.len(),
                base + n <= l,
                i <= n,
                out@ == self.remaining().subrange(start as int, start + i),
            decreases n - i,
        {
            out.push(self.buf[base + i]);
            i = i + 1;
            proof {
                assert(out@ =~= self.remaining().subrange(start as int, start + i));
            }
        }
        out
    }

    /// Consume the first `n` unconsumed bytes.
    pub fn consume(&mut self, n: usize)
        requires
            old(self).wf(),
            n <= old(self).remaining().len(),
        ensures
            final(self).wf(),
            final(self).remaining() == old(self).remaining().skip(n as int),
    {
        proof {
            assert(old(self).remaining().len() == old(self).buf@.len() - old(self).pos);
        }
        let l: usize = self.buf.len();
        self.pos = self.pos + n;
        proof {
            assert(final(self).remaining() =~= old(self).remaining().skip(n as int));
        }
    }
}

/// The outbound half: bytes produced by the write pipeline, drained by the
/// transport.
pub struct WriteStream {
    buf: Vec<u8>,
}

impl WriteStream {
    /// The bytes written and not yet drained.
    pub closed spec fn out(self) -> Seq<u8> {
        self.buf@
    }

    pub fn new() -> (r: WriteStream)
        ensures
            r.out() == Seq::<u8>::empty(),
    {
        let r = WriteStream { buf: Vec::new() };
        proof {
            assert(r.out() =~= Seq::<u8>::empty());
        }
        r
    }

    /// Append bytes to the outbound buffer.
    pub fn write_all(&mut self, data: &[u8])
        ensures
            final(self).out() == old(self).out() + data@,
    {
        let mut i: usize = 0;
        while i < data.len()
            invariant
                i <= data@.len(),
                self.buf@ == old(self).buf@ + data@.take(i as int),
            decreases data@.len() - i,
        {
            self.buf.push(data[i]);
            i = i + 1;
            proof {
                assert(self.buf@ =~= old(self).buf@ + data@.take(i as int));
            }
        }
        proof {
            assert(data@.take(data@.len() as int) =~= data@);
        }
    }

    /// Drain everything written so far.
    pub fn take_all(&mut self) -> (r: Vec<u8>)
        ensures
            r@ == old(self).out(),
            final(self).out() == Seq::<u8>::empty(),
    {
        let mut out: Vec<u8> = Vec::new();
        core::mem::swap(&mut out, &mut self.buf);
        proof {
            assert(final(self).out() =~= Seq::<u8>::empty());
        }
        out
    }
}

/// A bidirectional transport buffer.
pub struct Stream {
    pub rd: ReadStream,
    pub wr: WriteStream,
}

impl Stream {
    pub fn new() -> (r: Stream)
        ensures
            r.rd.wf(),
            r.rd.remaining() == Seq::<u8>::empty(),
            r.wr.out() == Seq::<u8>::empty(),
    {
        Stream { rd: ReadStream::new(), wr: WriteStream::new() }
    }

    /// Separate the two directions; each half keeps its pending bytes.
    pub fn split(self) -> (r: (ReadStream, WriteStream))
        ensures
            r.0 == self.rd,
            r.1 == self.wr,
    {
        (self.rd, self.wr)
    }
}

} // verus!
