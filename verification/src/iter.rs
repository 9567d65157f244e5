use vstd::prelude::*;

verus! {

/// What a read from the underlying stream came back with: the bytes it wrote into
/// the space it was offered (`Ok`, possibly none at the end of the stream), or a failure.
pub type ReadOutcome<'a> = Result<&'a [u8], ()>;

/// Reads a stream one byte at a time through a one-byte buffer.
///
/// The stream itself is read by the caller: it offers the one-byte buffer to the
/// stream's `read` and hands the outcome to [`ByteIter::complete`].
pub struct ByteIter {
    buf: [u8; 1],
}

impl ByteIter {
    /// The byte held in the buffer.
    pub closed spec fn held(&self) -> u8 {
        self.buf@[0]
    }

    /// A reader whose buffer holds `0`.
    pub fn new() -> (r: Self)
        ensures
            r.held() == 0,
    {
        ByteIter { buf: [0u8; 1] }
    }

    /// The size of the space to offer to the stream's `read`.
    pub fn space(&self) -> (r: usize)
        ensures
            r == 1,
    {
        1
    }

    /// The next byte of the stream, from the outcome of a read into the one-byte
    /// buffer: the byte read, or `None` when the read wrote nothing (end of the stream) or failed.
    pub fn complete(&mut self, read: ReadOutcome) -> (r: Option<u8>)
        requires
            read matches Ok(d) ==> d@.len() <= 1,
        ensures
            match read {
                Ok(d) => if d@.len() == 0 {
                    r is None && final(self).held() == old(self).held()
                } else {
                    r == Some(d@[0]) && final(self).held() == d@[0]
                },
                Err(_) => r is None && final(self).held() == old(self).held(),
            },
    {
        match read {
            Ok(d) => {
                if d.len() < 1 {
                    None
                } else {
                    self.buf[0] = d[0];
                    Some(self.buf[0])
                }
            },
            Err(_) => None,
        }
    }
}

/// What [`BufferedReadIter::next`] asks for.
pub enum Step {
    /// The next byte of the stream.
    Byte(u8),
    /// The buffer is used up: read from the stream into [`BufferedReadIter::space`] bytes
    /// and hand the outcome to [`BufferedReadIter::complete`].
    Read,
}

/// Reads a stream through a buffer of fixed size: a read fills the buffer, and the
/// bytes are then handed out one at a time until the buffer is used up.
pub struct BufferedReadIter {
    buffer: Vec<u8>,
    buffer_len: usize,
    buffer_push: usize,
    received: Ghost<Seq<u8>>,
    delivered: Ghost<Seq<u8>>,
}

impl BufferedReadIter {
    /// The size of the buffer.
    pub closed spec fn capacity(&self) -> nat {
        self.buffer@.len()
    }

    /// The bytes read from the stream and not yet handed out, in order.
    pub closed spec fn pending(&self) -> Seq<u8> {
        self.buffer@.subrange(self.buffer_push as int, self.buffer_push + self.buffer_len)
    }

    /// All the bytes that the reads have produced, in order.
    pub closed spec fn received(&self) -> Seq<u8> {
        self.received@
    }

    /// All the bytes handed out, in order.
    pub closed spec fn delivered(&self) -> Seq<u8> {
        self.delivered@
    }

    /// The size of the space that the next read may fill: what follows the pending bytes.
    pub closed spec fn space_spec(&self) -> int {
        self.buffer@.len() - self.buffer_push - self.buffer_len
    }

    /// The pending bytes lie in the buffer.
    pub closed spec fn wf(&self) -> bool {
        &&& self.buffer_push + self.buffer_len <= self.buffer@.len()
        &&& self.buffer@.len() <= usize::MAX
        &&& self.delivered@ + self.pending() == self.received@
    }

    /// When the reader has nothing pending (as when it answers the end of the stream
    /// with `None`), it has handed out every byte the reads produced, each once, in order.
    pub proof fn law_drained_delivers_everything(&self)
        requires
            self.wf(),
            self.pending().len() == 0,
        ensures
            self.delivered() == self.received(),
    {
        assert(self.delivered@ + self.pending() =~= self.delivered@);
    }

    /// No byte is lost, duplicated or reordered: the bytes handed out followed by
    /// those pending are exactly the bytes that the reads produced.
    pub proof fn law_bytes_conserved(&self)
        requires
            self.wf(),
        ensures
            self.delivered() + self.pending() == self.received(),
    {
    }

    /// A reader with a buffer of `buffer_len` bytes and nothing pending.
    pub fn new(buffer_len: usize) -> (r: Self)
        ensures
            r.wf(),
            r.capacity() == buffer_len,
            r.pending() == Seq::<u8>::empty(),
            r.received() == Seq::<u8>::empty(),
            r.delivered() == Seq::<u8>::empty(),
    {
        let buffer = vec![0u8; buffer_len];
        let r = BufferedReadIter {
            buffer,
            buffer_len: 0,
            buffer_push: 0,
            received: Ghost(Seq::empty()),
            delivered: Ghost(Seq::empty()),
        };
        assert(r.pending() =~= Seq::<u8>::empty());
        assert(r.delivered@ + r.pending() =~= r.received@);
        r
    }

    /// The size of the space that the next read may fill.
    pub fn space(&self) -> (r: usize)
        requires
            self.wf(),
        ensures
            r == self.space_spec(),
    {
        self.buffer.len() - self.buffer_push - self.buffer_len
    }

    /// The next pending byte, or, when none is pending, a request to read.
    pub fn next(&mut self) -> (r: Step)
        requires
            old(self).wf(),
        ensures
            final(self).wf(),
            final(self).capacity() == old(self).capacity(),
            final(self).received() == old(self).received(),
            old(self).pending().len() > 0 ==> r == Step::Byte(old(self).pending()[0])
                && final(self).pending() == old(self).pending().drop_first()
                && final(self).delivered() == old(self).delivered().push(old(self).pending()[0]),
            old(self).pending().len() == 0 ==> r == Step::Read
                && final(self).pending() == Seq::<u8>::empty()
                && final(self).space_spec() == final(self).capacity()
                && final(self).delivered() == old(self).delivered(),
    {
        if self.buffer_len > 0 {
            let output = self.buffer[self.buffer_push];
            self.buffer_push = self.buffer_push + 1;
            self.buffer_len = self.buffer_len - 1;
            assert(self.pending() =~= old(self).pending().drop_first());
            proof {
                self.delivered@ = self.delivered@.push(output);
                assert(self.delivered@ + self.pending() =~= old(self).delivered@ + old(self).pending());
            }
            return Step::Byte(output);
        }
        self.buffer_push = 0;
        assert(self.pending() =~= Seq::<u8>::empty());
        assert(self.delivered@ + self.pending() =~= old(self).delivered@ + old(self).pending());
        Step::Read
    }

    /// Takes the outcome of a read into the space that [`BufferedReadIter::next`] asked
    /// to fill, and hands out the first byte read: `None` when the read wrote nothing
    /// (the end of the stream) or failed.
    pub fn complete(&mut self, read: ReadOutcome) -> (r: Option<u8>)
        requires
            old(self).wf(),
            old(self).pending().len() == 0,
            read matches Ok(d) ==> d@.len() <= old(self).space_spec(),
        ensures
            final(self).wf(),
            final(self).capacity() == old(self).capacity(),
            match read {
                Ok(d) => if d@.len() == 0 {
                    r is None && final(self).pending() == Seq::<u8>::empty()
                        && final(self).received() == old(self).received()
                        && final(self).delivered() == old(self).delivered()
                        && final(self).delivered() == final(self).received()
                } else {
                    r == Some(d@[0]) && final(self).pending() == d@.drop_first()
                        && final(self).received() == old(self).received() + d@
                        && final(self).delivered() == old(self).delivered().push(d@[0])
                },
                Err(_) => r is None && final(self).pending() == Seq::<u8>::empty()
                    && final(self).received() == old(self).received()
                    && final(self).delivered() == old(self).delivered(),
            },
    {
        match read {
            Ok(d) => {
                let start = self.buffer_push + self.buffer_len;
                let mut i: usize = 0;
                while i < d.len()
                    invariant
                        self.buffer@.len() == old(self).buffer@.len(),
                        self.buffer_push == old(self).buffer_push,
                        self.buffer_len == old(self).buffer_len,
                        self.received == old(self).received,
                        self.delivered == old(self).delivered,
                        start == self.buffer_push + self.buffer_len,
                        start + d@.len() <= self.buffer@.len(),
                        self.buffer@.len() <= usize::MAX,
                        i <= d@.len(),
                        forall|j: int| 0 <= j < i ==> self.buffer@[start + j] == d@[j],
                    decreases d@.len() - i,
                {
                    self.buffer.set(start + i, d[i]);
                    i = i + 1;
                }
                self.buffer_len = self.buffer_len + d.len();
                assert(self.pending() =~= d@);
                proof {
                    self.received@ = self.received@ + d@;
                    assert(old(self).pending() =~= Seq::<u8>::empty());
                    assert(self.delivered@ + self.pending() =~= self.received@);
                }
                if self.buffer_len == 0 {
                    None
                } else {
                    let output = self.buffer[self.buffer_push];
                    self.buffer_push = self.buffer_push + 1;
                    self.buffer_len = self.buffer_len - 1;
                    assert(self.pending() =~= d@.drop_first());
                    proof {
                        self.delivered@ = self.delivered@.push(output);
                        assert(self.delivered@ + self.pending() =~= self.received@);
                    }
                    Some(output)
                }
            },
            Err(_) => None,
        }
    }
}

} // verus!
