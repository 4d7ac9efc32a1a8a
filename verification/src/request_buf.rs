use vstd::prelude::*;

verus! {

/// Number of bytes that a connection buffers. A request whose head does not
/// fit is refused.
pub const BUF_CAPACITY: usize = 4096;

/// Why the bytes that a connection delivered were refused.
#[derive(Debug, Clone, Copy, PartialEq, Eq, Structural)]
pub enum RequestError {
    /// The peer stopped sending in the middle of a request.
    Incomplete,
    /// The request does not fit into the buffer.
    TooBig,
    /// The bytes are no HTTP request.
    Malformed,
}

impl RequestError {
    pub open spec fn spec_message(self) -> Seq<char> {
        match self {
            RequestError::Incomplete => "incomplete request"@,
            RequestError::TooBig => "request too big"@,
            RequestError::Malformed => "could not parse request"@,
        }
    }

    /// The text that describes the error.
    pub fn message(&self) -> (r: &'static str)
        ensures
            r@ == self.spec_message(),
    {
        match self {
            RequestError::Incomplete => "incomplete request",
            RequestError::TooBig => "request too big",
            RequestError::Malformed => "could not parse request",
        }
    }
}

/// `<[T]>::rotate_left` moves the first `mid` elements of the slice behind the
/// others and keeps the order inside both groups. It panics if `mid` exceeds
/// the length of the slice.
pub assume_specification<A>[ <[A]>::rotate_left ](slice: &mut [A], mid: usize)
    requires
        mid <= old(slice)@.len(),
    ensures
        final(slice)@ == old(slice)@.skip(mid as int) + old(slice)@.take(mid as int),
;

/// A read buffer of fixed size.
///
/// Bytes enter at `end` and leave at `pos`. Those between the two are pending:
/// they were read and no request has consumed them yet.
pub struct RequestBuf {
    buf: Vec<u8>,
    pos: usize,
    end: usize,
}

impl RequestBuf {
    /// The whole storage, pending or not.
    pub closed spec fn data(self) -> Seq<u8> {
        self.buf@
    }

    /// Where the first pending byte lies.
    pub closed spec fn pos(self) -> int {
        self.pos as int
    }

    /// Where the next byte that is read will lie.
    pub closed spec fn end(self) -> int {
        self.end as int
    }

    /// What every operation keeps.
    pub open spec fn wf(self) -> bool {
        &&& self.data().len() == BUF_CAPACITY
        &&& 0 <= self.pos() <= self.end() <= usize::MAX
        &&& self.pos() <= BUF_CAPACITY
    }

    /// Whether no more bytes were announced than the storage holds.
    pub open spec fn in_bounds(self) -> bool {
        self.end() <= BUF_CAPACITY
    }

    /// The bytes that were read and that no request has consumed yet.
    pub open spec fn pending(self) -> Seq<u8> {
        self.data().subrange(self.pos(), self.end())
    }

    /// How many bytes can be read before the buffer has to be rewound.
    pub open spec fn room(self) -> int {
        BUF_CAPACITY - self.end()
    }

    /// Whether the pending bytes fill the whole storage.
    pub open spec fn is_full(self) -> bool {
        self.pos() == 0 && self.end() == BUF_CAPACITY
    }

    /// Whether two buffers agree in their storage and in both positions.
    pub open spec fn same(self, other: RequestBuf) -> bool {
        &&& self.data() == other.data()
        &&& self.pos() == other.pos()
        &&& self.end() == other.end()
    }

    /// The space behind `end`, for a read to fill.
    pub open spec fn space(self) -> Seq<u8> {
        self.data().skip(self.end())
    }

    /// Whether `after` is the buffer once something was put into the space that
    /// `as_mut` gave.
    pub open spec fn fills(self, after: RequestBuf) -> bool {
        &&& after.data().len() == self.data().len()
        &&& after.data().take(self.end()) == self.data().take(self.end())
        &&& after.pos() == self.pos()
        &&& after.end() == self.end()
    }

    /// Whether `after` is the buffer once room was made for the next read.
    pub open spec fn rewinds(self, after: RequestBuf) -> bool {
        if self.pos() == BUF_CAPACITY {
            // everything was consumed: start over
            &&& after.data() == self.data()
            &&& after.pos() == 0
            &&& after.end() == 0
        } else if self.pos() > 0 && self.end() == BUF_CAPACITY {
            // the end is reached inside a request: move its beginning to the front
            &&& after.data() == self.data().skip(self.pos()) + self.data().take(self.pos())
            &&& after.pos() == 0
            &&& after.end() == BUF_CAPACITY - self.pos()
        } else {
            // there is room already, or there can be none
            after.same(self)
        }
    }

    /// An empty buffer.
    pub fn new() -> (r: RequestBuf)
        ensures
            r.wf(),
            r.in_bounds(),
            r.data() == Seq::new(BUF_CAPACITY as nat, |i: int| 0u8),
            r.pos() == 0,
            r.end() == 0,
    {
        let r = RequestBuf { buf: vec![0u8;BUF_CAPACITY], pos: 0, end: 0 };
        assert(r.data() =~= Seq::new(BUF_CAPACITY as nat, |i: int| 0u8));
        r
    }

    /// Adds the `nread` bytes behind `end` to the pending ones. To read nothing
    /// means that the peer is done, which is an error inside a request.
    pub fn advance(&mut self, nread: usize) -> (r: Result<(), RequestError>)
        requires
            old(self).wf(),
            old(self).end() + nread <= usize::MAX,
        ensures
            final(self).wf(),
            r == (if nread == 0 && old(self).pos() != old(self).end() {
                Err::<(), RequestError>(RequestError::Incomplete)
            } else {
                Ok(())
            }),
            final(self).data() == old(self).data(),
            final(self).pos() == old(self).pos(),
            final(self).end() == old(self).end() + nread,
            nread <= old(self).room() ==> final(self).in_bounds(),
    {
        if nread == 0 && self.pos != self.end {
            return Err(RequestError::Incomplete);
        }
        self.end += nread;
        Ok(())
    }

    /// Makes room for the next read, and keeps what is pending. That fails if
    /// the pending bytes fill the whole buffer.
    pub fn rewind(&mut self) -> (r: Result<(), RequestError>)
        requires
            old(self).wf(),
        ensures
            final(self).wf(),
            r == (if old(self).is_full() {
                Err::<(), RequestError>(RequestError::TooBig)
            } else {
                Ok(())
            }),
            old(self).rewinds(*final(self)),
            old(self).in_bounds() ==> {
                &&& final(self).in_bounds()
                &&& final(self).pending() == old(self).pending()
                &&& r is Ok ==> final(self).room() > 0
            },
    {
        if self.pos == self.buf.len() {
            self.pos = 0;
            self.end = 0;
            assert(old(self).in_bounds() ==> self.pending() =~= old(self).pending());
        } else if self.end == self.buf.len() {
            if self.pos == 0 {
                return Err(RequestError::TooBig);
            } else {
                self.buf.rotate_left(self.pos);
                self.end = self.end - self.pos;
                self.pos = 0;
                assert(self.pending() =~= old(self).pending());
            }
        }
        Ok(())
    }

    /// The space behind `end`, for a read to fill.
    pub fn as_mut(&mut self) -> (r: &mut [u8])
        requires
            old(self).wf(),
            old(self).in_bounds(),
        ensures
            r@ == old(self).space(),
            final(self).data() == old(self).data().take(old(self).end()) + final(r)@,
            final(self).pos() == old(self).pos(),
            final(self).end() == old(self).end(),
            final(r)@.len() == r@.len() ==> {
                &&& final(self).wf()
                &&& final(self).in_bounds()
                &&& old(self).fills(*final(self))
            },
    {
        proof {
            let kept = self.data().take(self.end());
            assert forall|space: Seq<u8>| #[trigger] (kept + space).take(self.end()) == kept by {
                assert((kept + space).take(self.end()) =~= kept);
            }
        }
        let (_, spare) = self.buf.as_mut_slice().split_at_mut(self.end);
        spare
    }

    /// The bytes that were read and that no request has consumed yet.
    pub fn pending_bytes(&self) -> (r: &[u8])
        requires
            self.wf(),
            self.in_bounds(),
        ensures
            r@ == self.pending(),
    {
        &self.buf.as_slice()[self.pos..self.end]
    }

    /// Drops the first `n` pending bytes.
    pub(crate) fn consume(&mut self, n: usize)
        requires
            old(self).wf(),
            old(self).in_bounds(),
            n <= old(self).pending().len(),
        ensures
            final(self).wf(),
            final(self).in_bounds(),
            final(self).data() == old(self).data(),
            final(self).pos() == old(self).pos() + n,
            final(self).end() == old(self).end(),
            final(self).pending() == old(self).pending().skip(n as int),
    {
        self.pos += n;
        assert(self.pending() =~= old(self).pending().skip(n as int));
    }
}

/// What was put into the space that `as_mut` gave is pending once `advance`
/// has announced it, behind everything that was pending before.
///
/// `filled` is the buffer after the space was written, `advanced` the one after
/// `advance(n)`.
pub proof fn reads_are_appended(
    before: RequestBuf,
    space: Seq<u8>,
    filled: RequestBuf,
    advanced: RequestBuf,
    n: int,
)
    requires
        before.wf(),
        before.in_bounds(),
        space.len() == before.room(),
        filled.data() == before.data().take(before.end()) + space,
        filled.pos() == before.pos(),
        filled.end() == before.end(),
        0 <= n <= before.room(),
        advanced.data() == filled.data(),
        advanced.pos() == filled.pos(),
        advanced.end() == filled.end() + n,
    ensures
        filled.pending() == before.pending(),
        advanced.pending() == before.pending() + space.take(n),
{
    assert(filled.pending() =~= before.pending());
    assert(advanced.pending() =~= before.pending() + space.take(n));
}

/// To rewind loses nothing, and fails only if nothing is free. If the end of the
/// storage was reached, all that is free is offered to the next read; otherwise the
/// buffer stays as it is.
pub proof fn rewinding_frees_what_was_consumed(before: RequestBuf, after: RequestBuf)
    requires
        before.wf(),
        before.in_bounds(),
        before.rewinds(after),
    ensures
        after.pending() == before.pending(),
        before.pending().len() < BUF_CAPACITY ==> after.space().len() > 0,
        before.end() == BUF_CAPACITY ==> after.space().len() == BUF_CAPACITY
            - before.pending().len(),
        before.end() < BUF_CAPACITY ==> after.same(before),
{
    assert(after.pending() =~= before.pending());
}

/// All of the storage behind `end` is offered to a read.
pub proof fn space_is_all_that_is_left(buf: RequestBuf)
    requires
        buf.wf(),
        buf.in_bounds(),
    ensures
        buf.space().len() == BUF_CAPACITY - buf.end(),
        buf.space().len() == buf.room(),
{
}

/// What is put into the space of a buffer leaves what is pending.
pub(crate) proof fn lemma_fill_keeps_pending(before: RequestBuf, after: RequestBuf)
    requires
        before.wf(),
        before.in_bounds(),
        before.fills(after),
    ensures
        after.wf(),
        after.in_bounds(),
        after.pending() == before.pending(),
{
    assert(before.pending() =~= before.data().take(before.end()).skip(before.pos()));
    assert(after.pending() =~= after.data().take(after.end()).skip(after.pos()));
}

/// The buffer is full exactly if as many bytes are pending as it can hold. So no
/// request is refused as too big before that many bytes of it are there.
pub proof fn full_means_capacity_pending(buf: RequestBuf)
    requires
        buf.wf(),
        buf.in_bounds(),
    ensures
        buf.is_full() <==> buf.pending().len() == BUF_CAPACITY,
{
}

} // verus!
