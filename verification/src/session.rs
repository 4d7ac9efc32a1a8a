//! A connection whose owner reads and writes as if it blocked, such as an
//! asynchronous task.
use vstd::prelude::*;
use crate::clock::given_by_clock;
use crate::request::{httparse_request, process_request, MAX_HEADERS};
use crate::request_buf::{
    rewinding_frees_what_was_consumed, RequestBuf, RequestError, BUF_CAPACITY,
};
use crate::response::{is_date, response};

verus! {

/// What the owner of a session has to do after a read.
#[derive(Debug, Clone, Copy, PartialEq, Eq, Structural)]
pub enum SessionStep {
    /// To read again.
    ReadMore,
    /// To write the response, then to read again.
    Respond,
    /// To stop, as the client is done.
    Closed,
}

/// The input of a connection and the response to its last request.
pub struct Session {
    pub in_buf: RequestBuf,
    pub resp: Vec<u8>,
}

/// Where the next write of a response of `len` bytes has to begin, if `n` bytes were
/// written behind the first `pos`.
pub open spec fn next_write(len: nat, pos: int, n: int) -> Option<int> {
    if pos + n < len {
        Some(pos + n)
    } else {
        None
    }
}

impl Session {
    pub open spec fn wf(self) -> bool {
        &&& self.in_buf.wf()
        &&& self.in_buf.in_bounds()
    }

    /// Whether a read of `nread` bytes from the client at `peer` turns the session
    /// into `after`, with the result `r`.
    pub open spec fn reads(
        self,
        nread: usize,
        peer: Seq<char>,
        after: Session,
        r: Result<SessionStep, RequestError>,
    ) -> bool {
        let input = self.in_buf.data().subrange(self.in_buf.pos(), self.in_buf.end() + nread);
        &&& after.in_buf.data() == self.in_buf.data()
        &&& after.in_buf.end() == self.in_buf.end() + nread
        &&& if nread == 0 {
            &&& after.in_buf.pos() == self.in_buf.pos()
            &&& after.resp@ == self.resp@
            &&& r == (if input.len() > 0 {
                Err::<SessionStep, RequestError>(RequestError::Incomplete)
            } else {
                Ok(SessionStep::Closed)
            })
        } else {
            match httparse_request(input, MAX_HEADERS) {
                Ok(Some(head)) => {
                    &&& r == Ok::<SessionStep, RequestError>(SessionStep::Respond)
                    &&& 0 < head.0 <= input.len()
                    &&& after.in_buf.pos() == self.in_buf.pos() + head.0
                    &&& exists|now: Seq<char>| #[trigger]
                        is_date(now) && given_by_clock(now) && after.resp@ == response(peer, now)
                },
                Ok(None) => {
                    &&& r == Ok::<SessionStep, RequestError>(SessionStep::ReadMore)
                    &&& after.in_buf.pos() == self.in_buf.pos()
                    &&& after.resp@.len() == 0
                },
                Err(_) => {
                    &&& r == Err::<SessionStep, RequestError>(RequestError::Malformed)
                    &&& after.in_buf.pos() == self.in_buf.pos()
                    &&& after.resp@.len() == 0
                },
            }
        }
    }

    /// Whether to make room for a read turns the session into `after`, with the result
    /// `r`.
    pub open spec fn makes_room(self, after: Session, r: Result<(), RequestError>) -> bool {
        &&& self.in_buf.rewinds(after.in_buf)
        &&& after.resp@ == self.resp@
        &&& r == (if self.in_buf.is_full() {
            Err::<(), RequestError>(RequestError::TooBig)
        } else {
            Ok(())
        })
    }

    pub fn new() -> (r: Session)
        ensures
            r.wf(),
            r.in_buf.pos() == 0,
            r.in_buf.end() == 0,
            r.resp@.len() == 0,
    {
        Session { in_buf: RequestBuf::new(), resp: Vec::new() }
    }

    /// Makes room for a read.
    pub fn before_read(&mut self) -> (r: Result<(), RequestError>)
        requires
            old(self).wf(),
        ensures
            final(self).wf(),
            old(self).makes_room(*final(self), r),
            final(self).in_buf.pending() == old(self).in_buf.pending(),
            r is Ok ==> final(self).in_buf.room() > 0,
    {
        self.in_buf.rewind()
    }

    /// Takes note of a read, and answers the first request if it is complete. One
    /// that arrived in the same read waits for the next one.
    pub fn on_read(&mut self, nread: usize, peer_addr: &str) -> (r: Result<
        SessionStep,
        RequestError,
    >)
        requires
            old(self).wf(),
            nread <= old(self).in_buf.room(),
        ensures
            final(self).wf(),
            old(self).reads(nread, peer_addr@, *final(self), r),
    {
        self.in_buf.advance(nread)?;
        if nread == 0 {
            return Ok(SessionStep::Closed);
        }
        self.resp.clear();
        let outcome = process_request(&mut self.in_buf, peer_addr, &mut self.resp);
        proof {
            if outcome == Ok::<bool, RequestError>(true) {
                let now = choose|now: Seq<char>| #[trigger]
                    is_date(now) && given_by_clock(now) && self.resp@ == Seq::<u8>::empty() + response(peer_addr@, now);
                assert(self.resp@ =~= response(peer_addr@, now));
            }
        }
        Self::after_processing(outcome)
    }

    /// What the owner has to do after `process_request`.
    pub fn after_processing(outcome: Result<bool, RequestError>) -> (r: Result<
        SessionStep,
        RequestError,
    >)
        ensures
            r == (match outcome {
                Ok(true) => Ok::<SessionStep, RequestError>(SessionStep::Respond),
                Ok(false) => Ok(SessionStep::ReadMore),
                Err(e) => Err(e),
            }),
    {
        if outcome? {
            Ok(SessionStep::Respond)
        } else {
            Ok(SessionStep::ReadMore)
        }
    }

    /// What is left of the response once its first `pos` bytes were written.
    pub fn unsent(&self, pos: usize) -> (r: &[u8])
        requires
            pos <= self.resp@.len(),
        ensures
            r@ == self.resp@.skip(pos as int),
    {
        &self.resp.as_slice()[pos..self.resp.len()]
    }

    /// Takes note that `n` more bytes of the response were written, behind the first
    /// `pos`. The result is where the next write has to begin, or nothing if the
    /// whole response was written.
    pub fn on_written(&self, pos: usize, n: usize) -> (r: Option<usize>)
        requires
            pos + n <= self.resp@.len(),
        ensures
            r is Some <==> next_write(self.resp@.len(), pos as int, n as int) is Some,
            r matches Some(next) ==> next_write(self.resp@.len(), pos as int, n as int) == Some(
                next as int,
            ),
    {
        let len = self.resp.len();
        if pos + n < len {
            Some(pos + n)
        } else {
            None
        }
    }
}

/// A response is written on from where the last write ended, as long as that is not the
/// end.
pub proof fn writing_ends_with_the_response(len: nat, pos: int, n: int)
    ensures
        pos + n < len ==> next_write(len, pos, n) == Some(pos + n),
        pos + n >= len ==> next_write(len, pos, n) is None,
{
}

/// How a session reacts to a read: it ends if nothing was read, well if nothing is
/// pending. Otherwise it responds exactly if a complete request stands at the beginning
/// of its input, which is consumed then, waits for the rest of one that is not
/// complete, and is refused if there is none.
pub proof fn session_reacts(
    session: Session,
    nread: usize,
    peer: Seq<char>,
    after: Session,
    r: Result<SessionStep, RequestError>,
)
    requires
        session.wf(),
        nread <= session.in_buf.room(),
        session.reads(nread, peer, after, r),
    ensures
        nread == 0 ==> r == (if session.in_buf.pending().len() == 0 {
            Ok::<SessionStep, RequestError>(SessionStep::Closed)
        } else {
            Err(RequestError::Incomplete)
        }),
        nread > 0 ==> {
            let input = session.in_buf.data().subrange(
                session.in_buf.pos(),
                session.in_buf.end() + nread,
            );
            match httparse_request(input, MAX_HEADERS) {
                Ok(Some(head)) => {
                    &&& r == Ok::<SessionStep, RequestError>(SessionStep::Respond)
                    &&& 0 < head.0 <= input.len()
                    &&& after.in_buf.pending() == input.skip(head.0 as int)
                    &&& exists|now: Seq<char>| #[trigger]
                        given_by_clock(now) && after.resp@ == response(peer, now)
                },
                Ok(None) => {
                    &&& r == Ok::<SessionStep, RequestError>(SessionStep::ReadMore)
                    &&& after.in_buf.pending() == input
                    &&& after.resp@.len() == 0
                },
                Err(_) => r == Err::<SessionStep, RequestError>(RequestError::Malformed),
            }
        },
{
    let input = session.in_buf.data().subrange(session.in_buf.pos(), session.in_buf.end() + nread);
    if let Ok(Some(head)) = httparse_request(input, MAX_HEADERS) {
        if nread > 0 {
            assert(after.in_buf.pending() =~= input.skip(head.0 as int));
        }
    }
}

/// A session is refused as too big exactly if its pending bytes fill the buffer.
/// Otherwise there is room for a read: what is left behind the pending bytes, or all
/// that is free if nothing is left there.
pub proof fn session_makes_room(session: Session, after: Session, r: Result<(), RequestError>)
    requires
        session.wf(),
        session.makes_room(after, r),
    ensures
        after.in_buf.pending() == session.in_buf.pending(),
        r == (if session.in_buf.pending().len() == BUF_CAPACITY {
            Err::<(), RequestError>(RequestError::TooBig)
        } else {
            Ok(())
        }),
        session.in_buf.end() < BUF_CAPACITY ==> after.in_buf.space().len() == BUF_CAPACITY
            - session.in_buf.end(),
        session.in_buf.end() == BUF_CAPACITY ==> after.in_buf.space().len() == BUF_CAPACITY
            - session.in_buf.pending().len(),
{
    rewinding_frees_what_was_consumed(session.in_buf, after.in_buf);
}

} // verus!
