//! One connection of a non-blocking server: it reads requests, answers each of
//! them, and asks its owner for the I/O that this takes.
use vstd::prelude::*;
use crate::clock::given_by_clock;
use crate::request::{httparse_request, process_request, MAX_HEADERS};
use crate::request_buf::{RequestBuf, RequestError, BUF_CAPACITY};
use crate::response::{is_date, lemma_response_not_empty, response};

verus! {

/// What a connection is busy with.
#[derive(Debug, Clone, Copy, PartialEq, Eq, Structural)]
pub enum State {
    ReadingRequests,
    Processing,
    SendingResponse,
    Closing,
}

/// What happened since a connection was last asked to proceed.
#[derive(Debug, Clone, Copy, PartialEq, Eq, Structural)]
pub enum Event {
    /// Nothing: the connection got its turn.
    Start,
    /// So many bytes were read into the space of the input buffer.
    Read(usize),
    /// So many of the unsent bytes were written.
    Wrote(usize),
    /// The read or the write that it asked for would have blocked.
    Blocked,
}

/// What a connection needs in order to proceed.
#[derive(Debug, Clone, Copy, PartialEq, Eq, Structural)]
pub enum Action {
    /// To read into the space of the input buffer.
    Read,
    /// To write the unsent bytes.
    Write,
    /// To wait until its socket is ready again.
    Wait,
    /// To let others have their turn.
    Pause,
    /// To be dropped, as the client is done.
    Close,
}

/// The input and the output of a connection.
pub struct Exchange {
    pub state: State,
    pub peer_addr: String,
    pub in_buf: RequestBuf,
    pub out_buf: Vec<u8>,
    pub out_pos: usize,
}

impl Exchange {
    /// A response is being sent as long as some of it is unsent, and there is
    /// none at any other time.
    pub open spec fn wf(self) -> bool {
        &&& self.in_buf.wf()
        &&& self.in_buf.in_bounds()
        &&& self.out_pos <= self.out_buf@.len()
        &&& self.state == State::SendingResponse <==> self.out_pos < self.out_buf@.len()
        &&& self.state != State::SendingResponse ==> self.out_buf@.len() == 0
    }

    /// Whether nothing was exchanged yet with the client at `peer`.
    pub open spec fn is_new(self, peer: Seq<char>) -> bool {
        &&& self.state == State::ReadingRequests
        &&& self.peer_addr@ == peer
        &&& self.in_buf.pos() == 0
        &&& self.in_buf.end() == 0
        &&& self.spec_unsent() == Seq::<u8>::empty()
    }

    /// What is left of the response.
    pub open spec fn spec_unsent(self) -> Seq<u8> {
        self.out_buf@.skip(self.out_pos as int)
    }

    /// Whether an event can happen to the connection.
    pub open spec fn accepts(self, event: Event) -> bool {
        match event {
            Event::Start => true,
            Event::Read(n) => self.state == State::ReadingRequests && n <= self.in_buf.room(),
            Event::Wrote(n) => self.state == State::SendingResponse && n
                <= self.spec_unsent().len(),
            Event::Blocked => self.state == State::ReadingRequests || self.state
                == State::SendingResponse,
        }
    }

    /// Whether `after` is the same connection, busy with the same.
    pub open spec fn stays(self, after: Exchange) -> bool {
        &&& after.state == self.state
        &&& after.peer_addr@ == self.peer_addr@
        &&& after.in_buf.same(self.in_buf)
        &&& after.spec_unsent() == self.spec_unsent()
    }

    /// Whether `after` is the connection once its owner put something into the space
    /// of the input buffer.
    pub open spec fn fills(self, after: Exchange) -> bool {
        &&& after.state == self.state
        &&& after.peer_addr@ == self.peer_addr@
        &&& self.in_buf.fills(after.in_buf)
        &&& after.out_buf@ == self.out_buf@
        &&& after.out_pos == self.out_pos
    }

    /// Whether the event turns the connection into `after`, with the result `r`.
    pub open spec fn delivers(self, event: Event, after: Exchange, r: Result<(), RequestError>) -> bool {
        &&& after.peer_addr@ == self.peer_addr@
        &&& match event {
            Event::Start | Event::Blocked => {
                &&& r == Ok::<(), RequestError>(())
                &&& self.stays(after)
            },
            Event::Read(n) => {
                &&& after.in_buf.data() == self.in_buf.data()
                &&& after.in_buf.pos() == self.in_buf.pos()
                &&& after.in_buf.end() == self.in_buf.end() + n
                &&& after.spec_unsent() == self.spec_unsent()
                &&& if n > 0 {
                    // there is more to look at
                    &&& r == Ok::<(), RequestError>(())
                    &&& after.state == State::Processing
                } else if self.in_buf.pending().len() > 0 {
                    // the client left in the middle of a request
                    &&& r == Err::<(), RequestError>(RequestError::Incomplete)
                    &&& after.state == self.state
                } else {
                    // the client left between two requests
                    &&& r == Ok::<(), RequestError>(())
                    &&& after.state == State::Closing
                }
            },
            Event::Wrote(n) => {
                &&& r == Ok::<(), RequestError>(())
                &&& after.in_buf.same(self.in_buf)
                &&& after.spec_unsent() == self.spec_unsent().skip(n as int)
                &&& after.state == if n == self.spec_unsent().len() {
                    State::Processing
                } else {
                    State::SendingResponse
                }
            },
        }
    }

    /// Whether the connection proceeds to `after` by itself, with the result `r`.
    pub open spec fn proceeds(self, after: Exchange, r: Result<Action, RequestError>) -> bool {
        &&& after.peer_addr@ == self.peer_addr@
        &&& match self.state {
            State::ReadingRequests => {
                &&& after.state == self.state
                &&& after.spec_unsent() == self.spec_unsent()
                &&& self.in_buf.rewinds(after.in_buf)
                &&& after.in_buf.pending() == self.in_buf.pending()
                &&& if self.in_buf.is_full() {
                    r == Err::<Action, RequestError>(RequestError::TooBig)
                } else {
                    &&& r == Ok::<Action, RequestError>(Action::Read)
                    &&& after.in_buf.room() > 0
                }
            },
            State::Processing => {
                &&& after.in_buf.data() == self.in_buf.data()
                &&& after.in_buf.end() == self.in_buf.end()
                &&& self.in_buf.pending().len() == 0 ==> r == Ok::<Action, RequestError>(
                    Action::Pause,
                )
                &&& match httparse_request(self.in_buf.pending(), MAX_HEADERS) {
                    Ok(Some(head)) => {
                        // the request is answered
                        &&& r == Ok::<Action, RequestError>(Action::Write)
                        &&& after.state == State::SendingResponse
                        &&& 0 < head.0 <= self.in_buf.pending().len()
                        &&& after.in_buf.pending() == self.in_buf.pending().skip(head.0 as int)
                        &&& exists|now: Seq<char>| #[trigger]
                            is_date(now) && given_by_clock(now) && after.spec_unsent() == response(self.peer_addr@, now)
                    },
                    Ok(None) => {
                        // the rest of the request has to be read
                        &&& r == Ok::<Action, RequestError>(Action::Pause)
                        &&& after.state == State::ReadingRequests
                        &&& after.in_buf.pos() == self.in_buf.pos()
                        &&& after.spec_unsent() == self.spec_unsent()
                    },
                    Err(_) => {
                        &&& r == Err::<Action, RequestError>(RequestError::Malformed)
                        &&& self.stays(after)
                    },
                }
            },
            State::SendingResponse => {
                &&& r == Ok::<Action, RequestError>(Action::Write)
                &&& self.stays(after)
            },
            State::Closing => {
                &&& r == Ok::<Action, RequestError>(Action::Close)
                &&& self.stays(after)
            },
        }
    }

    /// A connection that was just accepted.
    pub fn new(peer_addr: String) -> (r: Exchange)
        ensures
            r.wf(),
            r.is_new(peer_addr@),
    {
        let r = Exchange {
            state: State::ReadingRequests,
            peer_addr,
            in_buf: RequestBuf::new(),
            out_buf: Vec::new(),
            out_pos: 0,
        };
        assert(r.spec_unsent() =~= Seq::<u8>::empty());
        r
    }

    /// What is left of the response.
    pub fn unsent(&self) -> (r: &[u8])
        requires
            self.wf(),
        ensures
            r@ == self.spec_unsent(),
    {
        &self.out_buf.as_slice()[self.out_pos..self.out_buf.len()]
    }

    fn deliver(&mut self, event: Event) -> (r: Result<(), RequestError>)
        requires
            old(self).wf(),
            old(self).accepts(event),
        ensures
            final(self).wf(),
            old(self).delivers(event, *final(self), r),
    {
        match event {
            Event::Start | Event::Blocked => {},
            Event::Read(nread) => {
                self.in_buf.advance(nread)?;
                self.state = if nread == 0 {
                    State::Closing
                } else {
                    State::Processing
                };
            },
            Event::Wrote(nwritten) => {
                let len = self.out_buf.len();
                self.out_pos += nwritten;
                if self.out_pos == len {
                    self.out_buf.clear();
                    self.out_pos = 0;
                    self.state = State::Processing;
                }
                assert(self.spec_unsent() =~= old(self).spec_unsent().skip(nwritten as int));
            },
        }
        Ok(())
    }

    /// Turns to what follows from the outcome of `process_request`.
    pub fn processed(&mut self, outcome: Result<bool, RequestError>) -> (r: Result<
        Action,
        RequestError,
    >)
        requires
            old(self).state == State::Processing,
            old(self).in_buf.wf(),
            old(self).in_buf.in_bounds(),
            old(self).out_pos == 0,
            outcome == Ok::<bool, RequestError>(true) <==> old(self).out_buf@.len() > 0,
        ensures
            final(self).wf(),
            final(self).peer_addr@ == old(self).peer_addr@,
            final(self).in_buf.same(old(self).in_buf),
            final(self).spec_unsent() == old(self).spec_unsent(),
            r == (match outcome {
                Ok(true) => Ok::<Action, RequestError>(Action::Write),
                Ok(false) => Ok(Action::Pause),
                Err(e) => Err(e),
            }),
            final(self).state == (match outcome {
                Ok(true) => State::SendingResponse,
                Ok(false) => State::ReadingRequests,
                Err(_) => State::Processing,
            }),
    {
        if outcome? {
            self.state = State::SendingResponse;
            Ok(Action::Write)
        } else {
            self.state = State::ReadingRequests;
            Ok(Action::Pause)
        }
    }

    fn proceed(&mut self) -> (r: Result<Action, RequestError>)
        requires
            old(self).wf(),
        ensures
            final(self).wf(),
            old(self).proceeds(*final(self), r),
    {
        match self.state {
            State::ReadingRequests => {
                self.in_buf.rewind()?;
                Ok(Action::Read)
            },
            State::Processing => {
                let outcome = process_request(
                    &mut self.in_buf,
                    self.peer_addr.as_str(),
                    &mut self.out_buf,
                );
                proof {
                    if outcome == Ok::<bool, RequestError>(true) {
                        let now = choose|now: Seq<char>| #[trigger]
                            is_date(now) && given_by_clock(now) && self.out_buf@ == old(self).out_buf@ + response(
                                old(self).peer_addr@,
                                now,
                            );
                        lemma_response_not_empty(self.peer_addr@, now);
                        assert(self.spec_unsent() =~= response(self.peer_addr@, now));
                    }
                }
                self.processed(outcome)
            },
            State::SendingResponse => Ok(Action::Write),
            State::Closing => Ok(Action::Close),
        }
    }

    /// Takes note of an event and proceeds until the connection needs something.
    pub fn make_progress(&mut self, event: Event) -> (r: Result<Action, RequestError>)
        requires
            old(self).wf(),
            old(self).accepts(event),
        ensures
            final(self).wf(),
            old(self).progresses(event, *final(self), r),
    {
        self.deliver(event)?;
        match event {
            Event::Blocked => Ok(Action::Wait),
            _ => self.proceed(),
        }
    }

    /// Whether the event, and what the connection does next by itself, turn it
    /// into `after` with the result `r`.
    pub open spec fn progresses(
        self,
        event: Event,
        after: Exchange,
        r: Result<Action, RequestError>,
    ) -> bool {
        exists|between: Exchange, delivered: Result<(), RequestError>| #[trigger]
            self.delivers(event, between, delivered) && match delivered {
                Ok(_) => if event == Event::Blocked {
                    after == between && r == Ok::<Action, RequestError>(Action::Wait)
                } else {
                    between.proceeds(after, r)
                },
                Err(e) => after == between && r == Err::<Action, RequestError>(e),
            }
    }
}

/// How a connection reacts to each event.
///
/// One that would have blocked waits, and is the same afterwards. At the end of the
/// input it is closed if nothing is pending, and refused otherwise. As long as some of
/// a response is unsent, that is written. A connection that reads is refused as too
/// big exactly if its pending bytes fill the buffer; in any other case it asks for a
/// read. And once it has read something, or sent a whole response, it answers the
/// request at the beginning of its input if that is complete, waits for the rest if it
/// is not, and is refused if it is no request.
pub proof fn connection_reacts(
    conn: Exchange,
    event: Event,
    after: Exchange,
    r: Result<Action, RequestError>,
)
    requires
        conn.wf(),
        conn.accepts(event),
        conn.progresses(event, after, r),
    ensures
        after.peer_addr@ == conn.peer_addr@,
        event == Event::Blocked ==> {
            &&& r == Ok::<Action, RequestError>(Action::Wait)
            &&& after.state == conn.state
            &&& after.in_buf.same(conn.in_buf)
            &&& after.spec_unsent() == conn.spec_unsent()
        },
        event == Event::Read(0) ==> r == (if conn.in_buf.pending().len() == 0 {
            Ok::<Action, RequestError>(Action::Close)
        } else {
            Err(RequestError::Incomplete)
        }),
        event == Event::Start && conn.state == State::Closing ==> r == Ok::<Action, RequestError>(
            Action::Close,
        ),
        event == Event::Start && conn.state == State::SendingResponse ==> {
            &&& r == Ok::<Action, RequestError>(Action::Write)
            &&& after.spec_unsent() == conn.spec_unsent()
            &&& after.in_buf.same(conn.in_buf)
        },
        event matches Event::Wrote(n) && n < conn.spec_unsent().len() ==> {
            &&& r == Ok::<Action, RequestError>(Action::Write)
            &&& after.spec_unsent() == conn.spec_unsent().skip(event->Wrote_0 as int)
            &&& after.in_buf.same(conn.in_buf)
        },
        event == Event::Start && conn.state == State::ReadingRequests ==> {
            &&& after.in_buf.pending() == conn.in_buf.pending()
            &&& r == (if conn.in_buf.pending().len() == BUF_CAPACITY {
                Err::<Action, RequestError>(RequestError::TooBig)
            } else {
                Ok(Action::Read)
            })
            &&& conn.in_buf.end() < BUF_CAPACITY ==> after.in_buf.same(conn.in_buf)
            &&& conn.in_buf.end() == BUF_CAPACITY ==> after.in_buf.end()
                == conn.in_buf.pending().len()
        },
        ({
            let n = match event {
                Event::Read(n) => n as int,
                _ => 0,
            };
            let input = conn.in_buf.data().subrange(conn.in_buf.pos(), conn.in_buf.end() + n);
            let looks = match event {
                Event::Start => conn.state == State::Processing,
                Event::Read(n) => n > 0,
                Event::Wrote(n) => n == conn.spec_unsent().len(),
                Event::Blocked => false,
            };
            looks ==> match httparse_request(input, MAX_HEADERS) {
                Ok(Some(head)) => {
                    &&& r == Ok::<Action, RequestError>(Action::Write)
                    &&& 0 < head.0 <= input.len()
                    &&& after.in_buf.pending() == input.skip(head.0 as int)
                    &&& exists|now: Seq<char>| #[trigger]
                        given_by_clock(now) && after.spec_unsent() == response(
                            conn.peer_addr@,
                            now,
                        )
                },
                Ok(None) => {
                    &&& r == Ok::<Action, RequestError>(Action::Pause)
                    &&& after.in_buf.pending() == input
                    &&& after.spec_unsent().len() == 0
                },
                Err(_) => r == Err::<Action, RequestError>(RequestError::Malformed),
            }
        }),
{
    let (between, delivered) = choose|between: Exchange, delivered: Result<(), RequestError>| #[trigger]
        conn.delivers(event, between, delivered) && match delivered {
            Ok(_) => if event == Event::Blocked {
                after == between && r == Ok::<Action, RequestError>(Action::Wait)
            } else {
                between.proceeds(after, r)
            },
            Err(e) => after == between && r == Err::<Action, RequestError>(e),
        };
    let n = match event {
        Event::Read(n) => n as int,
        _ => 0,
    };
    let input = conn.in_buf.data().subrange(conn.in_buf.pos(), conn.in_buf.end() + n);
    assert(between.in_buf.pending() =~= input);
    assert(between.state == State::Processing ==> between.spec_unsent().len() == 0);
}

/// A new connection belongs to its client, has nothing pending and nothing to send, and
/// asks in its first turn for a read of as much as the buffer holds.
pub proof fn new_connection_reads(
    conn: Exchange,
    peer: Seq<char>,
    after: Exchange,
    r: Result<Action, RequestError>,
)
    requires
        conn.wf(),
        conn.is_new(peer),
        conn.progresses(Event::Start, after, r),
    ensures
        conn.peer_addr@ == peer,
        conn.in_buf.pending().len() == 0,
        conn.spec_unsent().len() == 0,
        r == Ok::<Action, RequestError>(Action::Read),
        after.in_buf.pending().len() == 0,
        after.in_buf.space().len() == BUF_CAPACITY,
{
    connection_reacts(conn, Event::Start, after, r);
}

/// A connection that asked for a read takes any number of bytes that fit into the
/// space, also none, and that there was nothing to be read. One that asked for a write
/// takes any number of the unsent bytes, and that nothing could be written. One that
/// paused reads in its next turn, and one that closed stays closed.
pub proof fn connection_takes_what_it_asked_for(
    conn: Exchange,
    event: Event,
    after: Exchange,
    r: Result<Action, RequestError>,
    n: usize,
)
    requires
        conn.wf(),
        conn.accepts(event),
        conn.progresses(event, after, r),
    ensures
        after.accepts(Event::Start),
        r == Ok::<Action, RequestError>(Action::Read) <==> event == Event::Start && r is Ok
            && conn.state == State::ReadingRequests,
        r == Ok::<Action, RequestError>(Action::Pause) ==> after.state == State::ReadingRequests,
        r == Ok::<Action, RequestError>(Action::Read) ==> after.state == State::ReadingRequests,
        r == Ok::<Action, RequestError>(Action::Write) ==> after.state == State::SendingResponse,
        r == Ok::<Action, RequestError>(Action::Close) <==> after.state == State::Closing && event
            != Event::Blocked,
        r == Ok::<Action, RequestError>(Action::Read) ==> {
            &&& n <= after.in_buf.space().len() ==> after.accepts(Event::Read(n))
            &&& after.accepts(Event::Blocked)
            &&& after.in_buf.space().len() > 0
        },
        r == Ok::<Action, RequestError>(Action::Write) ==> {
            &&& n <= after.spec_unsent().len() ==> after.accepts(Event::Wrote(n))
            &&& after.accepts(Event::Blocked)
            &&& after.spec_unsent().len() > 0
        },
{
    let (between, delivered) = choose|between: Exchange, delivered: Result<(), RequestError>| #[trigger]
        conn.delivers(event, between, delivered) && match delivered {
            Ok(_) => if event == Event::Blocked {
                after == between && r == Ok::<Action, RequestError>(Action::Wait)
            } else {
                between.proceeds(after, r)
            },
            Err(e) => after == between && r == Err::<Action, RequestError>(e),
        };
    if between.state == State::Processing && r == Ok::<Action, RequestError>(Action::Write)
        && event != Event::Blocked {
        let now = choose|now: Seq<char>| #[trigger]
            is_date(now) && given_by_clock(now) && after.spec_unsent() == response(
                between.peer_addr@,
                now,
            );
        lemma_response_not_empty(between.peer_addr@, now);
    }
}

} // verus!
