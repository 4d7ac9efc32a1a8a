//! Connections of the servers that block in reads and writes.
use vstd::prelude::*;
use vstd::utf8::*;
use crate::clock::given_by_clock;
use crate::request::{
    httparse_request, parse_request, Parsed, RequestHead, MAX_HEADERS,
};
use crate::request_buf::{RequestError, BUF_CAPACITY};
use crate::response::{
    closing_response_text, is_date, response, worker_response_text, write_closing_response,
    write_response, write_worker_response,
};

verus! {

/// How many requests a worker answers on one connection.
pub const MAX_REQUESTS_PER_CONN: u32 = 100;

/// Why a connection ended early.
#[derive(Debug)]
pub enum ConnError {
    /// The client stopped sending in the middle of a request.
    Incomplete,
    /// The request fills the buffer.
    TooBig,
    /// The bytes are no HTTP request, as the description says.
    Malformed(String),
}

impl ConnError {
    pub open spec fn spec_message(self) -> Seq<char> {
        match self {
            ConnError::Incomplete => "client sent incomplete request"@,
            ConnError::TooBig => "request too big"@,
            ConnError::Malformed(description) => description@,
        }
    }

    /// The text that describes the error.
    pub fn message(&self) -> (r: &str)
        ensures
            r@ == self.spec_message(),
    {
        match self {
            ConnError::Incomplete => "client sent incomplete request",
            ConnError::TooBig => "request too big",
            ConnError::Malformed(description) => description.as_str(),
        }
    }
}

/// What the owner of a connection has to do after a read.
pub enum Turn {
    /// To read again.
    ReadMore,
    /// To write the response, then to read again.
    Respond(RequestHead),
    /// To write the response, then to close the connection.
    RespondAndClose(RequestHead),
    /// To close the connection.
    Close,
}

/// The bytes that a connection has delivered.
pub struct Input {
    buf: Vec<u8>,
    pos: usize,
}

impl Input {
    /// The whole storage.
    pub closed spec fn data(self) -> Seq<u8> {
        self.buf@
    }

    /// How many bytes are in use.
    pub closed spec fn used(self) -> int {
        self.pos as int
    }

    pub open spec fn wf(self) -> bool {
        &&& self.data().len() == BUF_CAPACITY
        &&& 0 <= self.used() <= BUF_CAPACITY
    }

    /// The bytes that were read.
    pub open spec fn spec_bytes(self) -> Seq<u8> {
        self.data().take(self.used())
    }

    /// The space for a read to fill.
    pub open spec fn spec_space(self) -> Seq<u8> {
        self.data().skip(self.used())
    }

    /// How many bytes can still be read.
    pub open spec fn room(self) -> int {
        BUF_CAPACITY - self.used()
    }

    pub fn new() -> (r: Input)
        ensures
            r.wf(),
            r.used() == 0,
    {
        Input { buf: vec![0u8;BUF_CAPACITY], pos: 0 }
    }

    /// The space for a read to fill.
    pub fn space(&mut self) -> (r: &mut [u8])
        requires
            old(self).wf(),
        ensures
            r@ == old(self).spec_space(),
            final(self).data() == old(self).data().take(old(self).used()) + final(r)@,
            final(self).used() == old(self).used(),
            final(r)@.len() == r@.len() ==> final(self).wf() && final(self).spec_bytes() == old(
                self,
            ).spec_bytes(),
    {
        let (_, space) = self.buf.as_mut_slice().split_at_mut(self.pos);
        space
    }

    /// Whether every byte of the storage is in use.
    pub fn is_full(&self) -> (r: bool)
        requires
            self.wf(),
        ensures
            r == (self.room() == 0),
    {
        self.pos == self.buf.len()
    }

    fn add(&mut self, nread: usize)
        requires
            old(self).wf(),
            nread <= old(self).room(),
        ensures
            final(self).wf(),
            final(self).data() == old(self).data(),
            final(self).used() == old(self).used() + nread,
    {
        self.pos += nread;
    }

    fn clear(&mut self)
        requires
            old(self).wf(),
        ensures
            final(self).wf(),
            final(self).data() == old(self).data(),
            final(self).used() == 0,
    {
        self.pos = 0;
    }

    /// Takes note of a read. The result is `false` if the client left between two
    /// requests.
    fn receive(&mut self, nread: usize) -> (r: Result<bool, ConnError>)
        requires
            old(self).wf(),
            nread <= old(self).room(),
        ensures
            final(self).wf(),
            final(self).data() == old(self).data(),
            final(self).used() == old(self).used() + nread,
            match r {
                Ok(more) => {
                    &&& more == (nread > 0)
                    &&& nread > 0 ==> nread < old(self).room()
                    &&& nread == 0 ==> old(self).used() == 0
                },
                Err(e) => if nread == 0 {
                    e is Incomplete && old(self).used() > 0
                } else {
                    e is TooBig && nread == old(self).room()
                },
            },
    {
        if nread == 0 {
            return if self.pos == 0 {
                Ok(false)
            } else {
                Err(ConnError::Incomplete)
            };
        }
        self.add(nread);
        if self.is_full() {
            return Err(ConnError::TooBig);
        }
        Ok(true)
    }

    fn bytes(&self) -> (r: &[u8])
        requires
            self.wf(),
        ensures
            r@ == self.spec_bytes(),
    {
        &self.buf.as_slice()[0..self.pos]
    }
}

/// A connection on which one request is answered.
pub struct SingleConn {
    pub input: Input,
}

impl SingleConn {
    pub open spec fn wf(self) -> bool {
        self.input.wf()
    }

    pub fn new() -> (r: SingleConn)
        ensures
            r.wf(),
            r.input.used() == 0,
    {
        SingleConn { input: Input::new() }
    }

    /// Handles what the parser found in the input, at the time `now`. The
    /// connection is closed without a response if its input is full.
    pub fn on_parsed(
        &self,
        parsed: Parsed,
        peer_addr: &str,
        now: &str,
        resp: &mut Vec<u8>,
    ) -> (r: Result<Turn, ConnError>)
        requires
            self.wf(),
        ensures
            match parsed {
                Ok(Some(head)) => {
                    &&& r == Ok::<Turn, ConnError>(Turn::RespondAndClose(head))
                    &&& final(resp)@ == encode_utf8(closing_response_text(peer_addr@, now@))
                },
                Ok(None) => {
                    &&& r == Ok::<Turn, ConnError>(
                        if self.input.room() == 0 {
                            Turn::Close
                        } else {
                            Turn::ReadMore
                        },
                    )
                    &&& final(resp)@ == old(resp)@
                },
                Err(description) => {
                    &&& r == Err::<Turn, ConnError>(ConnError::Malformed(description))
                    &&& final(resp)@ == old(resp)@
                },
            },
    {
        match parsed {
            Ok(Some(head)) => {
                resp.clear();
                write_closing_response(resp, peer_addr, now);
                assert(resp@ =~= encode_utf8(closing_response_text(peer_addr@, now@)));
                Ok(Turn::RespondAndClose(head))
            },
            Ok(None) => Ok(
                if self.input.is_full() {
                    Turn::Close
                } else {
                    Turn::ReadMore
                },
            ),
            Err(description) => Err(ConnError::Malformed(description)),
        }
    }

    /// Whether a read of `nread` bytes from the client at `peer` turns the connection
    /// into `after` and the response `resp` into `after_resp`, with the result `r`.
    pub open spec fn reads(
        self,
        nread: usize,
        peer: Seq<char>,
        resp: Seq<u8>,
        after: SingleConn,
        after_resp: Seq<u8>,
        r: Result<Turn, ConnError>,
    ) -> bool {
        &&& after.input.data() == self.input.data()
        &&& after.input.used() == self.input.used() + nread
        &&& nread == 0 ==> r == Ok::<Turn, ConnError>(Turn::Close) && after_resp == resp
        &&& nread > 0 ==> match httparse_request(after.input.spec_bytes(), MAX_HEADERS) {
            Ok(Some(head)) => {
                &&& r matches Ok(Turn::RespondAndClose(h)) && h@ == head
                &&& exists|now: Seq<char>| #[trigger]
                    is_date(now) && given_by_clock(now) && after_resp == encode_utf8(
                        closing_response_text(peer, now),
                    )
            },
            Ok(None) => {
                &&& r == Ok::<Turn, ConnError>(
                    if after.input.room() == 0 {
                        Turn::Close
                    } else {
                        Turn::ReadMore
                    },
                )
                &&& after_resp == resp
            },
            Err(description) => {
                &&& r matches Err(ConnError::Malformed(d)) && d@ == description
                &&& after_resp == resp
            },
        }
    }

    /// Takes note of a read, and answers the request if it is complete.
    pub fn on_read(&mut self, nread: usize, peer_addr: &str, resp: &mut Vec<u8>) -> (r: Result<
        Turn,
        ConnError,
    >)
        requires
            old(self).wf(),
            nread <= old(self).input.room(),
        ensures
            final(self).wf(),
            old(self).reads(nread, peer_addr@, old(resp)@, *final(self), final(resp)@, r),
    {
        if nread == 0 {
            return Ok(Turn::Close);
        }
        self.input.add(nread);
        let (parsed, now) = parse_request(self.input.bytes());
        self.on_parsed(parsed, peer_addr, now.as_str(), resp)
    }
}

/// A connection that has a thread of its own, for any number of requests.
pub struct ThreadConn {
    pub input: Input,
}

impl ThreadConn {
    pub open spec fn wf(self) -> bool {
        self.input.wf()
    }

    pub fn new() -> (r: ThreadConn)
        ensures
            r.wf(),
            r.input.used() == 0,
    {
        ThreadConn { input: Input::new() }
    }

    /// Handles what the parser found in the input, at the time `now`. What was read
    /// behind a request is dropped with it.
    pub fn on_parsed(
        &mut self,
        parsed: Parsed,
        peer_addr: &str,
        now: &str,
        resp: &mut Vec<u8>,
    ) -> (r: Result<Turn, ConnError>)
        requires
            old(self).wf(),
        ensures
            final(self).wf(),
            final(self).input.data() == old(self).input.data(),
            match parsed {
                Ok(Some(head)) => {
                    &&& r == Ok::<Turn, ConnError>(Turn::Respond(head))
                    &&& final(self).input.used() == 0
                    &&& final(resp)@ == response(peer_addr@, now@)
                },
                Ok(None) => {
                    &&& r == Ok::<Turn, ConnError>(Turn::ReadMore)
                    &&& final(self).input.used() == old(self).input.used()
                    &&& final(resp)@.len() == 0
                },
                Err(_) => {
                    &&& r matches Err(ConnError::Malformed(d)) && d@
                        == RequestError::Malformed.spec_message()
                    &&& final(self).input.used() == old(self).input.used()
                    &&& final(resp)@.len() == 0
                },
            },
    {
        resp.clear();
        match parsed {
            Ok(Some(head)) => {
                write_response(resp, peer_addr, now);
                assert(resp@ =~= response(peer_addr@, now@));
                self.input.clear();
                Ok(Turn::Respond(head))
            },
            Ok(None) => Ok(Turn::ReadMore),
            Err(_) => Err(ConnError::Malformed(RequestError::Malformed.message().to_owned())),
        }
    }

    /// Whether a read of `nread` bytes from the client at `peer` turns the connection
    /// into `after` and the response `resp` into `after_resp`, with the result `r`.
    pub open spec fn reads(
        self,
        nread: usize,
        peer: Seq<char>,
        resp: Seq<u8>,
        after: ThreadConn,
        after_resp: Seq<u8>,
        r: Result<Turn, ConnError>,
    ) -> bool {
        let used = self.input.used() + nread;
        let input = self.input.data().take(used);
        &&& after.input.data() == self.input.data()
        &&& if nread == 0 || nread == self.input.room() {
            &&& after.input.used() == used
            &&& after_resp == resp
            &&& r == (if nread > 0 {
                Err::<Turn, ConnError>(ConnError::TooBig)
            } else if used > 0 {
                Err(ConnError::Incomplete)
            } else {
                Ok(Turn::Close)
            })
        } else {
            match httparse_request(input, MAX_HEADERS) {
                Ok(Some(head)) => {
                    &&& r matches Ok(Turn::Respond(h)) && h@ == head
                    &&& after.input.used() == 0
                    &&& exists|now: Seq<char>| #[trigger]
                        is_date(now) && given_by_clock(now) && after_resp == response(peer, now)
                },
                Ok(None) => {
                    &&& r == Ok::<Turn, ConnError>(Turn::ReadMore)
                    &&& after.input.used() == used
                    &&& after_resp.len() == 0
                },
                Err(_) => {
                    &&& r matches Err(ConnError::Malformed(d)) && d@
                        == RequestError::Malformed.spec_message()
                    &&& after.input.used() == used
                    &&& after_resp.len() == 0
                },
            }
        }
    }

    /// Takes note of a read, and answers the request if it is complete.
    pub fn on_read(&mut self, nread: usize, peer_addr: &str, resp: &mut Vec<u8>) -> (r: Result<
        Turn,
        ConnError,
    >)
        requires
            old(self).wf(),
            nread <= old(self).input.room(),
        ensures
            final(self).wf(),
            old(self).reads(nread, peer_addr@, old(resp)@, *final(self), final(resp)@, r),
    {
        if !self.input.receive(nread)? {
            return Ok(Turn::Close);
        }
        let (parsed, now) = parse_request(self.input.bytes());
        self.on_parsed(parsed, peer_addr, now.as_str(), resp)
    }
}

/// A connection that a worker of a pool serves, for a limited number of requests.
pub struct PoolConn {
    pub input: Input,
    pub worker: usize,
    pub num_processed: u32,
}

impl PoolConn {
    pub open spec fn wf(self) -> bool {
        &&& self.input.wf()
        &&& self.num_processed < MAX_REQUESTS_PER_CONN
    }

    pub fn new(worker: usize) -> (r: PoolConn)
        ensures
            r.wf(),
            r.input.used() == 0,
            r.worker == worker,
            r.num_processed == 0,
    {
        PoolConn { input: Input::new(), worker, num_processed: 0 }
    }

    /// Whether the next response is the last one on the connection.
    pub open spec fn last_request(self) -> bool {
        self.num_processed + 1 == MAX_REQUESTS_PER_CONN
    }

    /// Handles what the parser found in the input, at the time `now`. What was read
    /// behind a request is dropped with it.
    pub fn on_parsed(
        &mut self,
        parsed: Parsed,
        peer_addr: &str,
        now: &str,
        resp: &mut Vec<u8>,
    ) -> (r: Result<Turn, ConnError>)
        requires
            old(self).wf(),
        ensures
            final(self).input.wf(),
            final(self).input.data() == old(self).input.data(),
            final(self).worker == old(self).worker,
            !(r matches Ok(Turn::RespondAndClose(_))) ==> final(self).wf(),
            r matches Ok(Turn::RespondAndClose(_)) <==> final(self).num_processed
                == MAX_REQUESTS_PER_CONN,
            match parsed {
                Ok(Some(head)) => {
                    &&& r == Ok::<Turn, ConnError>(
                        if old(self).last_request() {
                            Turn::RespondAndClose(head)
                        } else {
                            Turn::Respond(head)
                        },
                    )
                    &&& final(self).num_processed == old(self).num_processed + 1
                    &&& final(self).input.used() == (if old(self).last_request() {
                        old(self).input.used()
                    } else {
                        0
                    })
                    &&& final(resp)@ == encode_utf8(
                        worker_response_text(
                            old(self).worker as nat,
                            peer_addr@,
                            now@,
                            old(self).last_request(),
                        ),
                    )
                },
                Ok(None) => {
                    &&& r == Ok::<Turn, ConnError>(Turn::ReadMore)
                    &&& final(self).num_processed == old(self).num_processed
                    &&& final(self).input.used() == old(self).input.used()
                    &&& final(resp)@ == old(resp)@
                },
                Err(description) => {
                    &&& r == Err::<Turn, ConnError>(ConnError::Malformed(description))
                    &&& final(self).num_processed == old(self).num_processed
                    &&& final(self).input.used() == old(self).input.used()
                    &&& final(resp)@ == old(resp)@
                },
            },
    {
        match parsed {
            Ok(Some(head)) => {
                self.num_processed += 1;
                let close = self.num_processed >= MAX_REQUESTS_PER_CONN;
                resp.clear();
                write_worker_response(resp, self.worker, peer_addr, now, close);
                assert(resp@ =~= encode_utf8(
                    worker_response_text(self.worker as nat, peer_addr@, now@, close),
                ));
                if close {
                    Ok(Turn::RespondAndClose(head))
                } else {
                    self.input.clear();
                    Ok(Turn::Respond(head))
                }
            },
            Ok(None) => Ok(Turn::ReadMore),
            Err(description) => Err(ConnError::Malformed(description)),
        }
    }

    /// Whether a read of `nread` bytes from the client at `peer` turns the connection
    /// into `after` and the response `resp` into `after_resp`, with the result `r`.
    pub open spec fn reads(
        self,
        nread: usize,
        peer: Seq<char>,
        resp: Seq<u8>,
        after: PoolConn,
        after_resp: Seq<u8>,
        r: Result<Turn, ConnError>,
    ) -> bool {
        let used = self.input.used() + nread;
        let input = self.input.data().take(used);
        &&& after.input.data() == self.input.data()
        &&& after.worker == self.worker
        &&& if nread == 0 || nread == self.input.room() {
            &&& after.num_processed == self.num_processed
            &&& after.input.used() == used
            &&& after_resp == resp
            &&& r == (if nread > 0 {
                Err::<Turn, ConnError>(ConnError::TooBig)
            } else if used > 0 {
                Err(ConnError::Incomplete)
            } else {
                Ok(Turn::Close)
            })
        } else {
            match httparse_request(input, MAX_HEADERS) {
                Ok(Some(head)) => {
                    &&& match r {
                        Ok(Turn::Respond(h)) => !self.last_request() && h@ == head,
                        Ok(Turn::RespondAndClose(h)) => self.last_request()
                            && h@ == head,
                        _ => false,
                    }
                    &&& after.num_processed == self.num_processed + 1
                    &&& after.input.used() == (if self.last_request() {
                        used
                    } else {
                        0
                    })
                    &&& exists|now: Seq<char>| #[trigger]
                        is_date(now) && given_by_clock(now) && after_resp == encode_utf8(
                            worker_response_text(
                                self.worker as nat,
                                peer,
                                now,
                                self.last_request(),
                            ),
                        )
                },
                Ok(None) => {
                    &&& r == Ok::<Turn, ConnError>(Turn::ReadMore)
                    &&& after.num_processed == self.num_processed
                    &&& after.input.used() == used
                    &&& after_resp == resp
                },
                Err(description) => {
                    &&& r matches Err(ConnError::Malformed(d)) && d@ == description
                    &&& after.num_processed == self.num_processed
                    &&& after.input.used() == used
                    &&& after_resp == resp
                },
            }
        }
    }

    /// Takes note of a read, and answers the request if it is complete.
    pub fn on_read(&mut self, nread: usize, peer_addr: &str, resp: &mut Vec<u8>) -> (r: Result<
        Turn,
        ConnError,
    >)
        requires
            old(self).wf(),
            nread <= old(self).input.room(),
        ensures
            final(self).input.wf(),
            !(r matches Ok(Turn::RespondAndClose(_))) ==> final(self).wf(),
            r matches Ok(Turn::RespondAndClose(_)) <==> final(self).num_processed
                == MAX_REQUESTS_PER_CONN,
            old(self).reads(nread, peer_addr@, old(resp)@, *final(self), final(resp)@, r),
    {
        if !self.input.receive(nread)? {
            return Ok(Turn::Close);
        }
        let (parsed, now) = parse_request(self.input.bytes());
        self.on_parsed(parsed, peer_addr, now.as_str(), resp)
    }
}

/// All of the storage behind the bytes in use is offered to a read.
pub proof fn input_offers_all_that_is_left(input: Input)
    requires
        input.wf(),
    ensures
        input.spec_space().len() == BUF_CAPACITY - input.used(),
        input.spec_space().len() == input.room(),
{
}

/// A connection for one request answers it as soon as it is complete, and is closed
/// then. It is closed without a response if its client leaves, or if the buffer is full
/// before the request is complete; otherwise it reads on.
pub proof fn single_connection_reacts(
    conn: SingleConn,
    nread: usize,
    peer: Seq<char>,
    resp: Seq<u8>,
    after: SingleConn,
    after_resp: Seq<u8>,
    r: Result<Turn, ConnError>,
)
    requires
        conn.wf(),
        nread <= conn.input.room(),
        conn.reads(nread, peer, resp, after, after_resp, r),
    ensures
        nread == 0 ==> r == Ok::<Turn, ConnError>(Turn::Close),
        nread > 0 ==> {
            let input = conn.input.data().take(conn.input.used() + nread);
            match httparse_request(input, MAX_HEADERS) {
                Ok(Some(head)) => {
                    &&& r matches Ok(Turn::RespondAndClose(h)) && h@ == head
                    &&& exists|now: Seq<char>| #[trigger]
                        given_by_clock(now) && after_resp == encode_utf8(
                            closing_response_text(peer, now),
                        )
                },
                Ok(None) => {
                    &&& after.input.spec_bytes() == input
                    &&& r == Ok::<Turn, ConnError>(
                        if input.len() == BUF_CAPACITY {
                            Turn::Close
                        } else {
                            Turn::ReadMore
                        },
                    )
                },
                Err(description) => r matches Err(ConnError::Malformed(d)) && d@ == description,
            }
        },
{
    assert(after.input.spec_bytes() =~= conn.input.data().take(conn.input.used() + nread));
}

/// A connection with a thread of its own answers each request as soon as it is
/// complete, and starts over behind it. It ends well if its client leaves between two
/// requests; it is refused if the client leaves inside one, if the buffer is full, or
/// if there is no request.
pub proof fn thread_connection_reacts(
    conn: ThreadConn,
    nread: usize,
    peer: Seq<char>,
    resp: Seq<u8>,
    after: ThreadConn,
    after_resp: Seq<u8>,
    r: Result<Turn, ConnError>,
)
    requires
        conn.wf(),
        nread <= conn.input.room(),
        conn.reads(nread, peer, resp, after, after_resp, r),
    ensures
        nread == 0 ==> r == (if conn.input.spec_bytes().len() == 0 {
            Ok::<Turn, ConnError>(Turn::Close)
        } else {
            Err(ConnError::Incomplete)
        }),
        nread > 0 ==> {
            let input = conn.input.data().take(conn.input.used() + nread);
            if input.len() == BUF_CAPACITY {
                r == Err::<Turn, ConnError>(ConnError::TooBig)
            } else {
                match httparse_request(input, MAX_HEADERS) {
                    Ok(Some(head)) => {
                        &&& r matches Ok(Turn::Respond(h)) && h@ == head
                        &&& after.input.spec_bytes().len() == 0
                        &&& exists|now: Seq<char>| #[trigger]
                            given_by_clock(now) && after_resp == response(peer, now)
                    },
                    Ok(None) => {
                        &&& r == Ok::<Turn, ConnError>(Turn::ReadMore)
                        &&& after.input.spec_bytes() == input
                    },
                    Err(_) => r matches Err(ConnError::Malformed(d)) && d@
                        == "could not parse request"@,
                }
            }
        },
{
}

/// A connection in the hands of a worker answers each request as soon as it is
/// complete, with the worker's number, and starts over behind it. It is closed behind
/// the last response that it may give, which says so, and behind no other.
pub proof fn pool_connection_reacts(
    conn: PoolConn,
    nread: usize,
    peer: Seq<char>,
    resp: Seq<u8>,
    after: PoolConn,
    after_resp: Seq<u8>,
    r: Result<Turn, ConnError>,
)
    requires
        conn.wf(),
        nread <= conn.input.room(),
        conn.reads(nread, peer, resp, after, after_resp, r),
    ensures
        after.worker == conn.worker,
        nread == 0 ==> r == (if conn.input.spec_bytes().len() == 0 {
            Ok::<Turn, ConnError>(Turn::Close)
        } else {
            Err(ConnError::Incomplete)
        }),
        nread > 0 ==> {
            let input = conn.input.data().take(conn.input.used() + nread);
            if input.len() == BUF_CAPACITY {
                r == Err::<Turn, ConnError>(ConnError::TooBig)
            } else {
                match httparse_request(input, MAX_HEADERS) {
                    Ok(Some(head)) => {
                        let close = conn.num_processed + 1 == MAX_REQUESTS_PER_CONN;
                        &&& match r {
                            Ok(Turn::Respond(h)) => !close && h@ == head
                                && after.input.spec_bytes().len() == 0,
                            Ok(Turn::RespondAndClose(h)) => close && h@ == head,
                            _ => false,
                        }
                        &&& after.num_processed == conn.num_processed + 1
                        &&& exists|now: Seq<char>| #[trigger]
                            given_by_clock(now) && after_resp == encode_utf8(
                                worker_response_text(conn.worker as nat, peer, now, close),
                            )
                    },
                    Ok(None) => {
                        &&& r == Ok::<Turn, ConnError>(Turn::ReadMore)
                        &&& after.num_processed == conn.num_processed
                        &&& after.input.spec_bytes() == input
                    },
                    Err(description) => {
                        &&& r matches Err(ConnError::Malformed(d)) && d@ == description
                        &&& after.num_processed == conn.num_processed
                    },
                }
            }
        },
{
}

} // verus!
