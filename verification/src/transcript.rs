//! What a connection has exchanged with its client so far.
use vstd::prelude::*;
use crate::clock::given_by_clock;
use crate::exchange::{Action, Event, Exchange, State};
use crate::request::{httparse_request, MAX_HEADERS};
use crate::request_buf::RequestError;
use crate::response::{is_date, response};
use crate::session::{Session, SessionStep};

verus! {

/// The parts one after the other.
pub open spec fn concat(parts: Seq<Seq<u8>>) -> Seq<u8>
    decreases parts.len(),
{
    if parts.len() == 0 {
        Seq::empty()
    } else {
        concat(parts.drop_last()) + parts.last()
    }
}

/// Whether the parser took `request` for the head of a request when it looked at the
/// bytes received from `start` on, up to some point.
pub open spec fn is_request_at(received: Seq<u8>, start: int, request: Seq<u8>) -> bool {
    &&& 0 <= start
    &&& start + request.len() <= received.len()
    &&& request == received.subrange(start, start + request.len())
    &&& exists|end: int|
        start + request.len() <= end <= received.len() && (#[trigger] httparse_request(
            received.subrange(start, end),
            MAX_HEADERS,
        ) matches Ok(Some(head)) && head.0 == request.len())
}

/// Whether `bytes` is a response to the client at `peer`.
pub open spec fn is_response(bytes: Seq<u8>, peer: Seq<char>) -> bool {
    exists|now: Seq<char>| #[trigger] is_date(now) && given_by_clock(now) && bytes == response(peer, now)
}

/// What a connection has exchanged with its client: the bytes that it received,
/// the requests that it answered, the bytes that it sent, and the responses.
pub ghost struct Transcript {
    pub peer: Seq<char>,
    pub received: Seq<u8>,
    pub requests: Seq<Seq<u8>>,
    pub sent: Seq<u8>,
    pub responses: Seq<Seq<u8>>,
}

impl Transcript {
    /// Where the request `i` begins among the bytes received: behind those before it.
    pub open spec fn start(self, i: int) -> int {
        concat(self.requests.take(i)).len() as int
    }

    /// Nothing was lost, added or reordered: what was received is the requests that
    /// were answered and what is pending; each of them is what the parser took from
    /// where the one before it ended, and got one response; and what was sent, with
    /// what is unsent, is these responses.
    pub open spec fn inv(self, pending: Seq<u8>, unsent: Seq<u8>) -> bool {
        &&& self.received == concat(self.requests) + pending
        &&& concat(self.responses) == self.sent + unsent
        &&& self.requests.len() == self.responses.len()
        &&& forall|i: int|
            0 <= i < self.requests.len() ==> is_request_at(
                self.received,
                self.start(i),
                #[trigger] self.requests[i],
            )
        &&& forall|i: int|
            0 <= i < self.responses.len() ==> is_response(#[trigger] self.responses[i], self.peer)
    }

    /// The transcript before anything was exchanged.
    pub open spec fn empty(peer: Seq<char>) -> Transcript {
        Transcript {
            peer,
            received: Seq::empty(),
            requests: Seq::empty(),
            sent: Seq::empty(),
            responses: Seq::empty(),
        }
    }

    /// The transcript after more was read and written, and a request was answered
    /// if `answered` holds it with its response.
    pub open spec fn extended(
        self,
        read: Seq<u8>,
        written: Seq<u8>,
        answered: Option<(Seq<u8>, Seq<u8>)>,
    ) -> Transcript {
        Transcript {
            peer: self.peer,
            received: self.received + read,
            requests: match answered {
                Some(a) => self.requests.push(a.0),
                None => self.requests,
            },
            sent: self.sent + written,
            responses: match answered {
                Some(a) => self.responses.push(a.1),
                None => self.responses,
            },
        }
    }
}

/// The bytes that an event adds to the input of a connection.
pub open spec fn bytes_read(conn: Exchange, event: Event) -> Seq<u8> {
    match event {
        Event::Read(n) => conn.in_buf.data().subrange(
            conn.in_buf.end(),
            conn.in_buf.end() + n,
        ),
        _ => Seq::empty(),
    }
}

/// The bytes of the response that an event took away.
pub open spec fn bytes_written(conn: Exchange, event: Event) -> Seq<u8> {
    match event {
        Event::Wrote(n) => conn.spec_unsent().take(n as int),
        _ => Seq::empty(),
    }
}

/// Whether a connection looks for a request after an event: it has just read
/// something, or sent a whole response, or was about to look.
pub open spec fn looks_for_request(conn: Exchange, event: Event) -> bool {
    match event {
        Event::Start => conn.state == State::Processing,
        Event::Read(n) => n > 0,
        Event::Wrote(n) => n == conn.spec_unsent().len(),
        Event::Blocked => false,
    }
}

/// The request that a connection answered after an event, with its response, if it
/// did.
pub open spec fn exchange_answer(conn: Exchange, event: Event, after: Exchange) -> Option<
    (Seq<u8>, Seq<u8>),
> {
    let input = conn.in_buf.pending() + bytes_read(conn, event);
    match httparse_request(input, MAX_HEADERS) {
        Ok(Some(head)) if looks_for_request(conn, event) => Some(
            (input.take(head.0 as int), after.spec_unsent()),
        ),
        _ => None,
    }
}

proof fn lemma_concat_push(parts: Seq<Seq<u8>>, part: Seq<u8>)
    ensures
        concat(parts.push(part)) == concat(parts) + part,
{
    assert(parts.push(part).drop_last() =~= parts);
}

/// More input behind a request leaves it one.
proof fn lemma_request_stays(received: Seq<u8>, more: Seq<u8>, start: int, request: Seq<u8>)
    requires
        is_request_at(received, start, request),
    ensures
        is_request_at(received + more, start, request),
{
    let end = choose|end: int|
        start + request.len() <= end <= received.len() && (#[trigger] httparse_request(
            received.subrange(start, end),
            MAX_HEADERS,
        ) matches Ok(Some(head)) && head.0 == request.len());
    let all = received + more;
    assert(all.subrange(start, end) =~= received.subrange(start, end));
    assert(all.subrange(start, start + request.len()) =~= request);
    assert(httparse_request(all.subrange(start, end), MAX_HEADERS) is Ok);
}

/// What is read adds to the pending bytes, and what is written leaves the unsent ones.
proof fn lemma_transfer(t: Transcript, pending: Seq<u8>, unsent: Seq<u8>, read: Seq<u8>, n: int)
    requires
        t.inv(pending, unsent),
        0 <= n <= unsent.len(),
    ensures
        t.extended(read, unsent.take(n), None).inv(pending + read, unsent.skip(n)),
{
    let t1 = t.extended(read, unsent.take(n), None);
    assert(t1.received =~= concat(t1.requests) + (pending + read));
    assert(unsent =~= unsent.take(n) + unsent.skip(n));
    assert(concat(t1.responses) =~= t1.sent + unsent.skip(n));
    assert forall|i: int| 0 <= i < t1.requests.len() implies is_request_at(
        t1.received,
        t1.start(i),
        #[trigger] t1.requests[i],
    ) by {
        lemma_request_stays(t.received, read, t.start(i), t.requests[i]);
    }
}

/// A new connection has exchanged nothing.
pub proof fn nothing_exchanged(peer: Seq<char>)
    ensures
        Transcript::empty(peer).inv(Seq::empty(), Seq::empty()),
{
    assert(Seq::<u8>::empty() =~= Seq::<u8>::empty() + Seq::<u8>::empty());
}

/// An answered request moves from the pending bytes to the transcript, and its
/// response to the unsent ones.
proof fn lemma_answer(t: Transcript, pending: Seq<u8>, len: int, resp: Seq<u8>)
    requires
        t.inv(pending, Seq::empty()),
        0 < len <= pending.len(),
        httparse_request(pending, MAX_HEADERS) matches Ok(Some(head)) && head.0 == len,
        is_response(resp, t.peer),
    ensures
        t.extended(Seq::empty(), Seq::empty(), Some((pending.take(len), resp))).inv(
            pending.skip(len),
            resp,
        ),
{
    let request = pending.take(len);
    let t2 = t.extended(Seq::empty(), Seq::empty(), Some((request, resp)));
    assert(request + pending.skip(len) =~= pending);
    assert(t2.received =~= t.received);
    let start = concat(t.requests).len() as int;
    assert(t.received.subrange(start, t.received.len() as int) =~= pending);
    assert(t.received.subrange(start, start + len) =~= request);
    assert(is_request_at(t.received, start, request));
    assert forall|i: int| 0 <= i < t2.requests.len() implies is_request_at(
        t2.received,
        t2.start(i),
        #[trigger] t2.requests[i],
    ) by {
        if i < t.requests.len() {
            assert(t2.requests.take(i) =~= t.requests.take(i));
            assert(t.requests[i] == t2.requests[i]);
        } else {
            assert(t2.requests.take(i) =~= t.requests);
        }
    }
    lemma_concat_push(t.requests, request);
    lemma_concat_push(t.responses, resp);
    assert(t2.received =~= concat(t2.requests) + pending.skip(len));
    assert(concat(t2.responses) =~= t2.sent + resp);
}

/// However a connection proceeds, each request gets one response, in order, and
/// no byte of input or output is lost. At most one request is answered at a time.
pub proof fn exchange_keeps_transcript(
    t: Transcript,
    conn: Exchange,
    event: Event,
    after: Exchange,
    r: Result<Action, RequestError>,
)
    requires
        conn.wf(),
        conn.accepts(event),
        conn.progresses(event, after, r),
        t.peer == conn.peer_addr@,
        t.inv(conn.in_buf.pending(), conn.spec_unsent()),
    ensures
        after.peer_addr@ == t.peer,
        t.extended(
            bytes_read(conn, event),
            bytes_written(conn, event),
            exchange_answer(conn, event, after),
        ).inv(after.in_buf.pending(), after.spec_unsent()),
{
    let read = bytes_read(conn, event);
    let written = bytes_written(conn, event);
    let (between, delivered) = choose|between: Exchange, delivered: Result<(), RequestError>| #[trigger]
        conn.delivers(event, between, delivered) && match delivered {
            Ok(_) => if event == Event::Blocked {
                after == between && r == Ok::<Action, RequestError>(Action::Wait)
            } else {
                between.proceeds(after, r)
            },
            Err(e) => after == between && r == Err::<Action, RequestError>(e),
        };
    let t1 = t.extended(read, written, None);
    assert(between.in_buf.pending() =~= conn.in_buf.pending() + read);
    assert(written =~= conn.spec_unsent().take(written.len() as int));
    assert(between.spec_unsent() =~= conn.spec_unsent().skip(written.len() as int));
    lemma_transfer(
        t,
        conn.in_buf.pending(),
        conn.spec_unsent(),
        read,
        written.len() as int,
    );
    assert(t1.inv(between.in_buf.pending(), between.spec_unsent()));
    let answered = exchange_answer(conn, event, after);
    if let Some((request, resp)) = answered {
        assert(between.state == State::Processing);
        assert(between.spec_unsent() =~= Seq::empty());
        lemma_answer(t1, between.in_buf.pending(), request.len() as int, resp);
        assert(t1.extended(Seq::empty(), Seq::empty(), answered) == t.extended(
            read,
            written,
            answered,
        )) by {
            assert(t1.received + Seq::<u8>::empty() =~= t1.received);
            assert(t1.sent + Seq::<u8>::empty() =~= t1.sent);
        }
    } else {
        assert(after.in_buf.pending() =~= between.in_buf.pending());
        assert(after.spec_unsent() =~= between.spec_unsent());
    }
}

/// The bytes that the owner of a session has to write after a read.
pub open spec fn bytes_owed(after: Session, r: Result<SessionStep, RequestError>) -> Seq<u8> {
    match r {
        Ok(SessionStep::Respond) => after.resp@,
        _ => Seq::empty(),
    }
}

/// The bytes that a read of `nread` bytes adds to the input of a session.
pub open spec fn session_bytes_read(session: Session, nread: usize) -> Seq<u8> {
    session.in_buf.data().subrange(session.in_buf.end(), session.in_buf.end() + nread)
}

/// The request that a session answered in a read, with its response, if it did.
pub open spec fn session_answer(
    session: Session,
    nread: usize,
    after: Session,
    r: Result<SessionStep, RequestError>,
) -> Option<(Seq<u8>, Seq<u8>)> {
    let input = session.in_buf.data().subrange(session.in_buf.pos(), session.in_buf.end() + nread);
    match (r, httparse_request(input, MAX_HEADERS)) {
        (Ok(SessionStep::Respond), Ok(Some(head))) => Some(
            (input.take(head.0 as int), after.resp@),
        ),
        _ => None,
    }
}

/// However a session proceeds, each request gets one response, in order, and no
/// byte of input is lost. A read answers at most one request. Everything answered
/// before was sent completely.
pub proof fn session_keeps_transcript(
    t: Transcript,
    session: Session,
    nread: usize,
    after: Session,
    r: Result<SessionStep, RequestError>,
)
    requires
        session.wf(),
        nread <= session.in_buf.room(),
        session.reads(nread, t.peer, after, r),
        t.inv(session.in_buf.pending(), Seq::empty()),
    ensures
        t.extended(
            session_bytes_read(session, nread),
            Seq::empty(),
            session_answer(session, nread, after, r),
        ).inv(after.in_buf.pending(), bytes_owed(after, r)),
{
    let read = session_bytes_read(session, nread);
    let input = session.in_buf.data().subrange(
        session.in_buf.pos(),
        session.in_buf.end() + nread,
    );
    let answered = session_answer(session, nread, after, r);
    let t1 = t.extended(read, Seq::empty(), None);
    assert(input =~= session.in_buf.pending() + read);
    lemma_transfer(t, session.in_buf.pending(), Seq::empty(), read, 0);
    assert(Seq::<u8>::empty().take(0) =~= Seq::empty());
    assert(Seq::<u8>::empty().skip(0) =~= Seq::empty());
    assert(t1.inv(input, Seq::empty()));
    if let Some((request, resp)) = answered {
        lemma_answer(t1, input, request.len() as int, resp);
        assert(after.in_buf.pending() =~= input.skip(request.len() as int));
        assert(t1.extended(Seq::empty(), Seq::empty(), answered) == t.extended(
            read,
            Seq::empty(),
            answered,
        )) by {
            assert(t1.received + Seq::<u8>::empty() =~= t1.received);
            assert(t1.sent + Seq::<u8>::empty() =~= t1.sent);
        }
    } else {
        assert(after.in_buf.pending() =~= input);
    }
}

/// Each response that a connection has sent, or is sending, shows the address of its
/// client and a time that the clock gave.
pub proof fn responses_show_the_clock(t: Transcript, pending: Seq<u8>, unsent: Seq<u8>, i: int)
    requires
        t.inv(pending, unsent),
        0 <= i < t.responses.len(),
    ensures
        t.responses.len() == t.requests.len(),
        exists|now: Seq<char>| #[trigger]
            given_by_clock(now) && t.responses[i] == response(t.peer, now),
{
    assert(is_response(t.responses[i], t.peer));
}

/// To write some of what is unsent moves it to what was sent.
pub proof fn write_keeps_transcript(t: Transcript, pending: Seq<u8>, unsent: Seq<u8>, n: int)
    requires
        t.inv(pending, unsent),
        0 <= n <= unsent.len(),
    ensures
        t.extended(Seq::empty(), unsent.take(n), None).inv(pending, unsent.skip(n)),
{
    lemma_transfer(t, pending, unsent, Seq::empty(), n);
    assert(pending + Seq::<u8>::empty() =~= pending);
}

} // verus!
