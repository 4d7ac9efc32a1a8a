//! A non-blocking connection from its beginning: steps in each of which its owner
//! tells it what happened, and it says what it needs.
use vstd::prelude::*;
use crate::exchange::{connection_reacts, Action, Event, Exchange, State};
use crate::request::{httparse_request, MAX_HEADERS};
use crate::request_buf::{lemma_fill_keeps_pending, RequestError, BUF_CAPACITY};
use crate::transcript::{
    bytes_read, bytes_written, exchange_answer, exchange_keeps_transcript, nothing_exchanged,
    Transcript,
};

verus! {

/// A step of a connection. The owner may have put something into the space of the
/// input buffer, and then told the connection of an event.
pub ghost struct Step {
    pub filled: Exchange,
    pub event: Event,
    pub after: Exchange,
    pub action: Result<Action, RequestError>,
}

impl Step {
    /// Whether the step begins with `before`.
    pub open spec fn follows(self, before: Exchange) -> bool {
        &&& before.fills(self.filled)
        &&& self.filled.accepts(self.event)
        &&& self.filled.progresses(self.event, self.after, self.action)
        &&& self.after.wf()
    }

    /// The bytes that were read.
    pub open spec fn read(self) -> Seq<u8> {
        bytes_read(self.filled, self.event)
    }

    /// The bytes that were written.
    pub open spec fn written(self) -> Seq<u8> {
        bytes_written(self.filled, self.event)
    }

    /// The request that was answered, with its response, if one was.
    pub open spec fn answered(self) -> Option<(Seq<u8>, Seq<u8>)> {
        exchange_answer(self.filled, self.event, self.after)
    }
}

/// The connection after these steps.
pub open spec fn exchange_after(start: Exchange, steps: Seq<Step>) -> Exchange {
    if steps.len() == 0 {
        start
    } else {
        steps.last().after
    }
}

/// Whether these steps follow each other on a connection that begins with `start`, as
/// `Exchange::new` gives it. A connection that failed makes no more steps.
pub open spec fn is_history(start: Exchange, steps: Seq<Step>) -> bool
    decreases steps.len(),
{
    if steps.len() == 0 {
        &&& start.wf()
        &&& start.state == State::ReadingRequests
        &&& start.in_buf.pos() == start.in_buf.end()
    } else {
        &&& is_history(start, steps.drop_last())
        &&& steps.len() > 1 ==> steps[steps.len() - 2].action is Ok
        &&& steps.last().follows(exchange_after(start, steps.drop_last()))
    }
}

/// What was exchanged with the client at `peer` in these steps.
pub open spec fn transcript_of(peer: Seq<char>, steps: Seq<Step>) -> Transcript
    decreases steps.len(),
{
    if steps.len() == 0 {
        Transcript::empty(peer)
    } else {
        transcript_of(peer, steps.drop_last()).extended(
            steps.last().read(),
            steps.last().written(),
            steps.last().answered(),
        )
    }
}

/// After each step, however reads and writes are split and wherever they block, every
/// request that was answered has one response, in order; what was sent, with what is
/// unsent, is these responses; and nothing that was received is lost.
pub proof fn history_keeps_transcript(start: Exchange, steps: Seq<Step>)
    requires
        is_history(start, steps),
    ensures
        exchange_after(start, steps).wf(),
        exchange_after(start, steps).peer_addr@ == start.peer_addr@,
        transcript_of(start.peer_addr@, steps).peer == start.peer_addr@,
        transcript_of(start.peer_addr@, steps).inv(
            exchange_after(start, steps).in_buf.pending(),
            exchange_after(start, steps).spec_unsent(),
        ),
    decreases steps.len(),
{
    let peer = start.peer_addr@;
    if steps.len() == 0 {
        nothing_exchanged(peer);
        assert(start.in_buf.pending() =~= Seq::empty());
        assert(start.spec_unsent() =~= Seq::empty());
    } else {
        let rest = steps.drop_last();
        history_keeps_transcript(start, rest);
        let before = exchange_after(start, rest);
        let step = steps.last();
        lemma_fill_keeps_pending(before.in_buf, step.filled.in_buf);
        exchange_keeps_transcript(
            transcript_of(peer, rest),
            step.filled,
            step.event,
            step.after,
            step.action,
        );
    }
}

/// A step answers at most one request, and then something is there to be written.
/// The requests answered so far are those of before, and this one if there is one.
pub proof fn step_answers_at_most_one(start: Exchange, steps: Seq<Step>)
    requires
        is_history(start, steps),
        steps.len() > 0,
    ensures
        ({
            let before = transcript_of(start.peer_addr@, steps.drop_last()).requests;
            let after = transcript_of(start.peer_addr@, steps).requests;
            match steps.last().answered() {
                Some(a) => {
                    &&& after == before.push(a.0)
                    &&& a.0.len() > 0
                    &&& steps.last().action == Ok::<Action, RequestError>(Action::Write)
                    &&& steps.last().after.spec_unsent() == a.1
                    &&& a.1.len() > 0
                },
                None => after == before,
            }
        }),
{
    history_keeps_transcript(start, steps.drop_last());
    let step = steps.last();
    lemma_fill_keeps_pending(exchange_after(start, steps.drop_last()).in_buf, step.filled.in_buf);
    let (between, delivered) = choose|between: Exchange, delivered: Result<(), RequestError>| #[trigger]
        step.filled.delivers(step.event, between, delivered) && match delivered {
            Ok(_) => if step.event == Event::Blocked {
                step.after == between && step.action == Ok::<Action, RequestError>(Action::Wait)
            } else {
                between.proceeds(step.after, step.action)
            },
            Err(e) => step.after == between && step.action == Err::<Action, RequestError>(e),
        };
    assert(between.in_buf.pending() =~= step.filled.in_buf.pending() + step.read());
}

/// A connection is refused exactly for the reasons that its input gives: it asks for
/// more although its pending bytes fill the buffer, its client left inside a request,
/// or its input begins with no request. And it closes exactly if its client left
/// between two requests.
pub proof fn history_ends(start: Exchange, steps: Seq<Step>)
    requires
        is_history(start, steps),
        steps.len() > 0,
    ensures
        ({
            let last = steps.last();
            let before = exchange_after(start, steps.drop_last());
            let pending = before.in_buf.pending();
            let input = pending + last.read();
            let found = httparse_request(input, MAX_HEADERS);
            let looks = match last.event {
                Event::Start => before.state == State::Processing,
                Event::Read(n) => n > 0,
                Event::Wrote(n) => n == before.spec_unsent().len(),
                Event::Blocked => false,
            };
            &&& last.action == Err::<Action, RequestError>(RequestError::TooBig) <==> last.event
                == Event::Start && before.state == State::ReadingRequests && pending.len()
                == BUF_CAPACITY
            &&& last.action == Err::<Action, RequestError>(RequestError::Incomplete) <==> last.event
                == Event::Read(0) && pending.len() > 0
            &&& last.action == Err::<Action, RequestError>(RequestError::Malformed) <==> looks
                && found is Err
            &&& last.action == Ok::<Action, RequestError>(Action::Close) <==> last.event
                == Event::Read(0) && pending.len() == 0 || last.event == Event::Start
                && before.state == State::Closing
            &&& last.answered() is Some <==> looks && found is Ok && found->Ok_0 is Some
        }),
{
    history_keeps_transcript(start, steps.drop_last());
    let last = steps.last();
    let before = exchange_after(start, steps.drop_last());
    lemma_fill_keeps_pending(before.in_buf, last.filled.in_buf);
    assert(last.filled.spec_unsent() == before.spec_unsent());
    connection_reacts(last.filled, last.event, last.after, last.action);
    let n = match last.event {
        Event::Read(n) => n as int,
        _ => 0,
    };
    assert(last.filled.in_buf.data().subrange(
        last.filled.in_buf.pos(),
        last.filled.in_buf.end() + n,
    ) =~= before.in_buf.pending() + last.read());
}

} // verus!
