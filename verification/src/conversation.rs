//! A session from its beginning: rounds in each of which the owner makes room, reads,
//! and writes the response, if there is one, in chunks.
use vstd::prelude::*;
use crate::request::{httparse_request, MAX_HEADERS};
use crate::request_buf::{lemma_fill_keeps_pending, RequestError, BUF_CAPACITY};
use crate::session::{next_write, session_reacts, Session, SessionStep};
use crate::transcript::{
    nothing_exchanged, session_answer, session_bytes_read, session_keeps_transcript,
    write_keeps_transcript, Transcript,
};

verus! {

/// Whether the owner writes a response from `pos` on, by chunks of these sizes: each
/// write takes as much as it likes of what is left, and there is another one as long
/// as `Session::on_written` says where it has to begin.
pub open spec fn writes_chunks(resp: Seq<u8>, pos: int, chunks: Seq<nat>) -> bool
    decreases chunks.len(),
{
    if chunks.len() == 0 {
        next_write(resp.len(), pos, 0) is None
    } else {
        &&& next_write(resp.len(), pos, 0) == Some(pos)
        &&& pos + chunks[0] <= resp.len()
        &&& writes_chunks(resp, pos + chunks[0], chunks.drop_first())
    }
}

/// The bytes that chunks of these sizes hold, from `pos` on.
pub open spec fn chunk_bytes(resp: Seq<u8>, pos: int, chunks: Seq<nat>) -> Seq<u8>
    decreases chunks.len(),
{
    if chunks.len() == 0 {
        Seq::empty()
    } else {
        resp.subrange(pos, pos + chunks[0]) + chunk_bytes(
            resp,
            pos + chunks[0],
            chunks.drop_first(),
        )
    }
}

/// Whatever the sizes of the chunks, together they are the response: it is sent whole,
/// once, and in order.
pub proof fn chunks_make_the_response(resp: Seq<u8>, pos: int, chunks: Seq<nat>)
    requires
        0 <= pos <= resp.len(),
        writes_chunks(resp, pos, chunks),
    ensures
        chunk_bytes(resp, pos, chunks) == resp.skip(pos),
    decreases chunks.len(),
{
    if chunks.len() > 0 {
        chunks_make_the_response(resp, pos + chunks[0], chunks.drop_first());
        assert(resp.subrange(pos, pos + chunks[0]) + resp.skip(pos + chunks[0]) =~= resp.skip(pos));
    } else {
        assert(resp.skip(pos) =~= Seq::empty());
    }
}

/// A round of a session. The owner made room, put something into the space, and
/// announced `nread` bytes of it, with the result `step`. If that was to respond, the
/// response was written in chunks.
pub ghost struct Round {
    pub rewound: Session,
    pub filled: Session,
    pub nread: usize,
    pub after: Session,
    pub step: Result<SessionStep, RequestError>,
    pub chunks: Seq<nat>,
}

impl Round {
    /// Whether the round is one with the client at `peer`, and begins with `before`.
    pub open spec fn follows(self, before: Session, peer: Seq<char>) -> bool {
        // there was room to be made
        &&& before.makes_room(self.rewound, Ok(()))
        // only the space behind the pending bytes was written
        &&& self.rewound.in_buf.fills(self.filled.in_buf)
        &&& self.nread <= self.filled.in_buf.room()
        &&& self.filled.reads(self.nread, peer, self.after, self.step)
        &&& self.responds() ==> writes_chunks(self.after.resp@, 0, self.chunks)
    }

    /// Whether a response was written in the round.
    pub open spec fn responds(self) -> bool {
        self.step == Ok::<SessionStep, RequestError>(SessionStep::Respond)
    }

    /// Whether another round can follow.
    pub open spec fn goes_on(self) -> bool {
        self.responds() || self.step == Ok::<SessionStep, RequestError>(SessionStep::ReadMore)
    }

    /// The bytes that were read.
    pub open spec fn read(self) -> Seq<u8> {
        session_bytes_read(self.filled, self.nread)
    }

    /// The bytes that were written.
    pub open spec fn written(self) -> Seq<u8> {
        if self.responds() {
            chunk_bytes(self.after.resp@, 0, self.chunks)
        } else {
            Seq::empty()
        }
    }

    /// The request that was answered, with its response, if one was.
    pub open spec fn answered(self) -> Option<(Seq<u8>, Seq<u8>)> {
        session_answer(self.filled, self.nread, self.after, self.step)
    }
}

/// The session after these rounds.
pub open spec fn session_after(start: Session, rounds: Seq<Round>) -> Session {
    if rounds.len() == 0 {
        start
    } else {
        rounds.last().after
    }
}

/// Whether these rounds follow each other in a session with the client at `peer`
/// that begins with `start`.
pub open spec fn is_conversation(start: Session, peer: Seq<char>, rounds: Seq<Round>) -> bool
    decreases rounds.len(),
{
    if rounds.len() == 0 {
        &&& start.wf()
        &&& start.in_buf.pos() == start.in_buf.end()
    } else {
        &&& is_conversation(start, peer, rounds.drop_last())
        &&& rounds.len() > 1 ==> rounds[rounds.len() - 2].goes_on()
        &&& rounds.last().follows(session_after(start, rounds.drop_last()), peer)
    }
}

/// What was exchanged in these rounds.
pub open spec fn transcript_of(peer: Seq<char>, rounds: Seq<Round>) -> Transcript
    decreases rounds.len(),
{
    if rounds.len() == 0 {
        Transcript::empty(peer)
    } else {
        transcript_of(peer, rounds.drop_last()).extended(
            rounds.last().read(),
            rounds.last().written(),
            rounds.last().answered(),
        )
    }
}

/// After each round, whatever the sizes of the reads and writes, every request that
/// was answered has its response, which was sent whole and in order; nothing else was
/// sent, and nothing that was received is lost.
pub proof fn conversation_keeps_transcript(start: Session, peer: Seq<char>, rounds: Seq<Round>)
    requires
        is_conversation(start, peer, rounds),
    ensures
        session_after(start, rounds).wf(),
        transcript_of(peer, rounds).peer == peer,
        transcript_of(peer, rounds).inv(
            session_after(start, rounds).in_buf.pending(),
            Seq::empty(),
        ),
    decreases rounds.len(),
{
    if rounds.len() == 0 {
        nothing_exchanged(peer);
        assert(start.in_buf.pending() =~= Seq::empty());
    } else {
        let rest = rounds.drop_last();
        conversation_keeps_transcript(start, peer, rest);
        let t = transcript_of(peer, rest);
        let before = session_after(start, rest);
        let round = rounds.last();
        let filled = round.filled;
        assert(filled.in_buf.pending() =~= before.in_buf.pending()) by {
            assert(round.rewound.in_buf.pending() =~= before.in_buf.pending());
            lemma_fill_keeps_pending(round.rewound.in_buf, filled.in_buf);
        }
        session_keeps_transcript(t, filled, round.nread, round.after, round.step);
        let t1 = t.extended(round.read(), Seq::empty(), round.answered());
        if round.responds() {
            let resp = round.after.resp@;
            chunks_make_the_response(resp, 0, round.chunks);
            assert(resp.skip(0) =~= resp);
            write_keeps_transcript(t1, round.after.in_buf.pending(), resp, resp.len() as int);
            assert(resp.take(resp.len() as int) =~= resp);
            assert(resp.skip(resp.len() as int) =~= Seq::empty());
            assert(t1.extended(Seq::empty(), resp, None) == transcript_of(peer, rounds)) by {
                assert(t1.received + Seq::<u8>::empty() =~= t1.received);
                assert(t.sent + Seq::<u8>::empty() + resp =~= t.sent + resp);
            }
        } else {
            assert(t1 == transcript_of(peer, rounds));
        }
    }
}

/// A round that brings bytes answers at most one request, and one that brings none
/// answers none: the requests answered so far are those of before, and this one if
/// there is one.
pub proof fn round_answers_at_most_one(
    start: Session,
    peer: Seq<char>,
    rounds: Seq<Round>,
)
    requires
        is_conversation(start, peer, rounds),
        rounds.len() > 0,
    ensures
        ({
            let before = transcript_of(peer, rounds.drop_last()).requests;
            let after = transcript_of(peer, rounds).requests;
            &&& rounds.last().responds() <==> after.len() == before.len() + 1
            &&& !rounds.last().responds() <==> after == before
            &&& rounds.last().responds() ==> after.drop_last() == before && rounds.last().nread > 0
        }),
{
    let before = transcript_of(peer, rounds.drop_last()).requests;
    if let Some(a) = rounds.last().answered() {
        assert(before.push(a.0).drop_last() =~= before);
    }
}

/// A round that brings bytes responds exactly if the parser finds a complete request
/// at the beginning of what was pending and of what was read. It answers that request,
/// and leaves what was read behind it.
pub proof fn round_answers_complete_request(start: Session, peer: Seq<char>, rounds: Seq<Round>)
    requires
        is_conversation(start, peer, rounds),
        rounds.len() > 0,
    ensures
        ({
            let last = rounds.last();
            let before = session_after(start, rounds.drop_last());
            let input = before.in_buf.pending() + last.read();
            let found = httparse_request(input, MAX_HEADERS);
            &&& last.responds() <==> last.nread > 0 && found is Ok && found->Ok_0 is Some
            &&& last.responds() ==> {
                let head = found->Ok_0->0;
                let len = head.0 as int;
                &&& last.answered() == Some((input.take(len), last.after.resp@))
                &&& last.after.in_buf.pending() == input.skip(len)
            }
            &&& !last.responds() ==> last.after.in_buf.pending() == input
        }),
{
    conversation_keeps_transcript(start, peer, rounds.drop_last());
    let last = rounds.last();
    let before = session_after(start, rounds.drop_last());
    assert(last.rewound.in_buf.pending() =~= before.in_buf.pending());
    lemma_fill_keeps_pending(last.rewound.in_buf, last.filled.in_buf);
    session_reacts(last.filled, last.nread, peer, last.after, last.step);
    assert(before.in_buf.pending() + last.read() =~= last.filled.in_buf.data().subrange(
        last.filled.in_buf.pos(),
        last.filled.in_buf.end() + last.nread,
    ));
    if !last.responds() {
        assert(last.after.in_buf.pending() =~= before.in_buf.pending() + last.read());
    }
}

/// How a session ended, if it did: because no room could be made, or by what its last
/// read brought.
pub open spec fn outcome(start: Session, rounds: Seq<Round>) -> Option<Result<(), RequestError>> {
    if rounds.len() > 0 && !rounds.last().goes_on() {
        match rounds.last().step {
            Ok(_) => Some(Ok(())),
            Err(e) => Some(Err(e)),
        }
    } else if session_after(start, rounds).in_buf.is_full() {
        Some(Err(RequestError::TooBig))
    } else {
        None
    }
}

/// A session ends well exactly if its client left between two requests. Otherwise the
/// error says why: the client left inside a request, the bytes are no request, or the
/// request fills the buffer.
pub proof fn conversation_ends(start: Session, peer: Seq<char>, rounds: Seq<Round>)
    requires
        is_conversation(start, peer, rounds),
        rounds.len() > 0,
    ensures
        ({
            let last = rounds.last();
            let pending = last.filled.in_buf.pending();
            let input = pending + last.read();
            let r = outcome(start, rounds);
            &&& r == Some(Ok::<(), RequestError>(())) <==> last.nread == 0 && pending.len() == 0
            &&& r == Some(Err::<(), RequestError>(RequestError::Incomplete)) <==> last.nread == 0
                && pending.len() > 0
            &&& r == Some(Err::<(), RequestError>(RequestError::Malformed)) <==> last.nread > 0
                && httparse_request(input, MAX_HEADERS) is Err
            &&& r == Some(Err::<(), RequestError>(RequestError::TooBig)) <==> last.nread > 0
                && httparse_request(input, MAX_HEADERS) is Ok && last.after.in_buf.is_full()
            &&& r == Some(Err::<(), RequestError>(RequestError::TooBig)) <==> last.nread > 0
                && httparse_request(input, MAX_HEADERS) is Ok && last.after.in_buf.pending().len()
                == BUF_CAPACITY
        }),
{
    conversation_keeps_transcript(start, peer, rounds.drop_last());
    let last = rounds.last();
    assert(last.filled.in_buf.pending() + last.read() =~= last.filled.in_buf.data().subrange(
        last.filled.in_buf.pos(),
        last.filled.in_buf.end() + last.nread,
    ));
}

} // verus!
