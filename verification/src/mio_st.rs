//! An event loop that serves all connections in one thread.
//!
//! The owner of an `EventLoop` polls for readiness, accepts, reads and writes.
//! The loop decides whose turn it is.
use vstd::prelude::*;
use std::collections::VecDeque;
use crate::exchange::{Action, Event, Exchange, State};
use crate::registry::Registry;
use crate::request_buf::RequestError;

verus! {

/// The directions in which a socket is known to be ready.
#[derive(Debug, Clone, Copy, PartialEq, Eq, Structural)]
pub struct Ready {
    pub readable: bool,
    pub writable: bool,
}

impl Ready {
    pub open spec fn spec_union(self, other: Ready) -> Ready {
        Ready {
            readable: self.readable || other.readable,
            writable: self.writable || other.writable,
        }
    }

    /// The directions in which either of the two is ready.
    pub fn union(self, other: Ready) -> (r: Ready)
        ensures
            r == self.spec_union(other),
    {
        Ready {
            readable: self.readable || other.readable,
            writable: self.writable || other.writable,
        }
    }
}

/// The socket that accepts connections.
pub struct Listener {
    pub ready: Ready,
}

impl Listener {
    pub open spec fn spec_is_ready(self) -> bool {
        self.ready.readable
    }

    pub fn add_readiness(&mut self, ready: Ready)
        ensures
            final(self).ready == old(self).ready.spec_union(ready),
    {
        self.ready = self.ready.union(ready);
    }

    pub fn is_ready(&self) -> (r: bool)
        ensures
            r == self.spec_is_ready(),
    {
        self.ready.readable
    }
}

/// A connection with its socket, of type `S`.
pub struct Connection<S> {
    pub exchange: Exchange,
    pub ready: Ready,
    pub stream: S,
}

impl<S> Connection<S> {
    pub open spec fn wf(self) -> bool {
        self.exchange.wf()
    }

    /// Whether the connection can proceed: what it waits for is at hand.
    pub open spec fn spec_is_ready(self) -> bool {
        match self.exchange.state {
            State::ReadingRequests => self.ready.readable,
            State::Processing => true,
            State::SendingResponse => self.ready.writable,
            State::Closing => true,
        }
    }

    pub open spec fn spec_is_finished(self) -> bool {
        self.exchange.state == State::Closing
    }

    /// Whether the event, and what the connection does next by itself, turn it into
    /// `after` with the result `r`.
    pub open spec fn progresses(
        self,
        event: Event,
        after: Connection<S>,
        r: Result<Action, RequestError>,
    ) -> bool {
        &&& self.exchange.progresses(event, after.exchange, r)
        &&& after.stream == self.stream
        &&& after.ready == (if event == Event::Blocked {
            match self.exchange.state {
                State::ReadingRequests => Ready { readable: false, ..self.ready },
                _ => Ready { writable: false, ..self.ready },
            }
        } else {
            self.ready
        })
    }

    /// Whether `after` is the connection once its owner put something into the space
    /// of the input buffer.
    pub open spec fn fills(self, after: Connection<S>) -> bool {
        &&& self.exchange.fills(after.exchange)
        &&& after.ready == self.ready
        &&& after.stream == self.stream
    }

    /// Whether the event leads to `after`. Before it, the owner may have put something
    /// into the space of the input buffer.
    pub open spec fn steps_to(self, event: Event, after: Connection<S>) -> bool {
        exists|filled: Connection<S>, r: Result<Action, RequestError>|
            self.fills(filled) && filled.wf() && filled.exchange.accepts(event)
                && #[trigger] filled.progresses(event, after, r)
    }

    /// Whether a direction counts as ready unless the connection waits for it.
    pub open spec fn waits_for_one(self) -> bool {
        &&& self.exchange.state != State::ReadingRequests ==> self.ready.readable
        &&& self.exchange.state != State::SendingResponse ==> self.ready.writable
    }

    /// Whether the connection waits for what `ready` says is ready.
    pub open spec fn is_served_by(self, ready: Ready) -> bool {
        if self.exchange.state == State::ReadingRequests {
            ready.readable
        } else {
            ready.writable
        }
    }

    /// A connection that was just accepted. Both directions count as ready until
    /// one turns out to block.
    pub fn new(peer_addr: String, stream: S) -> (r: Connection<S>)
        ensures
            r.wf(),
            r.exchange.is_new(peer_addr@),
            r.ready == (Ready { readable: true, writable: true }),
            r.stream == stream,
            r.spec_is_ready(),
            r.waits_for_one(),
    {
        Connection {
            exchange: Exchange::new(peer_addr),
            ready: Ready { readable: true, writable: true },
            stream,
        }
    }

    pub fn add_readiness(&mut self, ready: Ready)
        ensures
            final(self).ready == old(self).ready.spec_union(ready),
            final(self).exchange == old(self).exchange,
            final(self).stream == old(self).stream,
    {
        self.ready = self.ready.union(ready);
    }

    pub fn is_ready(&self) -> (r: bool)
        ensures
            r == self.spec_is_ready(),
    {
        match self.exchange.state {
            State::ReadingRequests => self.ready.readable,
            State::Processing => true,
            State::SendingResponse => self.ready.writable,
            State::Closing => true,
        }
    }

    pub fn is_finished(&self) -> (r: bool)
        ensures
            r == self.spec_is_finished(),
    {
        match self.exchange.state {
            State::Closing => true,
            _ => false,
        }
    }

    /// Takes note of an event and proceeds. A read or a write that would have
    /// blocked ends the readiness in its direction.
    pub fn make_progress(&mut self, event: Event) -> (r: Result<Action, RequestError>)
        requires
            old(self).wf(),
            old(self).exchange.accepts(event),
        ensures
            final(self).wf(),
            old(self).progresses(event, *final(self), r),
            event == Event::Blocked ==> !final(self).spec_is_ready(),
    {
        if let Event::Blocked = event {
            if let State::ReadingRequests = self.exchange.state {
                self.ready.readable = false;
            } else {
                self.ready.writable = false;
            }
        }
        self.exchange.make_progress(event)
    }
}

/// Whether a connection goes through `conns` in one turn, by `events`: it gets the
/// turn while it is ready, and the turn is over once it blocks.
pub open spec fn is_turn<S>(conns: Seq<Connection<S>>, events: Seq<Event>) -> bool {
    &&& events.len() > 0
    &&& conns.len() == events.len() + 1
    &&& events[0] == Event::Start
    &&& conns[0].spec_is_ready()
    &&& forall|i: int| 0 <= i < events.len() ==> #[trigger] steps(conns, events, i)
    &&& forall|i: int| 0 <= i < events.len() - 1 ==> #[trigger] events[i] != Event::Blocked
}

/// Whether the event at `i` leads from one connection to the next.
pub open spec fn steps<S>(conns: Seq<Connection<S>>, events: Seq<Event>, i: int) -> bool {
    conns[i].steps_to(events[i], conns[i + 1])
}

proof fn lemma_step_readiness<S>(before: Connection<S>, event: Event, after: Connection<S>)
    requires
        before.steps_to(event, after),
        before.spec_is_ready(),
        before.waits_for_one(),
    ensures
        after.waits_for_one(),
        after.spec_is_ready() <==> event != Event::Blocked,
{
}

/// If a connection only gets a turn while it is ready, it is unready at the end of a
/// turn exactly if the last read or write would have blocked.
pub proof fn turn_keeps_readiness<S>(conns: Seq<Connection<S>>, events: Seq<Event>)
    requires
        is_turn(conns, events),
        conns[0].waits_for_one(),
    ensures
        conns.last().waits_for_one(),
        conns.last().spec_is_ready() <==> events.last() != Event::Blocked,
    decreases events.len(),
{
    let last = events.len() - 1;
    assert(steps(conns, events, last));
    if last > 0 {
        let conns0 = conns.drop_last();
        let events0 = events.drop_last();
        assert forall|i: int| 0 <= i < events0.len() implies #[trigger] steps(
            conns0,
            events0,
            i,
        ) by {
            assert(steps(conns, events, i));
            assert(conns0[i] == conns[i] && conns0[i + 1] == conns[i + 1]);
            assert(events0[i] == events[i]);
        }
        assert forall|i: int| 0 <= i < events0.len() - 1 implies #[trigger] events0[i]
            != Event::Blocked by {
            assert(events[i] != Event::Blocked);
        }
        turn_keeps_readiness(conns0, events0);
        assert(events[last - 1] != Event::Blocked);
    }
    lemma_step_readiness(conns[last], events[last], conns[last + 1]);
}

/// After a turn, and after more readiness was `added`, a connection is unready
/// exactly if the turn ended in a read or a write that would have blocked, and its
/// direction has not become ready since. So it can get its next turn. A connection
/// that is closing is always ready.
pub proof fn unready_means_blocked<S>(
    conns: Seq<Connection<S>>,
    events: Seq<Event>,
    added: Ready,
    now: Connection<S>,
)
    requires
        is_turn(conns, events),
        conns[0].waits_for_one(),
        now.exchange == conns.last().exchange,
        now.ready == conns.last().ready.spec_union(added),
    ensures
        now.waits_for_one(),
        !now.spec_is_ready() <==> events.last() == Event::Blocked
            && !conns.last().is_served_by(added),
        now.spec_is_finished() ==> now.spec_is_ready(),
{
    turn_keeps_readiness(conns, events);
    let last = events.len() - 1;
    assert(steps(conns, events, last));
}

/// A turn of a connection, by these events, and the readiness that was added until
/// its next one.
pub ghost struct Turn<S> {
    pub conns: Seq<Connection<S>>,
    pub events: Seq<Event>,
    pub added: Ready,
    pub after: Connection<S>,
}

impl<S> Turn<S> {
    /// Whether the turn begins with `before`.
    pub open spec fn follows(self, before: Connection<S>) -> bool {
        &&& is_turn(self.conns, self.events)
        &&& self.conns[0] == before
        &&& self.after.exchange == self.conns.last().exchange
        &&& self.after.ready == self.conns.last().ready.spec_union(self.added)
    }
}

/// The connection after these turns.
pub open spec fn connection_after<S>(start: Connection<S>, turns: Seq<Turn<S>>) -> Connection<S> {
    if turns.len() == 0 {
        start
    } else {
        turns.last().after
    }
}

/// Whether these turns follow each other on a connection that begins with `start`, as
/// `Connection::new` gives it.
pub open spec fn are_turns<S>(start: Connection<S>, turns: Seq<Turn<S>>) -> bool
    decreases turns.len(),
{
    if turns.len() == 0 {
        start.waits_for_one()
    } else {
        &&& are_turns(start, turns.drop_last())
        &&& turns.last().follows(connection_after(start, turns.drop_last()))
    }
}

/// After any number of turns, a connection is unready exactly if the last of them
/// ended in a read or a write that would have blocked, and its direction has not
/// become ready since.
pub proof fn turns_keep_readiness<S>(start: Connection<S>, turns: Seq<Turn<S>>)
    requires
        are_turns(start, turns),
    ensures
        connection_after(start, turns).waits_for_one(),
        turns.len() > 0 ==> {
            let last = turns.last();
            !last.after.spec_is_ready() <==> last.events.last() == Event::Blocked
                && !last.conns.last().is_served_by(last.added)
        },
    decreases turns.len(),
{
    if turns.len() > 0 {
        turns_keep_readiness(start, turns.drop_last());
        let last = turns.last();
        unready_means_blocked(last.conns, last.events, last.added, last.after);
    }
}

/// The token of the listening socket.
pub const LISTENER_TOKEN: usize = 0;

pub open spec fn spec_token_to_slab_key(token: usize) -> usize {
    (token - 1) as usize
}

pub open spec fn spec_slab_key_to_token(key: usize) -> usize {
    (key + 1) as usize
}

/// The key of the connection that a token stands for.
pub fn token_to_slab_key(token: usize) -> (r: usize)
    requires
        token != LISTENER_TOKEN,
    ensures
        r == spec_token_to_slab_key(token),
        r == token - 1,
{
    token - 1
}

/// The token that stands for the connection under a key.
pub fn slab_key_to_token(key: usize) -> (r: usize)
    requires
        key < usize::MAX,
    ensures
        r == spec_slab_key_to_token(key),
        r == key + 1,
{
    key + 1
}

/// Keys and tokens determine each other, and no key gets the listener's token.
pub proof fn tokens_correspond_to_keys(key: usize, token: usize)
    requires
        key < usize::MAX,
        token != LISTENER_TOKEN,
    ensures
        spec_slab_key_to_token(key) != LISTENER_TOKEN,
        spec_token_to_slab_key(spec_slab_key_to_token(key)) == key,
        spec_slab_key_to_token(spec_token_to_slab_key(token)) == token,
{
}

/// The listener, the connections, and whose turn it is.
pub struct EventLoop<S> {
    listener: Listener,
    connections: Registry<Connection<S>>,
    ready_tokens: VecDeque<usize>,
}

impl<S> EventLoop<S> {
    /// The directions in which the listener is known to be ready.
    pub closed spec fn listener_ready(self) -> Ready {
        self.listener.ready
    }

    /// The connections by their tokens.
    pub closed spec fn connections(self) -> Map<usize, Connection<S>> {
        Map::new(
            |t: usize| t != LISTENER_TOKEN && self.connections@.contains_key(spec_token_to_slab_key(t)),
            |t: usize| self.connections@[spec_token_to_slab_key(t)],
        )
    }

    /// The tokens of those that wait for their turn.
    pub closed spec fn queue(self) -> Seq<usize> {
        self.ready_tokens@
    }

    /// Whether the owner has to poll.
    pub open spec fn spec_is_idle(self) -> bool {
        self.queue().len() == 0
    }

    /// Whether what a token stands for can proceed.
    pub open spec fn token_ready(self, token: usize) -> bool {
        if token == LISTENER_TOKEN {
            self.listener_ready().readable
        } else {
            self.connections().contains_key(token) && self.connections()[token].spec_is_ready()
        }
    }

    /// Whether a token stands for the listener or for a connection.
    pub open spec fn knows(self, token: usize) -> bool {
        token == LISTENER_TOKEN || self.connections().contains_key(token)
    }

    /// The invariant of the loop: a token waits for its turn exactly if what it
    /// stands for can proceed, and it waits once. Only the token whose turn it
    /// is, `busy`, does not wait.
    pub open spec fn inv(self, busy: Option<usize>) -> bool {
        &&& self.registry_wf()
        &&& forall|t: usize| #[trigger]
            self.connections().contains_key(t) ==> self.connections()[t].wf()
        &&& forall|t: usize| #[trigger]
            self.queue().contains(t) <==> self.token_ready(t) && busy != Some(t)
        &&& self.queue().no_duplicates()
        &&& busy matches Some(t) ==> self.knows(t)
    }

    /// The invariant of the registry of connections.
    pub closed spec fn registry_wf(self) -> bool {
        self.connections.wf()
    }

    /// The token that the next connection will get.
    pub closed spec fn upcoming_token(self) -> int {
        self.connections.next_key() + 1
    }

    /// Whether the readiness that polling reported for a token turns the loop into
    /// `after`.
    pub open spec fn notes(self, token: usize, readiness: Ready, after: EventLoop<S>) -> bool {
        &&& after.listener_ready() == (if token == LISTENER_TOKEN {
            self.listener_ready().spec_union(readiness)
        } else {
            self.listener_ready()
        })
        &&& token == LISTENER_TOKEN ==> after.connections() == self.connections()
        &&& token != LISTENER_TOKEN ==> after.connections() == self.connections().insert(
            token,
            Connection {
                ready: self.connections()[token].ready.spec_union(readiness),
                ..self.connections()[token]
            },
        )
        &&& after.queue() == (if !self.token_ready(token) && after.token_ready(token) {
            self.queue().push(token)
        } else {
            self.queue()
        })
    }

    /// Whether to ask whose turn it is turns the loop into `after`, with the result `r`.
    pub open spec fn gives_turn(self, after: EventLoop<S>, r: Option<usize>) -> bool {
        &&& after.listener_ready() == self.listener_ready()
        &&& after.connections() == self.connections()
        &&& match r {
            Some(token) => {
                &&& self.queue().len() > 0
                &&& token == self.queue()[0]
                &&& after.queue() == self.queue().drop_first()
            },
            None => self.queue().len() == 0 && after.queue() == self.queue(),
        }
    }

    /// Whether a connection that was accepted from the client at `peer`, with its
    /// socket, turns the loop into `after`, with the result `r`.
    pub open spec fn admits(
        self,
        peer: Seq<char>,
        stream: S,
        after: EventLoop<S>,
        r: usize,
    ) -> bool {
        let conn = after.connections()[r];
        &&& after.listener_ready() == self.listener_ready()
        &&& r == self.upcoming_token()
        &&& !self.knows(r)
        &&& after.connections().dom() == self.connections().dom().insert(r)
        &&& after.connections().remove(r) == self.connections()
        &&& conn.exchange.is_new(peer)
        &&& conn.ready == (Ready { readable: true, writable: true })
        &&& conn.stream == stream
        &&& after.queue() == (if self.listener_ready().readable {
            self.queue().push(r).push(LISTENER_TOKEN)
        } else {
            self.queue().push(r)
        })
    }

    /// Whether that there was nobody to be accepted turns the loop into `after`.
    pub open spec fn finds_nobody(self, after: EventLoop<S>) -> bool {
        &&& after.listener_ready() == (Ready { readable: false, ..self.listener_ready() })
        &&& after.connections() == self.connections()
        &&& after.queue() == self.queue()
    }

    /// Whether the end of a connection's turn turns the loop into `after`.
    pub open spec fn ends_turn(self, token: usize, failed: bool, after: EventLoop<S>) -> bool {
        let conn = self.connections()[token];
        &&& after.listener_ready() == self.listener_ready()
        &&& if failed || conn.spec_is_finished() {
            &&& after.connections() == self.connections().remove(token)
            &&& after.queue() == self.queue()
            &&& after.upcoming_token() == token
        } else {
            &&& after.connections() == self.connections()
            &&& after.upcoming_token() == self.upcoming_token()
            &&& after.queue() == (if conn.spec_is_ready() {
                self.queue().push(token)
            } else {
                self.queue()
            })
        }
    }

    /// A loop without connections, whose listener counts as ready.
    pub fn new() -> (r: EventLoop<S>)
        ensures
            r.inv(None),
            r.listener_ready() == (Ready { readable: true, writable: false }),
            r.connections() == Map::<usize, Connection<S>>::empty(),
            r.queue() == seq![LISTENER_TOKEN],
            r.upcoming_token() == 1,
    {
        let listener = Listener { ready: Ready { readable: true, writable: false } };
        let mut ready_tokens: VecDeque<usize> = VecDeque::new();
        if listener.is_ready() {
            ready_tokens.push_back(LISTENER_TOKEN);
        }
        let r = EventLoop { listener, connections: Registry::with_capacity(1024), ready_tokens };
        assert(r.queue() =~= seq![LISTENER_TOKEN]);
        assert(r.queue()[0] == LISTENER_TOKEN);
        assert(r.connections() =~= Map::<usize, Connection<S>>::empty());
        r
    }

    /// Whether nobody can proceed, so that the owner has to poll.
    pub fn is_idle(&self) -> (r: bool)
        ensures
            r == self.spec_is_idle(),
    {
        self.ready_tokens.len() == 0
    }

    /// Whether a token stands for the listener or for a connection.
    pub fn is_known(&self, token: usize) -> (r: bool)
        ensures
            r == self.knows(token),
    {
        token == LISTENER_TOKEN || self.connections.contains(token_to_slab_key(token))
    }

    /// Takes note of the readiness that polling reported for a token.
    pub fn on_event(&mut self, token: usize, readiness: Ready)
        requires
            old(self).inv(None),
            old(self).knows(token),
        ensures
            final(self).inv(None),
            final(self).upcoming_token() == old(self).upcoming_token(),
            old(self).notes(token, readiness, *final(self)),
    {
        let was_ready;
        let now_ready;
        if token == LISTENER_TOKEN {
            was_ready = self.listener.is_ready();
            self.listener.add_readiness(readiness);
            now_ready = self.listener.is_ready();
            assert(self.connections() =~= old(self).connections());
        } else {
            let key = token_to_slab_key(token);
            let conn = self.connections.get_mut(key);
            was_ready = conn.is_ready();
            conn.add_readiness(readiness);
            now_ready = conn.is_ready();
            proof {
                let c = Connection {
                    ready: old(self).connections()[token].ready.spec_union(readiness),
                    ..old(self).connections()[token]
                };
                assert(self.connections@[key] == c);
                assert(self.connections() =~= old(self).connections().insert(token, c));
            }
        }
        if !was_ready && now_ready {
            self.ready_tokens.push_back(token);
        }
        proof {
            lemma_push(old(self).queue(), token);
            assert forall|t: usize| #[trigger]
                self.queue().contains(t) <==> self.token_ready(t) by {
                assert(old(self).queue().contains(t) <==> old(self).token_ready(t));
            }
        }
    }

    /// Whose turn it is, if anybody can proceed.
    pub fn next_token(&mut self) -> (r: Option<usize>)
        requires
            old(self).inv(None),
        ensures
            final(self).inv(r),
            final(self).upcoming_token() == old(self).upcoming_token(),
            old(self).gives_turn(*final(self), r),
            r matches Some(token) ==> old(self).token_ready(token),
    {
        let r = self.ready_tokens.pop_front();
        proof {
            assert(self.connections() =~= old(self).connections());
            if let Some(token) = r {
                assert(self.queue() =~= old(self).queue().drop_first());
                assert(old(self).queue().contains(token)) by {
                    assert(old(self).queue()[0] == token);
                }
                assert forall|t: usize| #[trigger]
                    self.queue().contains(t) <==> old(self).queue().contains(t) && t != token by {
                    lemma_pop(old(self).queue(), t);
                }
                assert forall|t: usize| #[trigger]
                    self.queue().contains(t) <==> self.token_ready(t) && r != Some(t) by {
                    assert(old(self).queue().contains(t) <==> old(self).token_ready(t));
                }
            } else {
                assert(self.queue() =~= old(self).queue());
            }
        }
        r
    }

    /// In the listener's turn: the token under which the next connection will be
    /// known, so that its socket can be registered.
    pub fn vacant_token(&mut self) -> (r: usize)
        requires
            old(self).inv(Some(LISTENER_TOKEN)),
        ensures
            final(self).inv(Some(LISTENER_TOKEN)),
            final(self).upcoming_token() == old(self).upcoming_token(),
            final(self).listener_ready() == old(self).listener_ready(),
            final(self).connections() == old(self).connections(),
            final(self).queue() == old(self).queue(),
            r == old(self).upcoming_token(),
            !old(self).knows(r),
    {
        let key = self.connections.vacant_key();
        assert(self.connections() =~= old(self).connections());
        proof {
            assert forall|t: usize| #[trigger]
                self.queue().contains(t) <==> self.token_ready(t) && t != LISTENER_TOKEN by {
                assert(old(self).queue().contains(t) <==> old(self).token_ready(t) && t
                    != LISTENER_TOKEN);
            }
        }
        slab_key_to_token(key)
    }

    /// In the listener's turn: takes in a connection that was accepted. Its turn
    /// comes first, then the listener's again.
    pub fn on_accept(&mut self, peer_addr: String, stream: S) -> (r: usize)
        requires
            old(self).inv(Some(LISTENER_TOKEN)),
        ensures
            final(self).inv(None),
            old(self).admits(peer_addr@, stream, *final(self), r),
            old(self).queue().is_prefix_of(final(self).queue()),
    {
        let conn = Connection::new(peer_addr, stream);
        let is_ready = conn.is_ready();
        let ghost fresh = conn;
        let key = self.connections.insert(conn);
        let token = slab_key_to_token(key);
        assert(self.connections() =~= old(self).connections().insert(token, fresh));
        assert(self.connections().remove(token) =~= old(self).connections());
        if is_ready {
            self.ready_tokens.push_back(token);
        }
        proof {
            assert(old(self).queue().contains(token) <==> old(self).token_ready(token));
            lemma_push(old(self).queue(), token);
            lemma_push(old(self).queue().push(token), LISTENER_TOKEN);
            assert(old(self).queue().contains(LISTENER_TOKEN) <==> false);
        }
        if self.listener.is_ready() {
            self.ready_tokens.push_back(LISTENER_TOKEN);
        }
        proof {
            assert forall|t: usize| #[trigger]
                self.queue().contains(t) <==> self.token_ready(t) by {
                assert(old(self).queue().contains(t) <==> old(self).token_ready(t) && t
                    != LISTENER_TOKEN);
            }
        }
        token
    }

    /// In the listener's turn: no connection was there to be accepted.
    pub fn on_accept_blocked(&mut self)
        requires
            old(self).inv(Some(LISTENER_TOKEN)),
        ensures
            final(self).inv(None),
            final(self).upcoming_token() == old(self).upcoming_token(),
            old(self).finds_nobody(*final(self)),
            old(self).queue().is_prefix_of(final(self).queue()),
    {
        self.listener.ready.readable = false;
        assert(self.connections() =~= old(self).connections());
        proof {
            assert forall|t: usize| #[trigger]
                self.queue().contains(t) <==> self.token_ready(t) by {
                assert(old(self).queue().contains(t) <==> old(self).token_ready(t) && t
                    != LISTENER_TOKEN);
            }
        }
    }

    /// The connection whose turn it is.
    pub fn connection_mut(&mut self, token: usize) -> (r: &mut Connection<S>)
        requires
            old(self).inv(Some(token)),
            token != LISTENER_TOKEN,
        ensures
            *r == old(self).connections()[token],
            r.wf(),
            final(self).connections() == old(self).connections().insert(token, *final(r)),
            final(self).upcoming_token() == old(self).upcoming_token(),
            final(self).listener_ready() == old(self).listener_ready(),
            final(self).queue() == old(self).queue(),
            final(r).wf() ==> final(self).inv(Some(token)),
    {
        proof {
            lemma_turn(*self, token);
        }
        let key = token_to_slab_key(token);
        self.connections.get_mut(key)
    }

    /// Ends the turn of a connection: it is dropped if it failed or is finished,
    /// and waits for its next turn if it can proceed.
    pub fn settle(&mut self, token: usize, failed: bool)
        requires
            old(self).inv(Some(token)),
            token != LISTENER_TOKEN,
        ensures
            final(self).inv(None),
            old(self).ends_turn(token, failed, *final(self)),
            old(self).queue().is_prefix_of(final(self).queue()),
    {
        let key = token_to_slab_key(token);
        if failed || self.connections.get(key).is_finished() {
            let _ = self.connections.remove(key);
            assert(self.connections() =~= old(self).connections().remove(token));
        } else if self.connections.get(key).is_ready() {
            self.ready_tokens.push_back(token);
            assert(self.connections() =~= old(self).connections());
        } else {
            assert(self.connections() =~= old(self).connections());
        }
        proof {
            lemma_push(old(self).queue(), token);
            assert(!old(self).queue().contains(token));
            assert forall|t: usize| #[trigger]
                self.queue().contains(t) <==> self.token_ready(t) by {
                assert(old(self).queue().contains(t) <==> old(self).token_ready(t) && t != token);
            }
        }
    }
}

/// If nobody waits for a turn, nobody can proceed: to poll then loses no time.
pub proof fn idle_means_blocked<S>(event_loop: EventLoop<S>, token: usize)
    requires
        event_loop.inv(None),
        event_loop.queue().len() == 0,
    ensures
        !event_loop.token_ready(token),
{
    assert(!event_loop.queue().contains(token));
}

/// The owner has to poll exactly if nobody can proceed.
pub proof fn idle_exactly_if_nobody_can_proceed<S>(event_loop: EventLoop<S>)
    requires
        event_loop.inv(None),
    ensures
        event_loop.spec_is_idle() <==> forall|token: usize| !#[trigger] event_loop.token_ready(token),
{
    if event_loop.queue().len() > 0 {
        let token = event_loop.queue()[0];
        assert(event_loop.queue().contains(token));
        assert(event_loop.token_ready(token));
    } else {
        assert forall|token: usize| !#[trigger] event_loop.token_ready(token) by {
            assert(!event_loop.queue().contains(token));
        }
    }
}

/// Nobody is overtaken: with each turn, whoever waits moves up by one place.
/// `before` is the loop before `next_token`, `during` the one behind it, and `after`
/// the one at the end of the turn.
pub proof fn waiting_moves_up<S>(
    before: EventLoop<S>,
    during: EventLoop<S>,
    after: EventLoop<S>,
    i: int,
)
    requires
        during.queue() == before.queue().drop_first(),
        during.queue().is_prefix_of(after.queue()),
        0 < i < before.queue().len(),
    ensures
        i - 1 < after.queue().len(),
        after.queue()[i - 1] == before.queue()[i],
{
    assert(during.queue()[i - 1] == before.queue()[i]);
    assert(after.queue().subrange(0, during.queue().len() as int)[i - 1] == after.queue()[i - 1]);
}

/// Who can proceed: the listener if it is readable; a connection that reads if it is
/// readable, one that sends if it is writable, and any other at once.
pub proof fn who_can_proceed<S>(event_loop: EventLoop<S>, token: usize)
    ensures
        event_loop.token_ready(LISTENER_TOKEN) <==> event_loop.listener_ready().readable,
        token != LISTENER_TOKEN ==> {
            let conn = event_loop.connections()[token];
            event_loop.token_ready(token) <==> event_loop.connections().contains_key(token) && (
            conn.exchange.state == State::Processing || conn.exchange.state == State::Closing
                || conn.exchange.state == State::ReadingRequests && conn.ready.readable
                || conn.exchange.state == State::SendingResponse && conn.ready.writable)
        },
{
}

/// An event adds to the readiness of the one whose token it bears, and to nothing else.
/// That one is queued, behind all others, exactly if it could not proceed before and
/// can now.
pub proof fn event_concerns_one_token<S>(
    before: EventLoop<S>,
    token: usize,
    readiness: Ready,
    after: EventLoop<S>,
    other: usize,
)
    requires
        before.inv(None),
        before.knows(token),
        before.notes(token, readiness, after),
    ensures
        token == LISTENER_TOKEN ==> {
            let was = before.listener_ready();
            &&& after.listener_ready().readable == (was.readable || readiness.readable)
            &&& after.listener_ready().writable == (was.writable || readiness.writable)
            &&& after.connections() == before.connections()
        },
        token != LISTENER_TOKEN ==> {
            let was = before.connections()[token];
            let is = after.connections()[token];
            &&& after.listener_ready() == before.listener_ready()
            &&& after.connections().contains_key(token)
            &&& is.exchange == was.exchange
            &&& is.stream == was.stream
            &&& is.ready.readable == (was.ready.readable || readiness.readable)
            &&& is.ready.writable == (was.ready.writable || readiness.writable)
        },
        other != token ==> {
            &&& after.connections().contains_key(other) == before.connections().contains_key(other)
            &&& before.connections().contains_key(other) ==> after.connections()[other]
                == before.connections()[other]
        },
        after.queue() == before.queue() || after.queue() == before.queue().push(token),
        after.queue() == before.queue().push(token) <==> !before.token_ready(token)
            && after.token_ready(token),
{
    assert(before.queue().push(token).len() == before.queue().len() + 1);
}

/// The first in the queue gets the turn and leaves the queue; nothing else changes.
/// There is no turn exactly if the queue is empty.
pub proof fn turn_goes_to_the_first<S>(before: EventLoop<S>, after: EventLoop<S>, r: Option<usize>)
    requires
        before.gives_turn(after, r),
    ensures
        r is None <==> before.queue().len() == 0,
        r matches Some(token) ==> before.queue() == seq![token] + after.queue(),
        after.connections() == before.connections(),
        after.listener_ready() == before.listener_ready(),
{
    if let Some(token) = r {
        assert(before.queue() =~= seq![token] + after.queue());
    }
}

/// A connection that was accepted is new, has a token of its own, and gets its turn
/// behind all that wait but before the listener. All others stay as they are.
pub proof fn accepted_connection_is_served<S>(
    before: EventLoop<S>,
    peer: Seq<char>,
    stream: S,
    after: EventLoop<S>,
    r: usize,
    other: usize,
)
    requires
        before.inv(Some(LISTENER_TOKEN)),
        before.admits(peer, stream, after, r),
    ensures
        r != LISTENER_TOKEN,
        !before.connections().contains_key(r),
        after.connections().contains_key(r),
        ({
            let conn = after.connections()[r];
            &&& conn.exchange.state == State::ReadingRequests
            &&& conn.exchange.peer_addr@ == peer
            &&& conn.exchange.in_buf.pending().len() == 0
            &&& conn.exchange.in_buf.end() == 0
            &&& conn.exchange.spec_unsent().len() == 0
            &&& conn.ready.readable && conn.ready.writable
            &&& conn.stream == stream
        }),
        other != r ==> {
            &&& after.connections().contains_key(other) == before.connections().contains_key(other)
            &&& before.connections().contains_key(other) ==> after.connections()[other]
                == before.connections()[other]
        },
        after.token_ready(r),
        before.listener_ready().readable ==> after.queue() == before.queue() + seq![
            r,
            LISTENER_TOKEN,
        ],
        !before.listener_ready().readable ==> after.queue() == before.queue() + seq![r],
{
    assert(before.queue().push(r).push(LISTENER_TOKEN) =~= before.queue() + seq![r, LISTENER_TOKEN]);
    assert(before.queue().push(r) =~= before.queue() + seq![r]);
    if other != r {
        assert(after.connections().remove(r).contains_key(other)
            == after.connections().contains_key(other));
        if before.connections().contains_key(other) {
            assert(after.connections().remove(r)[other] == after.connections()[other]);
        }
    }
    assert(after.connections().dom().contains(r));
}

/// A listener that found nobody waits, out of the queue, until it is readable again.
pub proof fn listener_waits_for_clients<S>(before: EventLoop<S>, after: EventLoop<S>)
    requires
        before.inv(Some(LISTENER_TOKEN)),
        before.finds_nobody(after),
    ensures
        !after.token_ready(LISTENER_TOKEN),
        !after.queue().contains(LISTENER_TOKEN),
        after.queue() == before.queue(),
        after.connections() == before.connections(),
{
    assert(before.queue().contains(LISTENER_TOKEN) <==> false);
}

/// A connection leaves at the end of its turn exactly if it failed or its client is
/// done. Otherwise it stays as it is, and waits for its next turn, behind all others,
/// exactly if it can proceed. All others stay as they are, and keep their places.
pub proof fn connection_leaves_only_if_it_ended<S>(
    before: EventLoop<S>,
    token: usize,
    failed: bool,
    after: EventLoop<S>,
    other: usize,
)
    requires
        before.inv(Some(token)),
        token != LISTENER_TOKEN,
        before.ends_turn(token, failed, after),
    ensures
        ({
            let conn = before.connections()[token];
            let stays = !failed && conn.exchange.state != State::Closing;
            &&& after.connections().contains_key(token) <==> stays
            &&& stays ==> after.connections()[token] == conn
            &&& after.queue() == (if stays && before.token_ready(token) {
                before.queue() + seq![token]
            } else {
                before.queue()
            })
        }),
        other != token ==> {
            &&& after.connections().contains_key(other) == before.connections().contains_key(other)
            &&& before.connections().contains_key(other) ==> after.connections()[other]
                == before.connections()[other]
        },
        after.listener_ready() == before.listener_ready(),
{
    assert(before.queue().push(token) =~= before.queue() + seq![token]);
}

/// In the turn of a connection the invariant holds whatever becomes of it.
proof fn lemma_turn<S>(before: EventLoop<S>, token: usize)
    requires
        before.inv(Some(token)),
        token != LISTENER_TOKEN,
    ensures
        forall|after: EventLoop<S>|
            {
                let conn = after.connections@[spec_token_to_slab_key(token)];
                &&& after.listener == before.listener
                &&& after.ready_tokens == before.ready_tokens
                &&& after.connections.wf()
                &&& after.connections@ == before.connections@.insert(spec_token_to_slab_key(token), conn)
                &&& conn.wf()
            } ==> #[trigger] after.inv(Some(token)),
{
    assert forall|after: EventLoop<S>|
        {
            let conn = after.connections@[spec_token_to_slab_key(token)];
            &&& after.listener == before.listener
            &&& after.ready_tokens == before.ready_tokens
            &&& after.connections.wf()
            &&& after.connections@ == before.connections@.insert(spec_token_to_slab_key(token), conn)
            &&& conn.wf()
        } implies #[trigger] after.inv(Some(token)) by {
        let conn = after.connections@[spec_token_to_slab_key(token)];
        assert(after.connections() =~= before.connections().insert(token, conn));
        assert forall|t: usize| #[trigger]
            after.queue().contains(t) <==> after.token_ready(t) && Some(token) != Some(t) by {
            assert(before.queue().contains(t) <==> before.token_ready(t) && Some(token) != Some(t));
        }
    }
}

proof fn lemma_push(s: Seq<usize>, x: usize)
    ensures
        forall|y: usize| #[trigger] s.push(x).contains(y) <==> s.contains(y) || y == x,
        s.no_duplicates() && !s.contains(x) ==> s.push(x).no_duplicates(),
{
    assert forall|y: usize| #[trigger] s.push(x).contains(y) <==> s.contains(y) || y == x by {
        if s.contains(y) {
            let i = choose|i: int| 0 <= i < s.len() && s[i] == y;
            assert(s.push(x)[i] == y);
        }
        if y == x {
            assert(s.push(x)[s.len() as int] == y);
        }
    }
}

proof fn lemma_pop(s: Seq<usize>, y: usize)
    requires
        s.len() > 0,
        s.no_duplicates(),
    ensures
        s.subrange(1, s.len() as int).contains(y) <==> s.contains(y) && y != s[0],
{
    let rest = s.subrange(1, s.len() as int);
    if rest.contains(y) {
        let i = choose|i: int| 0 <= i < rest.len() && rest[i] == y;
        assert(s[i + 1] == y);
    }
    if s.contains(y) && y != s[0] {
        let i = choose|i: int| 0 <= i < s.len() && s[i] == y;
        assert(rest[i - 1] == y);
    }
}

} // verus!
