//! Tasks that several threads work on.
//!
//! A task that waits for its socket is parked in a table. Once the socket is
//! ready, some worker gets the task, works on it, and gives it back.
use vstd::prelude::*;
use crate::attempt::Attempt;
use crate::exchange::{connection_reacts, Action, Event, Exchange, State};
use crate::ready_queue::{lemma_received, lemma_sent, queued, queued_once, sent};
use crate::registry::Registry;
use crate::request::{httparse_request, MAX_HEADERS};
use crate::request_buf::{RequestError, BUF_CAPACITY};

verus! {

/// What a task needs after a worker worked on it.
#[derive(Debug, Clone, Copy, PartialEq, Eq, Structural)]
pub enum Readiness {
    /// To be worked on again.
    Ready,
    /// To wait for its socket.
    Blocked,
    /// Nothing any more.
    Finished,
}

/// What a listening task needs after an attempt to accept a connection.
pub open spec fn need_after_accepting<E>(attempt: Attempt<Result<(), E>, E>) -> Result<
    Readiness,
    E,
> {
    match attempt {
        Attempt::Done(Ok(_)) => Ok(Readiness::Ready),
        Attempt::Done(Err(e)) => Err(e),
        Attempt::WouldBlock => Ok(Readiness::Blocked),
        Attempt::Failed(e) => Err(e),
    }
}

/// A listening task goes on as long as connections can be accepted and tasks spawned
/// for them, waits if there is none to be accepted, and fails otherwise. It never
/// finishes.
pub proof fn listener_goes_on<E>(attempt: Attempt<Result<(), E>, E>, e: E)
    ensures
        need_after_accepting(attempt) == Ok::<Readiness, E>(Readiness::Ready) <==> attempt
            is Done && attempt->Done_0 is Ok,
        need_after_accepting(attempt) == Ok::<Readiness, E>(Readiness::Blocked) <==> attempt
            is WouldBlock,
        need_after_accepting(attempt) != Ok::<Readiness, E>(Readiness::Finished),
        need_after_accepting(attempt) == Err::<Readiness, E>(e) <==> attempt == Attempt::<
            Result<(), E>,
            E,
        >::Done(Err(e)) || attempt == Attempt::<Result<(), E>, E>::Failed(e),
{
}

/// What a listening task needs after an attempt to accept a connection. If one
/// was accepted, the attempt holds whether a task was spawned for it.
pub fn listener_progress<E>(attempt: Attempt<Result<(), E>, E>) -> (r: Result<Readiness, E>)
    ensures
        r == need_after_accepting(attempt),
{
    match attempt {
        Attempt::Done(spawned) => match spawned {
            Ok(_) => Ok(Readiness::Ready),
            Err(e) => Err(e),
        },
        Attempt::WouldBlock => Ok(Readiness::Blocked),
        Attempt::Failed(e) => Err(e),
    }
}

/// What the worker on a connection has to do next.
#[derive(Debug, Clone, Copy, PartialEq, Eq, Structural)]
pub enum Step {
    /// To read into the space of the input buffer.
    Read,
    /// To write the unsent bytes.
    Write,
    /// To give the task back.
    Return(Readiness),
}

/// A connection with its socket, of type `S`.
pub struct Connection<S> {
    pub exchange: Exchange,
    pub stream: S,
}

impl<S> Connection<S> {
    pub open spec fn wf(self) -> bool {
        self.exchange.wf()
    }

    /// What the worker has to do if the connection asks for `action`.
    pub open spec fn step(action: Result<Action, RequestError>) -> Result<Step, RequestError> {
        match action {
            Ok(Action::Read) => Ok(Step::Read),
            Ok(Action::Write) => Ok(Step::Write),
            Ok(Action::Wait) => Ok(Step::Return(Readiness::Blocked)),
            Ok(Action::Pause) => Ok(Step::Return(Readiness::Ready)),
            Ok(Action::Close) => Ok(Step::Return(Readiness::Finished)),
            Err(e) => Err(e),
        }
    }

    /// Whether the event, and what the connection does next by itself, turn it into
    /// `after` with the result `r`.
    pub open spec fn progresses(
        self,
        event: Event,
        after: Connection<S>,
        r: Result<Step, RequestError>,
    ) -> bool {
        &&& after.stream == self.stream
        &&& exists|action: Result<Action, RequestError>| #[trigger]
            self.exchange.progresses(event, after.exchange, action) && r == Self::step(action)
    }

    /// A connection that was just accepted.
    pub fn new(peer_addr: String, stream: S) -> (r: Connection<S>)
        ensures
            r.wf(),
            r.exchange.is_new(peer_addr@),
            r.stream == stream,
    {
        Connection { exchange: Exchange::new(peer_addr), stream }
    }

    /// Takes note of an event and proceeds.
    pub fn make_progress(&mut self, event: Event) -> (r: Result<Step, RequestError>)
        requires
            old(self).wf(),
            old(self).exchange.accepts(event),
        ensures
            final(self).wf(),
            old(self).progresses(event, *final(self), r),
    {
        let action = self.exchange.make_progress(event);
        assert(old(self).exchange.progresses(event, self.exchange, action));
        match action {
            Ok(Action::Read) => Ok(Step::Read),
            Ok(Action::Write) => Ok(Step::Write),
            Ok(Action::Wait) => Ok(Step::Return(Readiness::Blocked)),
            Ok(Action::Pause) => Ok(Step::Return(Readiness::Ready)),
            Ok(Action::Close) => Ok(Step::Return(Readiness::Finished)),
            Err(e) => Err(e),
        }
    }
}

/// How a worker treats a connection. It gives it back as blocked exactly if the read or
/// the write would have blocked, and as finished exactly if the client left between two
/// requests. It gives it back as ready once the input holds no complete request, and
/// otherwise reads or writes.
pub proof fn worker_treats_connection<S>(
    conn: Connection<S>,
    event: Event,
    after: Connection<S>,
    r: Result<Step, RequestError>,
)
    requires
        conn.wf(),
        conn.exchange.accepts(event),
        conn.progresses(event, after, r),
    ensures
        ({
            let n = match event {
                Event::Read(n) => n as int,
                _ => 0,
            };
            let buf = conn.exchange.in_buf;
            let found = httparse_request(
                buf.data().subrange(buf.pos(), buf.end() + n),
                MAX_HEADERS,
            );
            let looks = match event {
                Event::Start => conn.exchange.state == State::Processing,
                Event::Read(n) => n > 0,
                Event::Wrote(n) => n == conn.exchange.spec_unsent().len(),
                Event::Blocked => false,
            };
            &&& r == Ok::<Step, RequestError>(Step::Return(Readiness::Blocked)) <==> event
                == Event::Blocked
            &&& r == Ok::<Step, RequestError>(Step::Return(Readiness::Finished)) <==> event
                == Event::Read(0) && buf.pending().len() == 0 || event == Event::Start
                && conn.exchange.state == State::Closing
            &&& r == Ok::<Step, RequestError>(Step::Return(Readiness::Ready)) <==> looks && found
                is Ok && found->Ok_0 is None
            &&& r == Ok::<Step, RequestError>(Step::Read) <==> event == Event::Start
                && conn.exchange.state == State::ReadingRequests && buf.pending().len()
                < BUF_CAPACITY
            &&& r == Err::<Step, RequestError>(RequestError::TooBig) <==> event == Event::Start
                && conn.exchange.state == State::ReadingRequests && buf.pending().len()
                == BUF_CAPACITY
            &&& r == Err::<Step, RequestError>(RequestError::Incomplete) <==> event == Event::Read(0)
                && buf.pending().len() > 0
            &&& r == Err::<Step, RequestError>(RequestError::Malformed) <==> looks && found is Err
            &&& looks && found is Ok && found->Ok_0 is Some ==> r == Ok::<Step, RequestError>(
                Step::Write,
            )
        }),
{
    let action = choose|action: Result<Action, RequestError>| #[trigger]
        conn.exchange.progresses(event, after.exchange, action) && r == Connection::<S>::step(
            action,
        );
    connection_reacts(conn.exchange, event, after.exchange, action);
}

/// The tasks, of type `T`: under each key one that is parked, or none while it is
/// in flight, that is in a worker's hands or on the way to one.
pub struct Tasks<T> {
    slab: Registry<Option<T>>,
}

impl<T> View for Tasks<T> {
    type V = Map<usize, Option<T>>;

    closed spec fn view(&self) -> Map<usize, Option<T>> {
        self.slab@
    }
}

/// The table after a new task was parked under `key`.
pub open spec fn parked<T>(tasks: Map<usize, Option<T>>, key: usize, task: T) -> Map<
    usize,
    Option<T>,
> {
    tasks.insert(key, Some(task))
}

/// The table after the socket of the task under `key` was reported as ready.
pub open spec fn reported<T>(tasks: Map<usize, Option<T>>, key: usize) -> Map<usize, Option<T>> {
    tasks.insert(key, None)
}

/// The task that has to be sent to the workers if the socket of the one under `key` is
/// reported as ready.
pub open spec fn reported_task<T>(tasks: Map<usize, Option<T>>, key: usize) -> Option<T> {
    tasks[key]
}

/// The table after a worker gave a task back.
pub open spec fn settled<T, E>(
    tasks: Map<usize, Option<T>>,
    key: usize,
    task: T,
    outcome: Result<Readiness, E>,
) -> Map<usize, Option<T>> {
    match outcome {
        Ok(Readiness::Ready) => tasks,
        Ok(Readiness::Blocked) => tasks.insert(key, Some(task)),
        Ok(Readiness::Finished) | Err(_) => tasks.remove(key),
    }
}

/// The task that has to be worked on again.
pub open spec fn settled_task<T, E>(task: T, outcome: Result<Readiness, E>) -> Option<T> {
    match outcome {
        Ok(Readiness::Ready) => Some(task),
        _ => None,
    }
}

impl<T> Tasks<T> {
    pub closed spec fn wf(self) -> bool {
        self.slab.wf()
    }

    /// The key that the next task will get.
    pub closed spec fn next_key(self) -> usize {
        self.slab.next_key()
    }

    /// The keys of the tasks that are in flight.
    pub open spec fn in_flight(self) -> Set<usize> {
        Set::new(|k: usize| self@.contains_key(k) && self@[k] is None)
    }

    /// A table without tasks, with space for `capacity` of them.
    pub fn with_capacity(capacity: usize) -> (r: Tasks<T>)
        requires
            capacity * 16 <= isize::MAX,
        ensures
            r.wf(),
            r@ == Map::<usize, Option<T>>::empty(),
            r.in_flight() == Set::<usize>::empty(),
            r.next_key() == 0,
    {
        let r = Tasks { slab: Registry::with_capacity(capacity) };
        assert(r.in_flight() =~= Set::<usize>::empty());
        r
    }

    /// The key that the next task will get, so that its socket can be registered.
    pub fn vacant_key(&mut self) -> (r: usize)
        requires
            old(self).wf(),
        ensures
            final(self).wf(),
            final(self)@ == old(self)@,
            final(self).next_key() == old(self).next_key(),
            r == old(self).next_key(),
            !old(self)@.contains_key(r),
    {
        self.slab.vacant_key()
    }

    /// Parks a new task, whose socket is registered.
    pub fn spawn(&mut self, task: T) -> (r: usize)
        requires
            old(self).wf(),
        ensures
            final(self).wf(),
            r == old(self).next_key(),
            !old(self)@.contains_key(r),
            final(self)@ == parked(old(self)@, r, task),
            final(self).in_flight() == old(self).in_flight(),
    {
        let key = self.slab.insert(Some(task));
        assert(self.in_flight() =~= old(self).in_flight());
        key
    }

    /// Whether there is a task under the key, parked or in flight.
    pub fn contains(&self, key: usize) -> (r: bool)
        ensures
            r == self@.contains_key(key),
    {
        self.slab.contains(key)
    }

    /// The socket of a task is ready: takes the task, unless it is in flight.
    pub fn take(&mut self, key: usize) -> (r: Option<T>)
        requires
            old(self).wf(),
            old(self)@.contains_key(key),
        ensures
            final(self).wf(),
            final(self).next_key() == old(self).next_key(),
            r == reported_task(old(self)@, key),
            final(self)@ == reported(old(self)@, key),
            r is Some <==> !old(self).in_flight().contains(key),
            final(self).in_flight() == old(self).in_flight().insert(key),
    {
        let r = self.slab.get_mut(key).take();
        assert(self@ =~= old(self)@.insert(key, None));
        assert(self.in_flight() =~= old(self).in_flight().insert(key));
        r
    }

    /// A worker gives a task back, with what it needs. The result is the task if
    /// it has to be worked on again.
    pub fn settle<E>(&mut self, key: usize, task: T, outcome: &Result<Readiness, E>) -> (r: Option<
        T,
    >)
        requires
            old(self).wf(),
            outcome matches Ok(Readiness::Ready) || old(self)@.contains_key(key),
        ensures
            final(self).wf(),
            final(self)@ == settled(old(self)@, key, task, *outcome),
            r == settled_task(task, *outcome),
            final(self).next_key() == (match *outcome {
                Ok(Readiness::Ready) | Ok(Readiness::Blocked) => old(self).next_key(),
                Ok(Readiness::Finished) | Err(_) => key,
            }),
            final(self).in_flight() == (match *outcome {
                Ok(Readiness::Ready) => old(self).in_flight(),
                _ => old(self).in_flight().remove(key),
            }),
    {
        match outcome {
            Ok(Readiness::Ready) => Some(task),
            Ok(Readiness::Blocked) => {
                *self.slab.get_mut(key) = Some(task);
                assert(self.in_flight() =~= old(self).in_flight().remove(key));
                None
            },
            Ok(Readiness::Finished) | Err(_) => {
                let _ = self.slab.remove(key);
                assert(self.in_flight() =~= old(self).in_flight().remove(key));
                None
            },
        }
    }
}

/// A task that is blocked is parked, and is the one that its socket's next report
/// takes. One that is ready is handed on, while its place in the table stays empty. One
/// that is finished, or failed, is gone. The other tasks stay as they are.
pub proof fn task_is_kept_unless_it_ended<T, E>(
    tasks: Map<usize, Option<T>>,
    key: usize,
    task: T,
    error: E,
    other: usize,
)
    requires
        tasks.contains_key(key),
    ensures
        ({
            let blocked = settled(tasks, key, task, Ok::<Readiness, E>(Readiness::Blocked));
            let ready = settled(tasks, key, task, Ok::<Readiness, E>(Readiness::Ready));
            let finished = settled(tasks, key, task, Ok::<Readiness, E>(Readiness::Finished));
            let failed = settled(tasks, key, task, Err::<Readiness, E>(error));
            &&& blocked.contains_key(key) && blocked[key] == Some(task)
            &&& ready == tasks
            &&& !finished.contains_key(key)
            &&& !failed.contains_key(key)
            &&& other != key ==> {
                &&& blocked.contains_key(other) == tasks.contains_key(other)
                &&& finished.contains_key(other) == tasks.contains_key(other)
                &&& failed.contains_key(other) == tasks.contains_key(other)
                &&& tasks.contains_key(other) ==> {
                    &&& blocked[other] == tasks[other]
                    &&& finished[other] == tasks[other]
                    &&& failed[other] == tasks[other]
                }
            }
        }),
        settled_task(task, Ok::<Readiness, E>(Readiness::Ready)) == Some(task),
        settled_task(task, Ok::<Readiness, E>(Readiness::Blocked)) is None,
        settled_task(task, Ok::<Readiness, E>(Readiness::Finished)) is None,
        settled_task(task, Err::<Readiness, E>(error)) is None,
{
}

/// A task that was parked, when it was new or when it was given back as blocked, is
/// taken by the next report of its socket, and by no later one. The others stay.
pub proof fn report_takes_task_once<T, E>(
    tasks: Map<usize, Option<T>>,
    key: usize,
    task: T,
    other: usize,
)
    ensures
        ({
            let new = parked(tasks, key, task);
            let blocked = settled(tasks, key, task, Ok::<Readiness, E>(Readiness::Blocked));
            &&& reported_task(new, key) == Some(task)
            &&& reported_task(blocked, key) == Some(task)
            &&& reported(new, key).contains_key(key)
            &&& reported_task(reported(new, key), key) is None
            &&& reported_task(reported(blocked, key), key) is None
            &&& other != key && tasks.contains_key(other) ==> {
                &&& new.contains_key(other) && new[other] == tasks[other]
                &&& reported(tasks, key).contains_key(other)
                &&& reported(tasks, key)[other] == tasks[other]
            }
        }),
{
}

/// Whether the socket of a task has to be watched again before the task is given
/// back: exactly if the task is blocked.
pub fn needs_reregistration<E>(outcome: &Result<Readiness, E>) -> (r: bool)
    ensures
        r <==> outcome matches Ok(Readiness::Blocked),
{
    match outcome {
        Ok(Readiness::Blocked) => true,
        _ => false,
    }
}

/// Whether a worker that gives a task back turns the table into `after`, with the
/// result `r`.
pub open spec fn gives_back<T, E>(
    tasks: Map<usize, Option<T>>,
    key: usize,
    task: T,
    outcome: Result<Readiness, E>,
    reregistered: Result<(), E>,
    after: Map<usize, Option<T>>,
    r: Result<Option<T>, E>,
) -> bool {
    match reregistered {
        Err(e) if outcome matches Ok(Readiness::Blocked) => {
            &&& r == Err::<Option<T>, E>(e)
            &&& after == tasks
        },
        _ => {
            &&& r == Ok::<Option<T>, E>(settled_task(task, outcome))
            &&& after == settled(tasks, key, task, outcome)
        },
    }
}

/// Only a blocked task whose socket cannot be watched again makes its worker fail. A
/// failed task just leaves the table, and a ready one is handed on.
pub proof fn worker_fails_only_without_watch<T, E>(
    tasks: Map<usize, Option<T>>,
    key: usize,
    task: T,
    outcome: Result<Readiness, E>,
    reregistered: Result<(), E>,
    after: Map<usize, Option<T>>,
    r: Result<Option<T>, E>,
)
    requires
        tasks.contains_key(key),
        gives_back(tasks, key, task, outcome, reregistered, after, r),
    ensures
        r is Err <==> outcome == Ok::<Readiness, E>(Readiness::Blocked) && reregistered is Err,
        r is Err ==> r->Err_0 == reregistered->Err_0 && after == tasks,
        r == Ok::<Option<T>, E>(Some(task)) <==> outcome == Ok::<Readiness, E>(Readiness::Ready),
        r is Ok && outcome == Ok::<Readiness, E>(Readiness::Blocked) ==> after == tasks.insert(
            key,
            Some(task),
        ),
        outcome is Err || outcome == Ok::<Readiness, E>(Readiness::Finished) ==> after
            == tasks.remove(key),
{
}

impl<T> Tasks<T> {
    /// A worker gives a task back. If the task is blocked, `reregistered` says
    /// whether its socket is watched again: if not, that error is the result, and
    /// the task is dropped while its key stays in use. An error of the task itself
    /// is not passed on.
    pub fn give_back<E>(
        &mut self,
        key: usize,
        task: T,
        outcome: &Result<Readiness, E>,
        reregistered: Result<(), E>,
    ) -> (r: Result<Option<T>, E>)
        requires
            old(self).wf(),
            outcome matches Ok(Readiness::Ready) || old(self)@.contains_key(key),
        ensures
            final(self).wf(),
            gives_back(old(self)@, key, task, *outcome, reregistered, final(self)@, r),
            final(self).next_key() == (match *outcome {
                Ok(Readiness::Ready) | Ok(Readiness::Blocked) => old(self).next_key(),
                Ok(Readiness::Finished) | Err(_) => key,
            }),
    {
        if needs_reregistration(outcome) {
            reregistered?;
        }
        Ok(self.settle(key, task, outcome))
    }
}

/// All tasks: those in the table, those on their way to the workers, the keys of
/// those that are being worked on, and the keys under which polling watches a
/// socket. It stops watching a socket once it has reported it.
pub ghost struct Workload<T> {
    pub tasks: Map<usize, Option<T>>,
    pub queue: Seq<(T, usize)>,
    pub working: Set<usize>,
    pub watched: Set<usize>,
}

impl<T> Workload<T> {
    /// Each task is in exactly one place: in the table while its socket is watched,
    /// and otherwise on its way to the workers or in the hands of one of them.
    pub open spec fn inv(self) -> bool {
        &&& queued_once(self.queue)
        &&& forall|k: usize| #[trigger]
            queued(self.queue, k) ==> self.tasks.contains_key(k) && !self.working.contains(k)
        &&& forall|k: usize| #[trigger] self.working.contains(k) ==> self.tasks.contains_key(k)
        &&& forall|k: usize| #[trigger]
            self.tasks.contains_key(k) ==> (self.tasks[k] is Some <==> !queued(self.queue, k)
                && !self.working.contains(k))
        &&& forall|k: usize| #[trigger]
            self.watched.contains(k) <==> self.tasks.contains_key(k) && self.tasks[k] is Some
    }

    /// A new task, whose socket is watched.
    pub open spec fn spawn(self, key: usize, task: T) -> Workload<T> {
        Workload {
            tasks: parked(self.tasks, key, task),
            watched: self.watched.insert(key),
            ..self
        }
    }

    /// The socket of a task is reported as ready.
    pub open spec fn report(self, key: usize) -> Workload<T> {
        Workload {
            tasks: reported(self.tasks, key),
            queue: sent(self.queue, reported_task(self.tasks, key), key),
            watched: self.watched.remove(key),
            ..self
        }
    }

    /// A worker receives the first task that is on its way.
    pub open spec fn receive(self) -> Workload<T> {
        Workload {
            queue: self.queue.drop_first(),
            working: self.working.insert(self.queue[0].1),
            ..self
        }
    }

    /// A worker gives a task back; the socket of a blocked one is watched again.
    pub open spec fn settle<E>(self, key: usize, task: T, outcome: Result<Readiness, E>) -> Workload<
        T,
    > {
        Workload {
            tasks: settled(self.tasks, key, task, outcome),
            queue: sent(self.queue, settled_task(task, outcome), key),
            working: self.working.remove(key),
            watched: match outcome {
                Ok(Readiness::Blocked) => self.watched.insert(key),
                _ => self.watched,
            },
        }
    }
}

/// To spawn a task keeps each task in one place.
pub proof fn spawn_keeps_workload<T>(w: Workload<T>, key: usize, task: T)
    requires
        w.inv(),
        !w.tasks.contains_key(key),
    ensures
        w.spawn(key, task).inv(),
{
}

/// A socket that is watched belongs to a task in the table. When it is reported,
/// that task is sent to the workers, and each task stays in one place.
pub proof fn report_keeps_workload<T>(w: Workload<T>, key: usize)
    requires
        w.inv(),
        w.watched.contains(key),
    ensures
        w.tasks.contains_key(key),
        w.tasks[key] is Some,
        w.report(key).inv(),
        queued(w.report(key).queue, key),
{
    lemma_sent(w.queue, w.tasks[key], key);
}

/// When a worker receives a task, no other worker has it, and each task stays in
/// one place.
pub proof fn receive_keeps_workload<T>(w: Workload<T>)
    requires
        w.inv(),
        w.queue.len() > 0,
    ensures
        !w.working.contains(w.queue[0].1),
        w.receive().inv(),
{
    lemma_received(w.queue);
}

/// A worker can always give its task back, and that keeps each task in one place.
pub proof fn settle_keeps_workload<T, E>(
    w: Workload<T>,
    key: usize,
    task: T,
    outcome: Result<Readiness, E>,
)
    requires
        w.inv(),
        w.working.contains(key),
    ensures
        w.tasks.contains_key(key),
        w.settle(key, task, outcome).inv(),
{
    lemma_sent(w.queue, settled_task(task, outcome), key);
}

} // verus!
