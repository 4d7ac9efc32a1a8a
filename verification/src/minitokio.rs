//! The bookkeeping of a small runtime for asynchronous tasks.
//!
//! An executor knows in which state each task is; its workers poll the tasks that
//! are due. A reactor knows which task waits for which socket. Whoever owns the
//! two runs the threads, carries the tasks that are due to the workers, and talks
//! to the operating system.
use vstd::prelude::*;
use crate::attempt::Attempt;
use crate::ready_queue::{lemma_received, lemma_sent, queued, queued_once, sent};
use crate::registry::Registry;

verus! {

/// The state of a task of type `B` in the executor.
pub enum TaskState<B> {
    /// The task waits to be woken up.
    Waiting(B),
    /// The task is being polled, or is on the way to a worker.
    Executing,
    /// Like `Executing`, but the task was woken up meanwhile, so it has to be
    /// polled once more.
    ScheduledAgain,
}

/// What a worker found when it polled a task.
pub enum Polled<B> {
    /// The task is done.
    Ready,
    /// The task has to be polled again once it is woken up.
    Pending(B),
}

/// What a worker has to do after it polled a task.
pub enum WorkerStep<B> {
    /// To go on with the next task.
    Continue,
    /// To send the task to the workers again.
    Requeue(B),
    /// To stop, as the executor is gone.
    Stop,
}

/// The states of all tasks.
pub struct ExecutorInner<B> {
    tasks: Registry<TaskState<B>>,
}

impl<B> View for ExecutorInner<B> {
    type V = Map<usize, TaskState<B>>;

    closed spec fn view(&self) -> Map<usize, TaskState<B>> {
        self.tasks@
    }
}

/// The states after a task was taken in under the id `id`.
pub open spec fn spawned<B>(tasks: Map<usize, TaskState<B>>, id: usize) -> Map<
    usize,
    TaskState<B>,
> {
    tasks.insert(id, TaskState::Executing)
}

/// The states after the task `id` was woken up.
pub open spec fn woken<B>(tasks: Map<usize, TaskState<B>>, id: usize) -> Map<usize, TaskState<B>> {
    match tasks[id] {
        TaskState::Waiting(_) => tasks.insert(id, TaskState::Executing),
        _ => tasks.insert(id, TaskState::ScheduledAgain),
    }
}

/// The task that has to be sent to the workers if the task `id` is woken up.
pub open spec fn woken_task<B>(tasks: Map<usize, TaskState<B>>, id: usize) -> Option<B> {
    match tasks[id] {
        TaskState::Waiting(task) => Some(task),
        _ => None,
    }
}

/// The states after a worker polled the task `id`.
pub open spec fn settled<B>(
    tasks: Map<usize, TaskState<B>>,
    id: usize,
    polled: Polled<B>,
) -> Map<usize, TaskState<B>> {
    match polled {
        Polled::Ready => tasks.remove(id),
        Polled::Pending(task) => match tasks[id] {
            TaskState::ScheduledAgain => tasks.insert(id, TaskState::Executing),
            _ => tasks.insert(id, TaskState::Waiting(task)),
        },
    }
}

/// The task that has to be sent to the workers again after the task `id` was
/// polled.
pub open spec fn settled_task<B>(
    tasks: Map<usize, TaskState<B>>,
    id: usize,
    polled: Polled<B>,
) -> Option<B> {
    match polled {
        Polled::Pending(task) if tasks[id] is ScheduledAgain => Some(task),
        _ => None,
    }
}

/// The id that the next task will get after a worker polled the task `id`, if it
/// would have been `next` before: the id of a task that is done is used again.
pub open spec fn next_settled<B>(next: usize, id: usize, polled: Polled<B>) -> usize {
    match polled {
        Polled::Ready => id,
        Polled::Pending(_) => next,
    }
}

/// Whether a worker may report the task `id` as polled: it exists and was not
/// waiting.
pub open spec fn may_settle<B>(
    tasks: Map<usize, TaskState<B>>,
    id: usize,
    polled: Polled<B>,
) -> bool {
    &&& tasks.contains_key(id)
    &&& polled is Pending ==> !(tasks[id] is Waiting)
}

impl<B> ExecutorInner<B> {
    pub closed spec fn wf(self) -> bool {
        self.tasks.wf()
    }

    /// The id that the next task will get.
    pub closed spec fn next_id(self) -> usize {
        self.tasks.next_key()
    }

    /// An executor without tasks.
    pub fn new() -> (r: ExecutorInner<B>)
        ensures
            r.wf(),
            r@ == Map::<usize, TaskState<B>>::empty(),
            r.next_id() == 0,
    {
        ExecutorInner { tasks: Registry::with_capacity(0) }
    }

    /// Whether there is a task with the id.
    pub fn contains(&self, id: usize) -> (r: bool)
        ensures
            r == self@.contains_key(id),
    {
        self.tasks.contains(id)
    }

    /// Whether a task waits to be woken up.
    pub fn is_waiting(&self, id: usize) -> (r: bool)
        requires
            self@.contains_key(id),
        ensures
            r == (self@[id] is Waiting),
    {
        match self.tasks.get(id) {
            TaskState::Waiting(_) => true,
            _ => false,
        }
    }

    /// Takes in a new task. The result is the task with its id, which has to be
    /// sent to the workers.
    pub fn spawn(&mut self, task: B) -> (r: (B, usize))
        requires
            old(self).wf(),
        ensures
            final(self).wf(),
            r == (task, old(self).next_id()),
            !old(self)@.contains_key(r.1),
            final(self)@ == spawned(old(self)@, r.1),
    {
        let key = self.tasks.insert(TaskState::Executing);
        (task, key)
    }

    /// Wakes a task up. The result is the task if it has to be sent to the
    /// workers; otherwise it is there already, and will be polled once more.
    pub fn wakeup(&mut self, id: usize) -> (r: Option<B>)
        requires
            old(self).wf(),
            old(self)@.contains_key(id),
        ensures
            final(self).wf(),
            final(self).next_id() == old(self).next_id(),
            final(self)@ == woken(old(self)@, id),
            r == woken_task(old(self)@, id),
    {
        let task_state = self.tasks.get_mut(id);
        let mut previous = TaskState::ScheduledAgain;
        std::mem::swap(task_state, &mut previous);
        if let TaskState::Waiting(task) = previous {
            *task_state = TaskState::Executing;
            Some(task)
        } else {
            None
        }
    }

    /// Takes note of what a worker found when it polled a task. The result is the
    /// task if it has to be sent to the workers again.
    pub fn settle(&mut self, id: usize, polled: Polled<B>) -> (r: Option<B>)
        requires
            old(self).wf(),
            may_settle(old(self)@, id, polled),
        ensures
            final(self).wf(),
            final(self)@ == settled(old(self)@, id, polled),
            final(self).next_id() == next_settled(old(self).next_id(), id, polled),
            r == settled_task(old(self)@, id, polled),
    {
        match polled {
            Polled::Ready => {
                let _ = self.tasks.remove(id);
                None
            },
            Polled::Pending(task) => {
                let task_state = self.tasks.get_mut(id);
                match task_state {
                    TaskState::ScheduledAgain => {
                        *task_state = TaskState::Executing;
                        Some(task)
                    },
                    _ => {
                        *task_state = TaskState::Waiting(task);
                        None
                    },
                }
            },
        }
    }
}

/// Spawns a task on the current executor, if that is still there. The result is
/// the task with its id, which has to be sent to the workers.
pub fn spawn<B>(executor: Option<&mut ExecutorInner<B>>, task: B) -> (r: Option<(B, usize)>)
    requires
        executor matches Some(e) ==> e.wf(),
    ensures
        match executor {
            Some(e) => {
                &&& final(e).wf()
                &&& r == Some((task, e.next_id()))
                &&& !e@.contains_key(e.next_id())
                &&& final(e)@ == spawned(e@, e.next_id())
            },
            None => r is None,
        },
{
    match executor {
        Some(e) => Some(e.spawn(task)),
        None => None,
    }
}

/// Wakes up the tasks of an executor.
pub struct Waker {
    pub task_id: usize,
}

impl Waker {
    /// Wakes the task up, if the executor is still there. The result is the task
    /// if it has to be sent to the workers.
    pub fn wake<B>(&self, executor: Option<&mut ExecutorInner<B>>) -> (r: Option<B>)
        requires
            executor matches Some(e) ==> e.wf() && e@.contains_key(self.task_id),
        ensures
            match executor {
                Some(e) => {
                    &&& final(e).wf()
                    &&& final(e)@ == woken(e@, self.task_id)
                    &&& final(e).next_id() == e.next_id()
                    &&& r == woken_task(e@, self.task_id)
                },
                None => r is None,
            },
    {
        match executor {
            Some(e) => e.wakeup(self.task_id),
            None => None,
        }
    }
}

/// What a worker has to do after it polled the task `id`, given the states of the
/// tasks if the executor is still there.
pub open spec fn step_after<B>(
    tasks: Option<Map<usize, TaskState<B>>>,
    id: usize,
    polled: Polled<B>,
) -> WorkerStep<B> {
    match tasks {
        Some(tasks) => match settled_task(tasks, id, polled) {
            Some(task) => WorkerStep::Requeue(task),
            None => WorkerStep::Continue,
        },
        None => WorkerStep::Stop,
    }
}

/// What a worker has to do after it polled a task, with the executor if that is
/// still there.
pub fn worker_step<B>(
    executor: Option<&mut ExecutorInner<B>>,
    task_id: usize,
    polled: Polled<B>,
) -> (r: WorkerStep<B>)
    requires
        executor matches Some(e) ==> e.wf() && may_settle(e@, task_id, polled),
    ensures
        match executor {
            Some(e) => {
                &&& final(e).wf()
                &&& final(e)@ == settled(e@, task_id, polled)
                &&& final(e).next_id() == next_settled(e.next_id(), task_id, polled)
                &&& r == step_after(Some(e@), task_id, polled)
            },
            None => r == step_after(None, task_id, polled),
        },
{
    match executor {
        Some(e) => match e.settle(task_id, polled) {
            Some(task) => WorkerStep::Requeue(task),
            None => WorkerStep::Continue,
        },
        None => WorkerStep::Stop,
    }
}

/// The sockets after a task began to wait for the one under `key`.
pub open spec fn awaited<W>(io_resources: Map<usize, Option<W>>, key: usize, waker: W) -> Map<
    usize,
    Option<W>,
> {
    io_resources.insert(key, Some(waker))
}

/// The sockets after an event of the one under `key`.
pub open spec fn notified<W>(io_resources: Map<usize, Option<W>>, key: usize) -> Map<
    usize,
    Option<W>,
> {
    io_resources.insert(key, None)
}

/// The waker that an event of the socket under `key` hands out.
pub open spec fn to_wake<W>(io_resources: Map<usize, Option<W>>, key: usize) -> Option<W> {
    io_resources[key]
}

/// The sockets after the one under `key` was dropped.
pub open spec fn forgotten<W>(io_resources: Map<usize, Option<W>>, key: usize) -> Map<
    usize,
    Option<W>,
> {
    io_resources.remove(key)
}

/// Which task waits for which socket. A waker has type `W`.
pub struct Reactor<W> {
    io_resources: Registry<Option<W>>,
}

impl<W> View for Reactor<W> {
    type V = Map<usize, Option<W>>;

    closed spec fn view(&self) -> Map<usize, Option<W>> {
        self.io_resources@
    }
}

impl<W> Reactor<W> {
    pub closed spec fn wf(self) -> bool {
        self.io_resources.wf()
    }

    /// The key that the next socket will get.
    pub closed spec fn next_key(self) -> usize {
        self.io_resources.next_key()
    }

    /// A reactor without sockets.
    pub fn new() -> (r: Reactor<W>)
        ensures
            r.wf(),
            r@ == Map::<usize, Option<W>>::empty(),
            r.next_key() == 0,
    {
        Reactor { io_resources: Registry::with_capacity(0) }
    }

    /// Whether a socket is known under the key.
    pub fn contains(&self, key: usize) -> (r: bool)
        ensures
            r == self@.contains_key(key),
    {
        self.io_resources.contains(key)
    }

    /// Whether a task waits for the socket.
    pub fn is_awaited(&self, key: usize) -> (r: bool)
        requires
            self@.contains_key(key),
        ensures
            r == (self@[key] is Some),
    {
        self.io_resources.get(key).is_some()
    }

    /// The key that the next socket will get, so that it can be registered.
    pub fn vacant_key(&mut self) -> (r: usize)
        requires
            old(self).wf(),
        ensures
            final(self).wf(),
            final(self)@ == old(self)@,
            final(self).next_key() == old(self).next_key(),
            r == old(self).next_key(),
            !old(self)@.contains_key(r),
    {
        self.io_resources.vacant_key()
    }

    /// Takes in a socket for which a task waits.
    pub fn register(&mut self, waker: W) -> (r: usize)
        requires
            old(self).wf(),
        ensures
            final(self).wf(),
            r == old(self).next_key(),
            !old(self)@.contains_key(r),
            final(self)@ == awaited(old(self)@, r, waker),
    {
        self.io_resources.insert(Some(waker))
    }

    /// A task waits for a socket again. No other may do so.
    pub fn reregister(&mut self, key: usize, waker: W)
        requires
            old(self).wf(),
            old(self)@.contains_key(key),
            old(self)@[key] is None,
        ensures
            final(self).wf(),
            final(self).next_key() == old(self).next_key(),
            final(self)@ == awaited(old(self)@, key, waker),
    {
        *self.io_resources.get_mut(key) = Some(waker);
    }

    /// A socket is ready: the waker of the task that waits for it, if one does.
    pub fn on_event(&mut self, key: usize) -> (r: Option<W>)
        requires
            old(self).wf(),
            old(self)@.contains_key(key),
        ensures
            final(self).wf(),
            final(self).next_key() == old(self).next_key(),
            r == to_wake(old(self)@, key),
            final(self)@ == notified(old(self)@, key),
    {
        let r = self.io_resources.get_mut(key).take();
        assert(self@ =~= old(self)@.insert(key, None));
        r
    }

    /// Forgets a socket.
    pub fn deregister(&mut self, key: usize)
        requires
            old(self).wf(),
            old(self)@.contains_key(key),
        ensures
            final(self).wf(),
            final(self)@ == forgotten(old(self)@, key),
            final(self).next_key() == key,
    {
        let _ = self.io_resources.remove(key);
    }
}

/// How a socket gets registered for its next wakeup.
#[derive(Debug, Clone, Copy, PartialEq, Eq, Structural)]
pub enum RegisterStep {
    /// It has to be registered for the first time.
    Register,
    /// Its registration under this key has to be renewed.
    Reregister(usize),
    /// It cannot be: the runtime that it is registered with is gone.
    RuntimeDropped,
    /// It need not be: there is no runtime left that would wait for it.
    Skip,
}

/// A socket of type `S`, and the key under which it is registered, if it is.
pub struct IoResource<S> {
    pub inner: S,
    pub registration: Option<usize>,
}

/// How a socket gets registered if it is known under `registration` so far.
pub open spec fn next_registration(registration: Option<usize>, reactor_alive: bool) -> RegisterStep {
    match (registration, reactor_alive) {
        (Some(key), true) => RegisterStep::Reregister(key),
        (Some(_), false) => RegisterStep::RuntimeDropped,
        (None, true) => RegisterStep::Register,
        (None, false) => RegisterStep::Skip,
    }
}

/// The key under which a socket is known once it is registered, if the reactor would
/// deal out `next`.
pub open spec fn key_once_registered(registration: Option<usize>, next: usize) -> usize {
    match registration {
        Some(key) => key,
        None => next,
    }
}

impl<S> IoResource<S> {
    /// How the socket gets registered. `reactor_alive` tells whether the reactor
    /// is still there: the one that the socket is registered with, or else the
    /// current one.
    pub fn register_step(&self, reactor_alive: bool) -> (r: RegisterStep)
        ensures
            r == next_registration(self.registration, reactor_alive),
    {
        match self.registration {
            Some(key) => if reactor_alive {
                RegisterStep::Reregister(key)
            } else {
                RegisterStep::RuntimeDropped
            },
            None => if reactor_alive {
                RegisterStep::Register
            } else {
                RegisterStep::Skip
            },
        }
    }

    /// Whether the socket has to be registered with the current reactor. Otherwise it
    /// belongs to the one that it is registered with.
    pub fn needs_current_reactor(&self) -> (r: bool)
        ensures
            r == (self.registration is None),
    {
        self.registration.is_none()
    }

    /// Carries out a step that the operating system has agreed to.
    pub fn registered<W>(&mut self, reactor: &mut Reactor<W>, waker: W)
        requires
            old(reactor).wf(),
            old(self).registration matches Some(key) ==> old(reactor)@.contains_key(key) && old(
                reactor,
            )@[key] is None,
        ensures
            final(reactor).wf(),
            final(self).inner == old(self).inner,
            final(self).registration == Some(
                key_once_registered(old(self).registration, old(reactor).next_key()),
            ),
            old(self).registration is None ==> !old(reactor)@.contains_key(old(reactor).next_key()),
            final(reactor)@ == awaited(old(reactor)@, final(self).registration->0, waker),
    {
        match self.registration {
            Some(key) => reactor.reregister(key, waker),
            None => {
                let key = reactor.register(waker);
                self.registration = Some(key);
            },
        }
    }
}

/// What a future that does some I/O has to do.
pub enum PollStep<V, E> {
    /// It is done, with this result.
    Ready(Result<V, E>),
    /// It has to register its socket for a wakeup.
    Register,
    /// It has to be polled again later.
    Pending,
}

/// What a future has to do after an attempt at its I/O.
pub open spec fn step_after_attempt<V, E>(attempt: Attempt<V, E>) -> PollStep<V, E> {
    match attempt {
        Attempt::Done(v) => PollStep::Ready(Ok(v)),
        Attempt::WouldBlock => PollStep::Register,
        Attempt::Failed(e) => PollStep::Ready(Err(e)),
    }
}

/// What a future has to do after it tried to register its socket.
pub open spec fn step_after_registering<V, E>(registered: Result<(), E>) -> PollStep<V, E> {
    match registered {
        Ok(_) => PollStep::Pending,
        Err(e) => PollStep::Ready(Err(e)),
    }
}

/// What a future has to do after an attempt at its I/O.
pub fn poll_attempt<V, E>(attempt: Attempt<V, E>) -> (r: PollStep<V, E>)
    ensures
        r == step_after_attempt(attempt),
{
    match attempt {
        Attempt::Done(v) => PollStep::Ready(Ok(v)),
        Attempt::WouldBlock => PollStep::Register,
        Attempt::Failed(e) => PollStep::Ready(Err(e)),
    }
}

/// What a future has to do after it tried to register its socket.
pub fn poll_registered<V, E>(registered: Result<(), E>) -> (r: PollStep<V, E>)
    ensures
        r == step_after_registering::<V, E>(registered),
{
    match registered {
        Ok(_) => PollStep::Pending,
        Err(e) => PollStep::Ready(Err(e)),
    }
}

/// A whole executor: the states of the tasks, the tasks on their way to the
/// workers, and the ids of those that are being polled.
pub ghost struct Schedule<B> {
    pub tasks: Map<usize, TaskState<B>>,
    pub queue: Seq<(B, usize)>,
    pub polling: Set<usize>,
}

impl<B> Schedule<B> {
    /// Each task is in exactly one place: with the executor while it waits, and
    /// otherwise on its way to the workers or in the hands of one of them.
    pub open spec fn inv(self) -> bool {
        &&& queued_once(self.queue)
        &&& forall|id: usize| #[trigger]
            queued(self.queue, id) ==> self.tasks.contains_key(id) && !self.polling.contains(id)
        &&& forall|id: usize| #[trigger]
            self.polling.contains(id) ==> self.tasks.contains_key(id)
        &&& forall|id: usize| #[trigger]
            self.tasks.contains_key(id) ==> (self.tasks[id] is Waiting <==> !queued(self.queue, id)
                && !self.polling.contains(id))
    }

    /// Whether the task `id` is bound to be polled from now on: it is on its way
    /// to the workers, or it will be sent there after the current poll.
    pub open spec fn due(self, id: usize) -> bool {
        queued(self.queue, id) || self.polling.contains(id) && self.tasks[id] is ScheduledAgain
    }

    /// How many polls of the task `id` are still to come if nobody wakes it up: one if
    /// it is on its way to the workers, and one if it was woken up while it was polled.
    pub open spec fn polls_owed(self, id: usize) -> nat {
        (if queued(self.queue, id) {
            1nat
        } else {
            0nat
        }) + (if self.tasks.contains_key(id) && self.tasks[id] is ScheduledAgain {
            1nat
        } else {
            0nat
        })
    }

    /// Takes in a task under the id `id`.
    pub open spec fn spawn(self, task: B, id: usize) -> Schedule<B> {
        Schedule {
            tasks: spawned(self.tasks, id),
            queue: sent(self.queue, Some(task), id),
            ..self
        }
    }

    /// Wakes the task `id` up.
    pub open spec fn wakeup(self, id: usize) -> Schedule<B> {
        Schedule {
            tasks: woken(self.tasks, id),
            queue: sent(self.queue, woken_task(self.tasks, id), id),
            ..self
        }
    }

    /// A worker receives the first task that is on its way.
    pub open spec fn receive(self) -> Schedule<B> {
        Schedule {
            queue: self.queue.drop_first(),
            polling: self.polling.insert(self.queue[0].1),
            ..self
        }
    }

    /// A worker has polled the task `id`.
    pub open spec fn settle(self, id: usize, polled: Polled<B>) -> Schedule<B> {
        Schedule {
            tasks: settled(self.tasks, id, polled),
            queue: sent(self.queue, settled_task(self.tasks, id, polled), id),
            polling: self.polling.remove(id),
        }
    }
}

/// To spawn a task keeps each task in one place, and the new one is due.
pub proof fn spawn_keeps_schedule<B>(s: Schedule<B>, task: B, id: usize)
    requires
        s.inv(),
        !s.tasks.contains_key(id),
    ensures
        s.spawn(task, id).inv(),
        s.spawn(task, id).due(id),
{
    lemma_sent(s.queue, Some(task), id);
}

/// To wake a task up keeps each task in one place. The task is due afterwards, in
/// whatever state it was: no wakeup is lost.
pub proof fn wakeup_keeps_schedule<B>(s: Schedule<B>, id: usize)
    requires
        s.inv(),
        s.tasks.contains_key(id),
    ensures
        s.wakeup(id).inv(),
        s.wakeup(id).due(id),
{
    lemma_sent(s.queue, woken_task(s.tasks, id), id);
}

/// When a worker receives a task, no other worker is polling it, and each task
/// stays in one place.
pub proof fn receive_keeps_schedule<B>(s: Schedule<B>)
    requires
        s.inv(),
        s.queue.len() > 0,
    ensures
        s.receive().inv(),
        !s.polling.contains(s.queue[0].1),
        s.receive().polling.contains(s.queue[0].1),
{
    lemma_received(s.queue);
}

/// A worker can always report the task that it polled, and that keeps each task in
/// one place. A task that was woken up while it was polled is due afterwards.
pub proof fn settle_keeps_schedule<B>(s: Schedule<B>, id: usize, polled: Polled<B>)
    requires
        s.inv(),
        s.polling.contains(id),
    ensures
        may_settle(s.tasks, id, polled),
        s.settle(id, polled).inv(),
        s.due(id) && polled is Pending ==> s.settle(id, polled).due(id),
{
    lemma_sent(s.queue, settled_task(s.tasks, id, polled), id);
}

/// A task that is due stays due, whatever happens to the other tasks.
pub proof fn others_keep_due<B>(s: Schedule<B>, id: usize, other: usize, task: B, polled: Polled<B>)
    requires
        s.inv(),
        s.due(id),
        other != id,
    ensures
        s.spawn(task, other).due(id),
        s.wakeup(other).due(id),
        s.queue.len() > 0 && s.queue[0].1 != id ==> s.receive().due(id),
        s.settle(other, polled).due(id),
{
    lemma_sent(s.queue, Some(task), other);
    lemma_sent(s.queue, woken_task(s.tasks, other), other);
    lemma_sent(s.queue, settled_task(s.tasks, other, polled), other);
    if s.queue.len() > 0 {
        lemma_received(s.queue);
    }
}

/// Each poll of a task is owed to its being new or to a wakeup, and none is owed twice:
/// a new task is owed one poll, a wakeup adds one, or none if one is outstanding
/// already, and a poll uses one up. Nothing else adds any, so a task that nobody wakes
/// up is left alone.
pub proof fn polls_are_owed_to_wakeups<B>(
    s: Schedule<B>,
    id: usize,
    other: usize,
    task: B,
    polled: Polled<B>,
)
    requires
        s.inv(),
        s.tasks.contains_key(id),
        other != id,
    ensures
        !s.tasks.contains_key(other) ==> s.spawn(task, other).polls_owed(other) == 1,
        s.spawn(task, other).polls_owed(id) == s.polls_owed(id),
        s.tasks[id] is ScheduledAgain ==> s.wakeup(id).polls_owed(id) == s.polls_owed(id),
        !(s.tasks[id] is ScheduledAgain) ==> s.wakeup(id).polls_owed(id) == s.polls_owed(id) + 1,
        s.wakeup(other).polls_owed(id) == s.polls_owed(id),
        s.queue.len() > 0 && s.queue[0].1 == id ==> s.receive().polls_owed(id) + 1 == s.polls_owed(
            id,
        ),
        s.queue.len() > 0 && s.queue[0].1 != id ==> s.receive().polls_owed(id) == s.polls_owed(id),
        s.polling.contains(id) && polled is Pending ==> s.settle(id, polled).polls_owed(id)
            == s.polls_owed(id),
        s.polling.contains(id) && polled is Ready ==> s.settle(id, polled).polls_owed(id) == 0,
        s.settle(other, polled).polls_owed(id) == s.polls_owed(id),
{
    lemma_sent(s.queue, Some(task), other);
    lemma_sent(s.queue, woken_task(s.tasks, id), id);
    lemma_sent(s.queue, woken_task(s.tasks, other), other);
    lemma_sent(s.queue, settled_task(s.tasks, id, polled), id);
    lemma_sent(s.queue, settled_task(s.tasks, other, polled), other);
    if s.queue.len() > 0 {
        lemma_received(s.queue);
    }
}

/// Wakeups while a task is being polled count as one.
pub proof fn wakeups_coalesce<B>(tasks: Map<usize, TaskState<B>>, id: usize)
    requires
        tasks.contains_key(id),
        !(tasks[id] is Waiting),
    ensures
        woken_task(tasks, id) is None,
        woken(woken(tasks, id), id) == woken(tasks, id),
{
    assert(woken(woken(tasks, id), id) =~= woken(tasks, id));
}

/// A task that goes to sleep is given back, unchanged, by the wakeup that follows.
pub proof fn wakeup_undoes_pending<B>(tasks: Map<usize, TaskState<B>>, id: usize, task: B)
    requires
        tasks.contains_key(id),
        tasks[id] is Executing,
    ensures
        settled_task(tasks, id, Polled::Pending(task)) is None,
        woken_task(settled(tasks, id, Polled::Pending(task)), id) == Some(task),
        woken(settled(tasks, id, Polled::Pending(task)), id) == tasks,
{
    assert(woken(settled(tasks, id, Polled::Pending(task)), id) =~= tasks);
}

/// A task that was woken up while it was polled is polled once more, and only once:
/// if it is pending it is sent to the workers, and if it is pending again, without
/// another wakeup, nothing is sent and it waits.
pub proof fn one_wakeup_means_one_more_poll<B>(
    tasks: Map<usize, TaskState<B>>,
    id: usize,
    task: B,
    again: B,
)
    requires
        tasks.contains_key(id),
        tasks[id] is ScheduledAgain,
    ensures
        settled_task(tasks, id, Polled::Pending(task)) == Some(task),
        ({
            let sent_again = settled(tasks, id, Polled::Pending(task));
            let asleep = settled(sent_again, id, Polled::Pending(again));
            &&& sent_again.contains_key(id)
            &&& sent_again[id] is Executing
            &&& settled_task(sent_again, id, Polled::Pending(again)) is None
            &&& asleep.contains_key(id)
            &&& asleep[id] == TaskState::Waiting(again)
        }),
{
}

/// Whatever a task was doing, a wakeup has one effect: the task is polled once more
/// and then waits, unless it is woken up again. One that waited is handed out at once;
/// any other is handed out when the current poll is over.
pub proof fn wakeup_leads_to_one_poll<B>(
    tasks: Map<usize, TaskState<B>>,
    id: usize,
    task: B,
    again: B,
)
    requires
        tasks.contains_key(id),
    ensures
        ({
            let up = woken(tasks, id);
            &&& up.contains_key(id)
            &&& match tasks[id] {
                TaskState::Waiting(sleeper) => {
                    &&& woken_task(tasks, id) == Some(sleeper)
                    &&& settled_task(up, id, Polled::Pending(task)) is None
                    &&& settled(up, id, Polled::Pending(task))[id] == TaskState::Waiting(task)
                },
                _ => {
                    &&& woken_task(tasks, id) is None
                    &&& settled_task(up, id, Polled::Pending(task)) == Some(task)
                    &&& settled_task(
                        settled(up, id, Polled::Pending(task)),
                        id,
                        Polled::Pending(again),
                    ) is None
                    &&& settled(
                        settled(up, id, Polled::Pending(task)),
                        id,
                        Polled::Pending(again),
                    )[id] == TaskState::Waiting(again)
                },
            }
        }),
{
}

/// A new task is polled once: if it is pending and nobody woke it up, it waits.
pub proof fn new_task_is_polled_once<B>(tasks: Map<usize, TaskState<B>>, id: usize, task: B)
    ensures
        spawned(tasks, id).contains_key(id),
        settled_task(spawned(tasks, id), id, Polled::Pending(task)) is None,
        settled(spawned(tasks, id), id, Polled::Pending(task)) == tasks.insert(
            id,
            TaskState::Waiting(task),
        ),
{
    assert(settled(spawned(tasks, id), id, Polled::Pending(task)) =~= tasks.insert(
        id,
        TaskState::Waiting(task),
    ));
}

/// A task that is done is forgotten, even if it was woken up meanwhile, and never sent
/// to the workers again.
pub proof fn done_task_is_forgotten<B>(tasks: Map<usize, TaskState<B>>, id: usize)
    ensures
        forall|next: usize| next_settled::<B>(next, id, Polled::Ready) == id,
        !settled(tasks, id, Polled::Ready).contains_key(id),
        settled_task(tasks, id, Polled::Ready) is None,
{
}

/// What happens to one task leaves the others as they are.
pub proof fn other_tasks_stay<B>(
    tasks: Map<usize, TaskState<B>>,
    id: usize,
    polled: Polled<B>,
    other: usize,
)
    requires
        other != id,
    ensures
        spawned(tasks, id).contains_key(other) == tasks.contains_key(other),
        spawned(tasks, id)[other] == tasks[other],
        woken(tasks, id).contains_key(other) == tasks.contains_key(other),
        woken(tasks, id)[other] == tasks[other],
        settled(tasks, id, polled).contains_key(other) == tasks.contains_key(other),
        tasks.contains_key(other) ==> settled(tasks, id, polled)[other] == tasks[other],
{
}

/// A worker stops exactly if the executor is gone. Otherwise it sends the task on if
/// that was woken up during the poll and is not done, and goes on with the next one.
pub proof fn worker_goes_on<B>(tasks: Map<usize, TaskState<B>>, id: usize, task: B)
    requires
        tasks.contains_key(id),
    ensures
        step_after::<B>(None, id, Polled::Ready) is Stop,
        step_after(None, id, Polled::Pending(task)) is Stop,
        step_after(Some(tasks), id, Polled::Ready) is Continue,
        tasks[id] is Executing ==> step_after(Some(tasks), id, Polled::Pending(task)) is Continue,
        tasks[id] is ScheduledAgain ==> step_after(Some(tasks), id, Polled::Pending(task))
            == WorkerStep::Requeue(task),
{
}

/// The waker that was registered last for a socket is handed out by its next
/// event, and by no later one. After that the socket can be registered again. The
/// other sockets keep their wakers.
pub proof fn event_takes_waker_once<W>(io_resources: Map<usize, Option<W>>, key: usize, waker: W)
    ensures
        ({
            let registered = awaited(io_resources, key, waker);
            let after = notified(registered, key);
            &&& registered.contains_key(key)
            &&& registered[key] == Some(waker)
            &&& to_wake(registered, key) == Some(waker)
            &&& after.contains_key(key)
            &&& after[key] is None
            &&& to_wake(after, key) is None
            &&& notified(after, key) == after
        }),
        forall|other: usize|
            other != key && #[trigger] io_resources.contains_key(other) ==> {
                &&& awaited(io_resources, key, waker).contains_key(other)
                &&& awaited(io_resources, key, waker)[other] == io_resources[other]
                &&& notified(io_resources, key).contains_key(other)
                &&& notified(io_resources, key)[other] == io_resources[other]
                &&& forgotten(io_resources, key).contains_key(other)
                &&& forgotten(io_resources, key)[other] == io_resources[other]
            },
        !forgotten(io_resources, key).contains_key(key),
{
    let after = notified(awaited(io_resources, key, waker), key);
    assert(notified(after, key) =~= after);
}

/// A socket is registered once, and afterwards renewed under the key that it got. It
/// fails exactly if it was registered with a runtime that is gone.
pub proof fn socket_keeps_its_key(registration: Option<usize>, next: usize, later: usize)
    ensures
        registration is None ==> {
            let key = key_once_registered(registration, next);
            &&& next_registration(registration, true) is Register
            &&& next_registration(registration, false) is Skip
            &&& key == next
            &&& next_registration(Some(key), true) == RegisterStep::Reregister(next)
            &&& key_once_registered(Some(key), later) == next
        },
        registration is Some ==> {
            &&& next_registration(registration, true) == RegisterStep::Reregister(registration->0)
            &&& next_registration(registration, false) is RuntimeDropped
            &&& key_once_registered(registration, next) == registration->0
        },
{
}

/// A future is done, with the result of its I/O, unless that would have blocked. Then
/// it waits for its socket, or is done with the error if that cannot be registered.
pub proof fn future_waits_if_it_would_block<V, E>(value: V, error: E)
    ensures
        step_after_attempt(Attempt::<V, E>::Done(value)) == PollStep::<V, E>::Ready(Ok(value)),
        step_after_attempt(Attempt::<V, E>::Failed(error)) == PollStep::<V, E>::Ready(Err(error)),
        step_after_attempt(Attempt::<V, E>::WouldBlock) is Register,
        step_after_registering::<V, E>(Ok(())) is Pending,
        step_after_registering::<V, E>(Err(error)) == PollStep::<V, E>::Ready(Err(error)),
{
}

/// All sockets that are registered, each with its key, and what the reactor holds.
pub ghost struct Registrations<W> {
    pub keys: Map<int, usize>,
    pub io_resources: Map<usize, Option<W>>,
}

impl<W> Registrations<W> {
    /// The reactor knows each socket under a key of its own, and nothing else.
    pub open spec fn inv(self) -> bool {
        &&& forall|s: int| #[trigger]
            self.keys.contains_key(s) ==> self.io_resources.contains_key(self.keys[s])
        &&& forall|s: int, t: int|
            s != t && #[trigger] self.keys.contains_key(s) && #[trigger] self.keys.contains_key(t)
                ==> self.keys[s] != self.keys[t]
        &&& forall|key: usize| #[trigger]
            self.io_resources.contains_key(key) ==> exists|s: int|
                self.keys.contains_key(s) && #[trigger] self.keys[s] == key
    }

    /// The socket `s` is registered under `key`, for the first time or again.
    pub open spec fn register(self, s: int, key: usize, waker: W) -> Registrations<W> {
        Registrations {
            keys: self.keys.insert(s, key),
            io_resources: awaited(self.io_resources, key, waker),
        }
    }

    /// A socket is ready.
    pub open spec fn event(self, key: usize) -> Registrations<W> {
        Registrations { io_resources: notified(self.io_resources, key), ..self }
    }

    /// The socket `s` is dropped.
    pub open spec fn deregister(self, s: int) -> Registrations<W> {
        Registrations {
            keys: self.keys.remove(s),
            io_resources: forgotten(self.io_resources, self.keys[s]),
        }
    }
}

/// To register a socket, under a new key or again under its own, leaves the others
/// their keys.
pub proof fn register_keeps_keys<W>(r: Registrations<W>, s: int, key: usize, waker: W)
    requires
        r.inv(),
        if r.keys.contains_key(s) {
            key == r.keys[s]
        } else {
            !r.io_resources.contains_key(key)
        },
    ensures
        r.register(s, key, waker).inv(),
{
    let after = r.register(s, key, waker);
    assert forall|k: usize| #[trigger] after.io_resources.contains_key(k) implies exists|t: int|
        after.keys.contains_key(t) && #[trigger] after.keys[t] == k by {
        if k == key {
            assert(after.keys[s] == k);
        } else {
            let t = choose|t: int| r.keys.contains_key(t) && #[trigger] r.keys[t] == k;
            assert(after.keys[t] == k);
        }
    }
}

/// An event leaves all sockets their keys.
pub proof fn event_keeps_keys<W>(r: Registrations<W>, key: usize)
    requires
        r.inv(),
        r.io_resources.contains_key(key),
    ensures
        r.event(key).inv(),
{
    let after = r.event(key);
    assert forall|k: usize| #[trigger] after.io_resources.contains_key(k) implies exists|t: int|
        after.keys.contains_key(t) && #[trigger] after.keys[t] == k by {
        let t = choose|t: int| r.keys.contains_key(t) && #[trigger] r.keys[t] == k;
        assert(after.keys[t] == k);
    }
}

/// To drop a socket leaves the others their keys, and its own is vacant.
pub proof fn deregister_keeps_keys<W>(r: Registrations<W>, s: int)
    requires
        r.inv(),
        r.keys.contains_key(s),
    ensures
        r.io_resources.contains_key(r.keys[s]),
        r.deregister(s).inv(),
        !r.deregister(s).io_resources.contains_key(r.keys[s]),
{
    let after = r.deregister(s);
    assert forall|k: usize| #[trigger] after.io_resources.contains_key(k) implies exists|t: int|
        after.keys.contains_key(t) && #[trigger] after.keys[t] == k by {
        let t = choose|t: int| r.keys.contains_key(t) && #[trigger] r.keys[t] == k;
        assert(after.keys[t] == k);
    }
}

} // verus!
