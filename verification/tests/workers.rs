use nbio::exchange::Event;
use nbio::minitokio::{
    poll_attempt, poll_registered, spawn, worker_step, ExecutorInner, IoResource, PollStep, Polled,
    Reactor, RegisterStep, Waker, WorkerStep,
};
use nbio::attempt::Attempt;
use nbio::mio_mt::{
    listener_progress, needs_reregistration, Connection, Readiness, Step, Tasks,
};
use nbio::RequestError;

#[test]
fn task_is_taken_once_until_it_is_parked_again() {
    let mut tasks: Tasks<&str> = Tasks::with_capacity(4);
    let key = tasks.vacant_key();
    assert_eq!(tasks.spawn("a"), key);
    let other = tasks.spawn("b");
    assert_ne!(key, other);

    assert_eq!(tasks.take(key), Some("a"));
    assert_eq!(tasks.take(key), None);
    assert_eq!(tasks.take(other), Some("b"));

    let ready: Result<Readiness, ()> = Ok(Readiness::Ready);
    assert_eq!(tasks.settle(key, "a", &ready), Some("a"));
    assert_eq!(tasks.take(key), None);
    let blocked: Result<Readiness, ()> = Ok(Readiness::Blocked);
    assert_eq!(tasks.settle(key, "a", &blocked), None);
    assert_eq!(tasks.take(key), Some("a"));
}

#[test]
fn finished_and_failed_tasks_leave_the_table() {
    let mut tasks: Tasks<u8> = Tasks::with_capacity(0);
    let a = tasks.spawn(1);
    let b = tasks.spawn(2);
    let finished: Result<Readiness, &str> = Ok(Readiness::Finished);
    let failed: Result<Readiness, &str> = Err("failed");
    tasks.take(a);
    assert_eq!(tasks.settle(a, 1, &finished), None);
    assert!(!tasks.contains(a));
    assert!(tasks.contains(b));
    tasks.take(b);
    assert_eq!(tasks.settle(b, 2, &failed), None);
    assert!(!tasks.contains(b));
    assert_eq!(tasks.spawn(3), b);
}

#[test]
fn listener_goes_on_unless_accepting_fails() {
    assert_eq!(
        listener_progress::<u8>(Attempt::Done(Ok(()))),
        Ok(Readiness::Ready)
    );
    assert_eq!(listener_progress(Attempt::Done(Err(1))), Err(1));
    assert_eq!(
        listener_progress::<u8>(Attempt::WouldBlock),
        Ok(Readiness::Blocked)
    );
    assert_eq!(listener_progress(Attempt::Failed(2)), Err(2));
}

#[test]
fn worker_on_a_connection_reads_writes_and_returns() {
    let get = b"GET / HTTP/1.1\r\n\r\n";
    let mut conn = Connection::new("peer".to_string(), ());
    assert_eq!(conn.make_progress(Event::Start), Ok(Step::Read));
    assert_eq!(
        conn.make_progress(Event::Blocked),
        Ok(Step::Return(Readiness::Blocked))
    );
    conn.exchange.in_buf.as_mut()[..get.len()].copy_from_slice(get);
    assert_eq!(conn.make_progress(Event::Read(get.len())), Ok(Step::Write));
    let len = conn.exchange.unsent().len();
    assert_eq!(
        conn.make_progress(Event::Wrote(len)),
        Ok(Step::Return(Readiness::Ready))
    );
    assert_eq!(
        conn.make_progress(Event::Read(0)),
        Ok(Step::Return(Readiness::Finished))
    );

    let mut conn = Connection::new("peer".to_string(), ());
    conn.exchange.in_buf.as_mut()[0] = 0;
    assert_eq!(
        conn.make_progress(Event::Read(1)),
        Err(RequestError::Malformed)
    );
}

#[test]
fn pending_task_sleeps_until_it_is_woken_up() {
    let mut executor: ExecutorInner<&str> = ExecutorInner::new();
    let (task, id) = executor.spawn("task");
    assert_eq!(task, "task");
    assert!(!executor.is_waiting(id));
    assert_eq!(executor.settle(id, Polled::Pending("task")), None);
    assert!(executor.is_waiting(id));
    assert_eq!(executor.wakeup(id), Some("task"));
    assert!(!executor.is_waiting(id));
    assert_eq!(executor.settle(id, Polled::Ready), None);
    assert!(!executor.contains(id));
}

#[test]
fn wakeups_during_a_poll_are_not_lost_and_count_as_one() {
    let mut executor: ExecutorInner<u8> = ExecutorInner::new();
    let (_, id) = executor.spawn(7);
    assert_eq!(executor.wakeup(id), None);
    assert_eq!(executor.wakeup(id), None);
    assert_eq!(executor.settle(id, Polled::Pending(7)), Some(7));
    assert_eq!(executor.settle(id, Polled::Pending(7)), None);
    assert!(executor.is_waiting(id));
}

#[test]
fn nothing_happens_without_an_executor() {
    assert_eq!(spawn::<u8>(None, 1), None);
    assert_eq!(Waker { task_id: 3 }.wake::<u8>(None), None);
    assert!(matches!(
        worker_step::<u8>(None, 3, Polled::Ready),
        WorkerStep::Stop
    ));
}

#[test]
fn worker_steps_follow_the_state_of_the_task() {
    let mut executor: ExecutorInner<u8> = ExecutorInner::new();
    let (task, id) = spawn(Some(&mut executor), 9).unwrap();
    assert_eq!(task, 9);
    assert_eq!(Waker { task_id: id }.wake(Some(&mut executor)), None);
    assert!(matches!(
        worker_step(Some(&mut executor), id, Polled::Pending(9)),
        WorkerStep::Requeue(9)
    ));
    assert!(matches!(
        worker_step(Some(&mut executor), id, Polled::Pending(9)),
        WorkerStep::Continue
    ));
    assert_eq!(Waker { task_id: id }.wake(Some(&mut executor)), Some(9));
    assert!(matches!(
        worker_step(Some(&mut executor), id, Polled::Ready),
        WorkerStep::Continue
    ));
    assert!(!executor.contains(id));
}

#[test]
fn ids_of_tasks_are_distinct_and_recycled() {
    let mut executor: ExecutorInner<u8> = ExecutorInner::new();
    let (_, a) = executor.spawn(1);
    let (_, b) = executor.spawn(2);
    assert_ne!(a, b);
    executor.settle(a, Polled::Ready);
    assert_eq!(executor.spawn(3), (3, a));
    assert!(executor.contains(b));
}

#[test]
fn reactor_hands_a_waker_out_once() {
    let mut reactor: Reactor<&str> = Reactor::new();
    let key = reactor.vacant_key();
    assert_eq!(reactor.register("a"), key);
    assert!(reactor.is_awaited(key));
    assert_eq!(reactor.on_event(key), Some("a"));
    assert_eq!(reactor.on_event(key), None);
    assert!(!reactor.is_awaited(key));
    reactor.reregister(key, "b");
    assert_eq!(reactor.on_event(key), Some("b"));
    reactor.deregister(key);
    assert!(!reactor.contains(key));
}

#[test]
fn socket_is_registered_once_and_renewed_afterwards() {
    let mut reactor: Reactor<u8> = Reactor::new();
    let mut socket = IoResource {
        inner: "socket",
        registration: None,
    };
    assert_eq!(socket.register_step(true), RegisterStep::Register);
    assert_eq!(socket.register_step(false), RegisterStep::Skip);
    let key = reactor.vacant_key();
    socket.registered(&mut reactor, 1);
    assert_eq!(socket.registration, Some(key));
    assert_eq!(socket.register_step(true), RegisterStep::Reregister(key));
    assert_eq!(socket.register_step(false), RegisterStep::RuntimeDropped);
    assert_eq!(reactor.on_event(key), Some(1));
    socket.registered(&mut reactor, 2);
    assert_eq!(socket.registration, Some(key));
    assert_eq!(reactor.on_event(key), Some(2));
    assert_eq!(socket.inner, "socket");
}

#[test]
fn futures_register_when_they_would_block() {
    assert!(matches!(
        poll_attempt::<u8, u8>(Attempt::Done(1)),
        PollStep::Ready(Ok(1))
    ));
    assert!(matches!(
        poll_attempt::<u8, u8>(Attempt::Failed(2)),
        PollStep::Ready(Err(2))
    ));
    assert!(matches!(
        poll_attempt::<u8, u8>(Attempt::WouldBlock),
        PollStep::Register
    ));
    assert!(matches!(
        poll_registered::<u8, u8>(Ok(())),
        PollStep::Pending
    ));
    assert!(matches!(
        poll_registered::<u8, u8>(Err(3)),
        PollStep::Ready(Err(3))
    ));
}

#[test]
fn sockets_have_keys_of_their_own() {
    let mut reactor: Reactor<&str> = Reactor::new();
    let mut a = IoResource { inner: "a", registration: None };
    let mut b = IoResource { inner: "b", registration: None };
    a.registered(&mut reactor, "waker of a");
    b.registered(&mut reactor, "waker of b");
    assert_eq!((a.registration, b.registration), (Some(0), Some(1)));

    assert_eq!(reactor.on_event(1), Some("waker of b"));
    b.registered(&mut reactor, "waker of b again");
    assert_eq!(b.registration, Some(1));

    reactor.deregister(0);
    assert!(!reactor.contains(0));
    assert_eq!(reactor.on_event(1), Some("waker of b again"));
    let mut c = IoResource { inner: "c", registration: None };
    c.registered(&mut reactor, "waker of c");
    assert_eq!(c.registration, Some(0));
    assert_eq!(reactor.on_event(0), Some("waker of c"));
}

#[test]
fn only_a_failed_reregistration_is_passed_on() {
    let ready: Result<Readiness, &str> = Ok(Readiness::Ready);
    let blocked: Result<Readiness, &str> = Ok(Readiness::Blocked);
    let finished: Result<Readiness, &str> = Ok(Readiness::Finished);
    let failed: Result<Readiness, &str> = Err("failed");
    assert!(needs_reregistration(&blocked));
    assert!(!needs_reregistration(&ready));
    assert!(!needs_reregistration(&finished));
    assert!(!needs_reregistration(&failed));

    let mut tasks: Tasks<u8> = Tasks::with_capacity(4);
    let a = tasks.spawn(1);
    tasks.take(a);
    assert_eq!(tasks.give_back(a, 1, &ready, Ok(())), Ok(Some(1)));
    assert_eq!(tasks.give_back(a, 1, &blocked, Ok(())), Ok(None));
    assert_eq!(tasks.take(a), Some(1));
    assert_eq!(tasks.give_back(a, 1, &blocked, Err("no")), Err("no"));
    assert!(tasks.contains(a));
    assert_eq!(tasks.take(a), None);
    assert_eq!(tasks.give_back(a, 1, &failed, Ok(())), Ok(None));
    assert!(!tasks.contains(a));
    let b = tasks.spawn(2);
    tasks.take(b);
    assert_eq!(tasks.give_back(b, 2, &finished, Ok(())), Ok(None));
    assert!(!tasks.contains(b));
}

#[test]
fn unregistered_socket_belongs_to_the_current_reactor() {
    let mut reactor: Reactor<()> = Reactor::new();
    let mut socket = IoResource { inner: 1, registration: None };
    assert!(socket.needs_current_reactor());
    socket.registered(&mut reactor, ());
    assert!(!socket.needs_current_reactor());
}
