use nbio::exchange::{Action, Event, Exchange, State};
use nbio::mio_st::{
    slab_key_to_token, token_to_slab_key, Connection, EventLoop, Listener, Ready, LISTENER_TOKEN,
};
use nbio::RequestError;

const READABLE: Ready = Ready { readable: true, writable: false };
const WRITABLE: Ready = Ready { readable: false, writable: true };
const GET: &[u8] = b"GET / HTTP/1.1\r\n\r\n";

fn deliver(conn: &mut Exchange, bytes: &[u8]) -> Result<Action, RequestError> {
    conn.in_buf.as_mut()[..bytes.len()].copy_from_slice(bytes);
    conn.make_progress(Event::Read(bytes.len()))
}

#[test]
fn connection_reads_answers_and_reads_again() {
    let mut conn = Exchange::new("peer".to_string());
    assert_eq!(conn.make_progress(Event::Start), Ok(Action::Read));
    assert_eq!(deliver(&mut conn, GET), Ok(Action::Write));
    assert_eq!(conn.state, State::SendingResponse);
    let response = conn.unsent().to_vec();
    assert!(response.starts_with(b"HTTP/1.1 200 OK\r\n"));

    assert_eq!(conn.make_progress(Event::Wrote(10)), Ok(Action::Write));
    assert_eq!(conn.unsent(), &response[10..]);
    let rest = response.len() - 10;
    assert_eq!(conn.make_progress(Event::Wrote(rest)), Ok(Action::Pause));
    assert_eq!(conn.state, State::ReadingRequests);
    assert!(conn.unsent().is_empty());
    assert_eq!(conn.make_progress(Event::Start), Ok(Action::Read));
}

#[test]
fn connection_answers_pipelined_requests_one_after_the_other() {
    let mut conn = Exchange::new("peer".to_string());
    conn.make_progress(Event::Start).unwrap();
    let mut input = GET.to_vec();
    input.extend_from_slice(GET);
    input.extend_from_slice(b"GET");
    assert_eq!(deliver(&mut conn, &input), Ok(Action::Write));
    let first = conn.unsent().len();
    assert_eq!(conn.make_progress(Event::Wrote(first)), Ok(Action::Write));
    assert_eq!(conn.in_buf.pending_bytes(), b"GET");
    let second = conn.unsent().len();
    assert_eq!(conn.make_progress(Event::Wrote(second)), Ok(Action::Pause));
    assert_eq!(conn.in_buf.pending_bytes(), b"GET");
}

#[test]
fn connection_is_the_same_however_a_request_is_split() {
    let mut conn = Exchange::new("peer".to_string());
    for part in GET[..GET.len() - 1].chunks(1) {
        assert_eq!(conn.make_progress(Event::Start), Ok(Action::Read));
        assert_eq!(deliver(&mut conn, part), Ok(Action::Pause));
    }
    assert_eq!(conn.make_progress(Event::Start), Ok(Action::Read));
    assert_eq!(deliver(&mut conn, b"\n"), Ok(Action::Write));
    assert!(conn.in_buf.pending_bytes().is_empty());
}

#[test]
fn connection_waits_while_its_socket_blocks() {
    let mut conn = Exchange::new("peer".to_string());
    conn.make_progress(Event::Start).unwrap();
    assert_eq!(conn.make_progress(Event::Blocked), Ok(Action::Wait));
    assert_eq!(conn.state, State::ReadingRequests);
    deliver(&mut conn, GET).unwrap();
    let response = conn.unsent().to_vec();
    assert_eq!(conn.make_progress(Event::Blocked), Ok(Action::Wait));
    assert_eq!(conn.state, State::SendingResponse);
    assert_eq!(conn.unsent(), &response[..]);
}

#[test]
fn connection_closes_between_requests_only() {
    let mut conn = Exchange::new("peer".to_string());
    assert_eq!(conn.make_progress(Event::Read(0)), Ok(Action::Close));
    assert_eq!(conn.state, State::Closing);
    assert_eq!(conn.make_progress(Event::Start), Ok(Action::Close));

    let mut conn = Exchange::new("peer".to_string());
    deliver(&mut conn, b"GET").unwrap();
    assert_eq!(
        conn.make_progress(Event::Read(0)),
        Err(RequestError::Incomplete)
    );
}

#[test]
fn connection_refuses_bad_and_big_requests() {
    let mut conn = Exchange::new("peer".to_string());
    assert_eq!(
        deliver(&mut conn, b"\x01"),
        Err(RequestError::Malformed)
    );

    let mut conn = Exchange::new("peer".to_string());
    let mut input = b"GET /".to_vec();
    input.resize(4096, b'a');
    assert_eq!(deliver(&mut conn, &input), Ok(Action::Pause));
    assert_eq!(
        conn.make_progress(Event::Start),
        Err(RequestError::TooBig)
    );
}

#[test]
fn connection_turns_to_what_follows_from_processing() {
    let mut conn = Exchange::new("peer".to_string());
    conn.state = State::Processing;
    conn.out_buf.push(7);
    assert_eq!(conn.processed(Ok(true)), Ok(Action::Write));
    assert_eq!(conn.state, State::SendingResponse);
    assert_eq!(conn.unsent(), &[7]);

    let mut conn = Exchange::new("peer".to_string());
    conn.state = State::Processing;
    assert_eq!(conn.processed(Ok(false)), Ok(Action::Pause));
    assert_eq!(conn.state, State::ReadingRequests);

    conn.state = State::Processing;
    assert_eq!(
        conn.processed(Err(RequestError::Malformed)),
        Err(RequestError::Malformed)
    );
}

#[test]
fn readiness_follows_the_state() {
    let mut conn = Connection::new("peer".to_string(), ());
    assert!(conn.is_ready());
    assert!(!conn.is_finished());
    assert_eq!(conn.make_progress(Event::Start), Ok(Action::Read));
    assert_eq!(conn.make_progress(Event::Blocked), Ok(Action::Wait));
    assert_eq!(conn.ready, WRITABLE);
    assert!(!conn.is_ready());
    conn.add_readiness(READABLE);
    assert!(conn.is_ready());
    conn.exchange.in_buf.as_mut()[..GET.len()].copy_from_slice(GET);
    assert_eq!(
        conn.make_progress(Event::Read(GET.len())),
        Ok(Action::Write)
    );
    assert_eq!(conn.make_progress(Event::Blocked), Ok(Action::Wait));
    assert_eq!(conn.ready, READABLE);
    assert!(!conn.is_ready());
    conn.exchange.state = State::Processing;
    assert!(conn.is_ready());
    conn.exchange.state = State::Closing;
    assert!(conn.is_ready());
    assert!(conn.is_finished());
}

#[test]
fn listener_is_ready_if_it_is_readable() {
    let mut listener = Listener {
        ready: Ready { readable: false, writable: false },
    };
    assert!(!listener.is_ready());
    listener.add_readiness(WRITABLE);
    assert!(!listener.is_ready());
    listener.add_readiness(READABLE);
    assert!(listener.is_ready());
    assert_eq!(listener.ready, READABLE.union(WRITABLE));
}

#[test]
fn tokens_and_keys_are_one_apart() {
    assert_eq!(slab_key_to_token(0), 1);
    assert_eq!(token_to_slab_key(1), 0);
    assert_eq!(token_to_slab_key(slab_key_to_token(41)), 41);
}

#[test]
fn loop_gives_turns_in_order() {
    let mut event_loop: EventLoop<&str> = EventLoop::new();
    assert!(!event_loop.is_idle());
    assert_eq!(event_loop.next_token(), Some(LISTENER_TOKEN));
    let token = event_loop.vacant_token();
    assert_eq!(event_loop.on_accept("a".to_string(), "first"), token);
    assert_eq!(token, 1);

    // the new connection goes first, then the listener
    assert_eq!(event_loop.next_token(), Some(1));
    assert_eq!(event_loop.connection_mut(1).stream, "first");
    event_loop.settle(1, false);
    assert_eq!(event_loop.next_token(), Some(LISTENER_TOKEN));
    assert_eq!(event_loop.on_accept("b".to_string(), "second"), 2);

    assert_eq!(event_loop.next_token(), Some(1));
    let conn = event_loop.connection_mut(1);
    assert_eq!(conn.make_progress(Event::Start), Ok(Action::Read));
    assert_eq!(conn.make_progress(Event::Blocked), Ok(Action::Wait));
    event_loop.settle(1, false);
    assert_eq!(event_loop.next_token(), Some(2));
    event_loop.connection_mut(2).make_progress(Event::Blocked).unwrap();
    event_loop.settle(2, false);
    assert_eq!(event_loop.next_token(), Some(LISTENER_TOKEN));
    event_loop.on_accept_blocked();

    // everybody is blocked
    assert!(event_loop.is_idle());
    assert_eq!(event_loop.next_token(), None);
}

#[test]
fn loop_queues_a_token_once_when_it_becomes_ready() {
    let mut event_loop: EventLoop<()> = EventLoop::new();
    event_loop.next_token();
    event_loop.on_accept("a".to_string(), ());
    event_loop.next_token();
    event_loop.connection_mut(1).make_progress(Event::Blocked).unwrap();
    event_loop.settle(1, false);
    event_loop.next_token();
    event_loop.on_accept_blocked();
    assert!(event_loop.is_idle());

    event_loop.on_event(1, WRITABLE);
    assert!(event_loop.is_idle());
    event_loop.on_event(1, READABLE);
    event_loop.on_event(1, READABLE);
    event_loop.on_event(LISTENER_TOKEN, READABLE);
    event_loop.on_event(LISTENER_TOKEN, READABLE);
    assert_eq!(event_loop.next_token(), Some(1));
    event_loop.settle(1, false);
    assert_eq!(event_loop.next_token(), Some(LISTENER_TOKEN));
    event_loop.on_accept_blocked();
    assert_eq!(event_loop.next_token(), Some(1));
    event_loop.connection_mut(1).make_progress(Event::Blocked).unwrap();
    event_loop.settle(1, false);
    assert_eq!(event_loop.next_token(), None);
}

#[test]
fn loop_drops_failed_and_finished_connections_and_reuses_their_tokens() {
    let mut event_loop: EventLoop<u8> = EventLoop::new();
    event_loop.next_token();
    event_loop.on_accept("a".to_string(), 1);
    assert_eq!(event_loop.next_token(), Some(1));
    assert!(event_loop.is_known(1));
    event_loop.settle(1, true);
    assert!(!event_loop.is_known(1));
    assert!(event_loop.is_known(LISTENER_TOKEN));

    assert_eq!(event_loop.next_token(), Some(LISTENER_TOKEN));
    assert_eq!(event_loop.vacant_token(), 1);
    assert_eq!(event_loop.on_accept("b".to_string(), 2), 1);
    assert_eq!(event_loop.next_token(), Some(1));
    let conn = event_loop.connection_mut(1);
    assert_eq!(conn.stream, 2);
    assert_eq!(conn.make_progress(Event::Read(0)), Ok(Action::Close));
    event_loop.settle(1, false);
    assert_eq!(event_loop.next_token(), Some(LISTENER_TOKEN));
    event_loop.on_accept_blocked();
    assert!(event_loop.is_idle());
}

#[test]
fn connection_offers_all_room_to_a_read() {
    let mut conn = Exchange::new("peer".to_string());
    conn.make_progress(Event::Start).unwrap();
    assert_eq!(conn.in_buf.as_mut().len(), 4096);
    assert_eq!(deliver(&mut conn, &[b'G'; 4096]), Ok(Action::Pause));
    assert!(conn.unsent().is_empty());
    assert_eq!(conn.make_progress(Event::Start), Err(RequestError::TooBig));
}

#[test]
fn pipelined_requests_are_answered_in_one_turn() {
    let mut conn = Connection::new("127.0.0.1:9000".to_string(), ());
    conn.make_progress(Event::Start).unwrap();
    let mut input = GET.to_vec();
    input.extend_from_slice(GET);
    assert_eq!(deliver(&mut conn.exchange, &input), Ok(Action::Write));
    let first = conn.exchange.unsent().len();
    assert_eq!(conn.make_progress(Event::Wrote(first)), Ok(Action::Write));
    let second = conn.exchange.unsent().len();
    assert_eq!(first, second);
    assert_eq!(conn.make_progress(Event::Wrote(second)), Ok(Action::Pause));
    assert!(!conn.is_finished());
    assert!(conn.is_ready());
}

#[test]
fn connection_is_unready_only_after_it_blocked() {
    let mut conn = Connection::new("peer".to_string(), ());
    assert!(conn.is_ready());
    conn.make_progress(Event::Start).unwrap();
    conn.make_progress(Event::Blocked).unwrap();
    assert!(!conn.is_ready());
    conn.add_readiness(WRITABLE);
    assert!(!conn.is_ready());
    conn.add_readiness(READABLE);
    assert!(conn.is_ready());

    conn.make_progress(Event::Start).unwrap();
    conn.exchange.in_buf.as_mut()[..GET.len()].copy_from_slice(GET);
    assert_eq!(conn.make_progress(Event::Read(GET.len())), Ok(Action::Write));
    let response = conn.exchange.unsent().to_vec();
    assert_eq!(conn.make_progress(Event::Wrote(100)), Ok(Action::Write));
    assert_eq!(conn.make_progress(Event::Blocked), Ok(Action::Wait));
    assert!(!conn.is_ready());
    conn.add_readiness(READABLE);
    assert!(!conn.is_ready());
    conn.add_readiness(WRITABLE);
    assert!(conn.is_ready());

    assert_eq!(conn.make_progress(Event::Start), Ok(Action::Write));
    assert_eq!(conn.exchange.unsent(), &response[100..]);
    let rest = response.len() - 100;
    assert_eq!(conn.make_progress(Event::Wrote(rest)), Ok(Action::Pause));
    assert!(conn.is_ready());
    conn.make_progress(Event::Start).unwrap();
    assert_eq!(conn.make_progress(Event::Read(0)), Ok(Action::Close));
    assert!(conn.is_finished() && conn.is_ready());
}

#[test]
fn exchange_is_complete_however_it_is_split() {
    for size in [1, 5, 18, 40, 500] {
        let mut conn = Exchange::new("peer".to_string());
        let input = [GET, GET, GET].concat();
        let mut sent = Vec::new();
        let mut responses = Vec::new();
        let mut nread = 0;
        let mut closed = false;
        let mut event = Event::Start;
        while !closed {
            let unsent = conn.unsent().len();
            let action = conn.make_progress(event).unwrap();
            if unsent == 0 || event == Event::Wrote(unsent) {
                responses.extend_from_slice(conn.unsent());
            }
            event = match action {
                Action::Read => {
                    let n = size.min(input.len() - nread);
                    conn.in_buf.as_mut()[..n].copy_from_slice(&input[nread..nread + n]);
                    nread += n;
                    Event::Read(n)
                }
                Action::Write if sent.len() % 3 == 1 && event != Event::Start => Event::Blocked,
                Action::Write => {
                    let n = size.min(conn.unsent().len());
                    sent.extend_from_slice(&conn.unsent()[..n]);
                    Event::Wrote(n)
                }
                Action::Wait | Action::Pause => Event::Start,
                Action::Close => {
                    closed = true;
                    Event::Start
                }
            };
        }
        assert_eq!(nread, input.len());
        assert!(conn.in_buf.pending_bytes().is_empty());
        assert_eq!(sent, responses);
        let text = String::from_utf8(sent).unwrap();
        assert_eq!(text.matches("HTTP/1.1 200 OK\r\n").count(), 3);
        assert_eq!(text.matches("</html>\r\n").count(), 3);
    }
}
