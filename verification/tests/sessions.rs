use nbio::blocking::{ConnError, Input, PoolConn, SingleConn, ThreadConn, Turn, MAX_REQUESTS_PER_CONN};
use nbio::request::RequestHead;
use nbio::session::{Session, SessionStep};
use nbio::RequestError;

const GET: &[u8] = b"GET /x HTTP/1.1\r\n\r\n";
const NOW: &str = "Sat, 16 Nov 2019 15:58:00 +00:00";

fn read(session: &mut Session, bytes: &[u8]) -> Result<SessionStep, RequestError> {
    session.before_read()?;
    session.in_buf.as_mut()[..bytes.len()].copy_from_slice(bytes);
    session.on_read(bytes.len(), "peer")
}

fn fill(input: &mut Input, bytes: &[u8]) -> usize {
    input.space()[..bytes.len()].copy_from_slice(bytes);
    bytes.len()
}

fn head() -> RequestHead {
    RequestHead {
        len: 5,
        method: "GET".to_string(),
        path: "/x".to_string(),
    }
}

#[test]
fn session_answers_one_request_per_read() {
    let mut session = Session::new();
    let mut input = GET.to_vec();
    input.extend_from_slice(GET);
    input.extend_from_slice(b"GE");
    assert_eq!(read(&mut session, &input), Ok(SessionStep::Respond));
    assert!(session.resp.starts_with(b"HTTP/1.1 200 OK\r\n"));
    assert_eq!(session.in_buf.pending_bytes().len(), GET.len() + 2);
    assert_eq!(read(&mut session, b"T"), Ok(SessionStep::Respond));
    assert_eq!(session.in_buf.pending_bytes(), b"GET");
    assert_eq!(read(&mut session, b" "), Ok(SessionStep::ReadMore));
    assert!(session.resp.is_empty());
}

#[test]
fn session_ends_between_requests_only() {
    let mut session = Session::new();
    assert_eq!(read(&mut session, b""), Ok(SessionStep::Closed));
    assert_eq!(read(&mut session, b"GET"), Ok(SessionStep::ReadMore));
    assert_eq!(read(&mut session, b""), Err(RequestError::Incomplete));
}

#[test]
fn session_refuses_bad_and_big_requests() {
    let mut session = Session::new();
    assert_eq!(read(&mut session, b"\x00"), Err(RequestError::Malformed));

    let mut session = Session::new();
    let mut input = b"GET /".to_vec();
    input.resize(4096, b'a');
    assert_eq!(read(&mut session, &input), Ok(SessionStep::ReadMore));
    assert_eq!(session.before_read(), Err(RequestError::TooBig));
}

#[test]
fn session_step_follows_from_processing() {
    assert_eq!(Session::after_processing(Ok(true)), Ok(SessionStep::Respond));
    assert_eq!(
        Session::after_processing(Ok(false)),
        Ok(SessionStep::ReadMore)
    );
    assert_eq!(
        Session::after_processing(Err(RequestError::TooBig)),
        Err(RequestError::TooBig)
    );
}

#[test]
fn single_connection_answers_once() {
    let mut conn = SingleConn::new();
    let mut resp = Vec::new();
    let n = fill(&mut conn.input, &GET[..10]);
    assert!(matches!(
        conn.on_read(n, "peer", &mut resp),
        Ok(Turn::ReadMore)
    ));
    let n = fill(&mut conn.input, &GET[10..]);
    match conn.on_read(n, "peer", &mut resp) {
        Ok(Turn::RespondAndClose(head)) => {
            assert_eq!(head.len, GET.len());
            assert_eq!(head.method, "GET");
            assert_eq!(head.path, "/x");
        }
        _ => panic!("no response"),
    }
    let text = String::from_utf8(resp).unwrap();
    assert!(text.contains("\r\nConnection: close\r\n\r\n<html>"));
}

#[test]
fn single_connection_is_given_up_silently() {
    let mut conn = SingleConn::new();
    let mut resp = Vec::new();
    let n = fill(&mut conn.input, b"GET");
    assert!(matches!(
        conn.on_read(n, "peer", &mut resp),
        Ok(Turn::ReadMore)
    ));
    assert!(matches!(conn.on_read(0, "peer", &mut resp), Ok(Turn::Close)));

    let mut conn = SingleConn::new();
    let mut input = b"GET /".to_vec();
    input.resize(4096, b'a');
    let n = fill(&mut conn.input, &input);
    assert!(matches!(conn.on_read(n, "peer", &mut resp), Ok(Turn::Close)));
    assert!(conn.input.is_full());
    assert!(resp.is_empty());
}

#[test]
fn single_connection_reports_what_the_parser_says() {
    let mut conn = SingleConn::new();
    let mut resp = Vec::new();
    let n = fill(&mut conn.input, b"GET / HTTP/3.0\r\n");
    match conn.on_read(n, "peer", &mut resp) {
        Err(e) => assert_eq!(e.message(), "invalid HTTP version"),
        Ok(_) => panic!("no error"),
    }
}

#[test]
fn thread_connection_answers_any_number_of_requests() {
    let mut conn = ThreadConn::new();
    let mut resp = Vec::new();
    for _ in 0..150 {
        let n = fill(&mut conn.input, GET);
        assert!(matches!(
            conn.on_read(n, "peer", &mut resp),
            Ok(Turn::Respond(_))
        ));
        assert!(resp.starts_with(b"HTTP/1.1 200 OK\r\n"));
        assert_eq!(conn.input.space().len(), 4096);
    }
    assert!(matches!(conn.on_read(0, "peer", &mut resp), Ok(Turn::Close)));
}

#[test]
fn thread_connection_drops_what_follows_a_request() {
    let mut conn = ThreadConn::new();
    let mut resp = Vec::new();
    let mut input = GET.to_vec();
    input.extend_from_slice(GET);
    let n = fill(&mut conn.input, &input);
    assert!(matches!(
        conn.on_read(n, "peer", &mut resp),
        Ok(Turn::Respond(_))
    ));
    assert_eq!(conn.input.space().len(), 4096);
}

#[test]
fn thread_connection_refuses_incomplete_big_and_bad_requests() {
    let mut resp = Vec::new();
    let mut conn = ThreadConn::new();
    let n = fill(&mut conn.input, b"GET");
    assert!(matches!(
        conn.on_read(n, "peer", &mut resp),
        Ok(Turn::ReadMore)
    ));
    match conn.on_read(0, "peer", &mut resp) {
        Err(e) => assert_eq!(e.message(), "client sent incomplete request"),
        Ok(_) => panic!("no error"),
    }

    let mut conn = ThreadConn::new();
    let mut input = GET.to_vec();
    input.resize(4096, b'a');
    let n = fill(&mut conn.input, &input);
    match conn.on_read(n, "peer", &mut resp) {
        Err(e) => {
            assert!(matches!(e, ConnError::TooBig));
            assert_eq!(e.message(), "request too big");
        }
        Ok(_) => panic!("no error"),
    }

    let mut conn = ThreadConn::new();
    let n = fill(&mut conn.input, b"\x00");
    match conn.on_read(n, "peer", &mut resp) {
        Err(e) => assert_eq!(e.message(), "could not parse request"),
        Ok(_) => panic!("no error"),
    }
}

#[test]
fn pool_connection_closes_with_the_last_response() {
    let mut conn = PoolConn::new(3);
    let mut resp = Vec::new();
    for i in 1..=MAX_REQUESTS_PER_CONN {
        let n = fill(&mut conn.input, GET);
        let turn = conn.on_read(n, "peer", &mut resp);
        assert_eq!(conn.num_processed, i);
        let text = String::from_utf8(resp.clone()).unwrap();
        assert!(text.contains("Hello from worker #3, your address is peer,"));
        if i < 100 {
            assert!(matches!(turn, Ok(Turn::Respond(_))));
            assert!(!text.contains("Connection: close"));
        } else {
            assert!(matches!(turn, Ok(Turn::RespondAndClose(_))));
            assert!(text.contains("\r\nConnection: close\r\nContent-Length: "));
        }
    }
}

#[test]
fn pool_connection_refuses_incomplete_big_and_bad_requests() {
    let mut resp = Vec::new();
    let mut conn = PoolConn::new(0);
    assert!(matches!(conn.on_read(0, "peer", &mut resp), Ok(Turn::Close)));
    let n = fill(&mut conn.input, b"GET");
    assert!(matches!(
        conn.on_read(n, "peer", &mut resp),
        Ok(Turn::ReadMore)
    ));
    assert!(matches!(
        conn.on_read(0, "peer", &mut resp),
        Err(ConnError::Incomplete)
    ));
    let n = fill(&mut conn.input, &vec![b'a'; 4093]);
    assert!(matches!(
        conn.on_read(n, "peer", &mut resp),
        Err(ConnError::TooBig)
    ));

    let mut conn = PoolConn::new(0);
    let n = fill(&mut conn.input, b"GET / HTTP/1.1\r\nbad header\r\n");
    match conn.on_read(n, "peer", &mut resp) {
        Err(e) => assert_eq!(e.message(), "invalid header name"),
        Ok(_) => panic!("no error"),
    }
    assert!(resp.is_empty());
}

#[test]
fn what_the_parser_found_decides_the_turn() {
    let mut resp = Vec::new();
    let mut single = SingleConn::new();
    assert!(matches!(
        single.on_parsed(Ok(None), "peer", NOW, &mut resp),
        Ok(Turn::ReadMore)
    ));
    assert!(matches!(
        single.on_parsed(Ok(Some(head())), "peer", NOW, &mut resp),
        Ok(Turn::RespondAndClose(_))
    ));
    assert!(String::from_utf8(resp.clone()).unwrap().contains(NOW));

    let mut thread = ThreadConn::new();
    assert!(matches!(
        thread.on_parsed(Ok(Some(head())), "peer", NOW, &mut resp),
        Ok(Turn::Respond(_))
    ));
    assert!(!String::from_utf8(resp.clone()).unwrap().contains("close"));
    assert!(matches!(
        thread.on_parsed(Ok(None), "peer", NOW, &mut resp),
        Ok(Turn::ReadMore)
    ));
    assert!(resp.is_empty());

    let mut pool = PoolConn::new(1);
    pool.num_processed = 99;
    assert!(matches!(
        pool.on_parsed(Ok(Some(head())), "peer", NOW, &mut resp),
        Ok(Turn::RespondAndClose(_))
    ));
    assert!(matches!(
        PoolConn::new(1).on_parsed(Err("bad".to_string()), "peer", NOW, &mut resp),
        Err(ConnError::Malformed(_))
    ));
}

#[test]
fn response_is_sent_whole_however_it_is_split() {
    for size in [1, 7, 100, 1000] {
        let mut session = Session::new();
        assert_eq!(read(&mut session, GET), Ok(SessionStep::Respond));
        let mut sent = Vec::new();
        let mut next = session.on_written(0, 0);
        assert_eq!(next, Some(0));
        while let Some(pos) = next {
            let unsent = session.unsent(pos);
            let n = size.min(unsent.len());
            sent.extend_from_slice(&unsent[..n]);
            next = session.on_written(pos, n);
        }
        assert_eq!(sent, session.resp);
    }
}

#[test]
fn written_bytes_decide_whether_to_write_again() {
    let mut session = Session::new();
    assert_eq!(session.on_written(0, 0), None);
    assert!(session.unsent(0).is_empty());
    session.resp = b"abc".to_vec();
    assert_eq!(session.on_written(0, 0), Some(0));
    assert_eq!(session.on_written(0, 2), Some(2));
    assert_eq!(session.unsent(2), b"c");
    assert_eq!(session.on_written(2, 1), None);
}

#[test]
fn session_offers_all_room_to_a_read() {
    let mut session = Session::new();
    session.before_read().unwrap();
    assert_eq!(session.in_buf.as_mut().len(), 4096);
    assert_eq!(read(&mut session, GET), Ok(SessionStep::Respond));
    session.before_read().unwrap();
    assert_eq!(session.in_buf.as_mut().len(), 4096 - GET.len());
}
