use nbio::request_buf::BUF_CAPACITY;
use nbio::{process_request, RequestBuf, RequestError};

fn fill(buf: &mut RequestBuf, bytes: &[u8]) -> Result<(), RequestError> {
    buf.as_mut()[..bytes.len()].copy_from_slice(bytes);
    buf.advance(bytes.len())
}

const GET: &[u8] = b"GET / HTTP/1.1\r\nHost: a\r\n\r\n";

#[test]
fn new_buffer_is_empty_and_offers_all_its_space() {
    let mut buf = RequestBuf::new();
    assert!(buf.pending_bytes().is_empty());
    assert_eq!(buf.as_mut().len(), 4096);
    assert!(buf.as_mut().iter().all(|b| *b == 0));
    assert_eq!(BUF_CAPACITY, 4096);
}

#[test]
fn what_is_read_becomes_pending() {
    let mut buf = RequestBuf::new();
    assert_eq!(fill(&mut buf, b"abc"), Ok(()));
    assert_eq!(fill(&mut buf, b"de"), Ok(()));
    assert_eq!(buf.pending_bytes(), b"abcde");
    assert_eq!(buf.as_mut().len(), 4091);
}

#[test]
fn end_of_input_is_fine_only_between_requests() {
    let mut buf = RequestBuf::new();
    assert_eq!(buf.advance(0), Ok(()));
    fill(&mut buf, b"GET").unwrap();
    assert_eq!(buf.advance(0), Err(RequestError::Incomplete));
    assert_eq!(buf.pending_bytes(), b"GET");
}

#[test]
fn rewind_changes_nothing_while_there_is_room() {
    let mut buf = RequestBuf::new();
    fill(&mut buf, b"abc").unwrap();
    assert_eq!(buf.rewind(), Ok(()));
    assert_eq!(buf.pending_bytes(), b"abc");
    assert_eq!(buf.as_mut().len(), 4093);
}

#[test]
fn rewind_moves_the_beginning_of_a_request_to_the_front() {
    let mut buf = RequestBuf::new();
    let mut input = GET.to_vec();
    while input.len() < BUF_CAPACITY {
        input.push(b'a' + (input.len() % 26) as u8);
    }
    fill(&mut buf, &input).unwrap();
    let mut out = Vec::new();
    assert_eq!(process_request(&mut buf, "peer", &mut out), Ok(true));
    assert_eq!(buf.pending_bytes(), &input[GET.len()..]);
    assert!(buf.as_mut().is_empty());
    assert_eq!(buf.rewind(), Ok(()));
    assert_eq!(buf.pending_bytes(), &input[GET.len()..]);
    assert_eq!(buf.as_mut().len(), GET.len());
    assert_eq!(buf.as_mut(), GET);
}

#[test]
fn rewind_starts_over_behind_a_request_that_ends_with_the_buffer() {
    let mut buf = RequestBuf::new();
    let mut request = b"GET / HTTP/1.1\r\nX: ".to_vec();
    while request.len() < BUF_CAPACITY - 4 {
        request.push(b'x');
    }
    request.extend_from_slice(b"\r\n\r\n");
    fill(&mut buf, &request).unwrap();
    let mut out = Vec::new();
    assert_eq!(process_request(&mut buf, "peer", &mut out), Ok(true));
    assert_eq!(buf.rewind(), Ok(()));
    assert!(buf.pending_bytes().is_empty());
    assert_eq!(buf.as_mut().len(), BUF_CAPACITY);
}

#[test]
fn rewind_refuses_a_request_that_fills_the_buffer() {
    let mut buf = RequestBuf::new();
    let input = vec![b'a'; BUF_CAPACITY];
    fill(&mut buf, &input).unwrap();
    assert_eq!(buf.rewind(), Err(RequestError::TooBig));
    assert_eq!(buf.pending_bytes(), &input[..]);
}

#[test]
fn errors_describe_themselves() {
    assert_eq!(RequestError::Incomplete.message(), "incomplete request");
    assert_eq!(RequestError::TooBig.message(), "request too big");
    assert_eq!(RequestError::Malformed.message(), "could not parse request");
}
