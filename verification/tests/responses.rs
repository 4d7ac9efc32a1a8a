use nbio::request::{process_parsed, RequestHead};
use nbio::response::{write_closing_response, write_response, write_worker_response};
use nbio::{process_request, RequestBuf, RequestError};

const NOW: &str = "Sat, 16 Nov 2019 15:58:00 +00:00";

fn buffer(bytes: &[u8]) -> RequestBuf {
    let mut buf = RequestBuf::new();
    buf.as_mut()[..bytes.len()].copy_from_slice(bytes);
    buf.advance(bytes.len()).unwrap();
    buf
}

fn text(bytes: Vec<u8>) -> String {
    String::from_utf8(bytes).unwrap()
}

fn split(response: &str) -> (Vec<String>, String) {
    let end = response.find("\r\n\r\n").unwrap();
    (
        response[..end].split("\r\n").map(String::from).collect(),
        response[end + 4..].to_string(),
    )
}

fn content_length(head: &[String]) -> usize {
    let line = head
        .iter()
        .find(|l| l.starts_with("Content-Length: "))
        .unwrap();
    line["Content-Length: ".len()..].parse().unwrap()
}

#[test]
fn response_is_rendered_exactly() {
    let mut out = b"before".to_vec();
    write_response(&mut out, "127.0.0.1:5000", NOW);
    assert_eq!(
        text(out),
        "beforeHTTP/1.1 200 OK\r\n\
         Server: MyHTTP\r\n\
         Content-Type: text/html\r\n\
         Content-Length: 165\r\n\
         Date: Sat, 16 Nov 2019 15:58:00 +00:00\r\n\
         \r\n\
         <html>\n\
         <head>\n\
         <title>Test page</title>\n\
         </head>\n\
         <body>\n\
         <p>Hello, your address is 127.0.0.1:5000, current time is \
         Sat, 16 Nov 2019 15:58:00 +00:00.</p>\n\
         </body>\n\
         </html>\r\n"
    );
}

#[test]
fn content_length_leaves_out_the_last_line_break() {
    let mut out = Vec::new();
    write_response(&mut out, "peer", NOW);
    let (head, body) = split(&text(out));
    assert_eq!(content_length(&head) + 2, body.len());
}

#[test]
fn content_length_counts_bytes() {
    let mut ascii = Vec::new();
    write_response(&mut ascii, "e", NOW);
    let mut accented = Vec::new();
    write_response(&mut accented, "\u{e9}", NOW);
    let ascii = content_length(&split(&text(ascii)).0);
    let accented = content_length(&split(&text(accented)).0);
    assert_eq!(ascii + 1, accented);
}

#[test]
fn closing_response_is_rendered_exactly() {
    let mut out = Vec::new();
    write_closing_response(&mut out, "peer", NOW);
    let response = text(out);
    let (head, body) = split(&response);
    assert_eq!(
        head,
        vec![
            "HTTP/1.1 200 OK",
            "Server: MyHTTP",
            "Content-Type: text/html",
            "Content-Length: 157",
            "Date: Sat, 16 Nov 2019 15:58:00 +00:00",
            "Connection: close",
        ]
    );
    assert_eq!(
        body,
        "<html>\n<head>\n<title>Test page</title>\n</head>\n<body>\n\
         <p>Hello, your address is peer, current time is \
         Sat, 16 Nov 2019 15:58:00 +00:00.</p>\n</body>\n</html>\r\n"
    );
    assert_eq!(content_length(&head), body.len());
}

#[test]
fn worker_response_is_rendered_exactly() {
    let mut out = Vec::new();
    write_worker_response(&mut out, 12, "peer", NOW, false);
    let (head, body) = split(&text(out));
    assert_eq!(
        head,
        vec![
            "HTTP/1.1 200 OK",
            "Server: MyHTTP",
            "Content-Type: text/html",
            "Content-Length: 173",
            "Date: Sat, 16 Nov 2019 15:58:00 +00:00",
        ]
    );
    assert_eq!(
        body,
        "<html>\n<head>\n<title>Test page</title>\n</head>\n<body>\n\
         <p>Hello from worker #12, your address is peer, current time is \
         Sat, 16 Nov 2019 15:58:00 +00:00.</p>\n</body>\n</html>\r\n"
    );
    assert_eq!(content_length(&head), body.len());

    let mut out = Vec::new();
    write_worker_response(&mut out, 0, "peer", NOW, true);
    let (head, body) = split(&text(out));
    assert_eq!(head[3], "Connection: close");
    assert_eq!(head[4], "Content-Length: 172");
    assert!(body.contains("worker #0,"));
    assert_eq!(content_length(&head), body.len());
}

#[test]
fn complete_request_is_consumed_and_answered() {
    let request = b"GET /x HTTP/1.1\r\nHost: a\r\n\r\n";
    let mut input = request.to_vec();
    input.extend_from_slice(b"GET /y");
    let mut buf = buffer(&input);
    let mut out = b"old".to_vec();
    assert_eq!(process_request(&mut buf, "10.0.0.1:80", &mut out), Ok(true));
    assert_eq!(buf.pending_bytes(), b"GET /y");
    let response = text(out);
    assert!(response.starts_with("oldHTTP/1.1 200 OK\r\n"));
    assert!(response.contains("your address is 10.0.0.1:80, current time is "));
}

#[test]
fn date_has_the_documented_layout() {
    let mut buf = buffer(b"GET / HTTP/1.0\n\n");
    let mut out = Vec::new();
    assert_eq!(process_request(&mut buf, "peer", &mut out), Ok(true));
    let (head, body) = split(&text(out));
    let date = head[4].strip_prefix("Date: ").unwrap();
    let parts: Vec<&str> = date.split(' ').collect();
    assert_eq!(parts.len(), 6);
    assert!(["Mon,", "Tue,", "Wed,", "Thu,", "Fri,", "Sat,", "Sun,"].contains(&parts[0]));
    let digits = |s: &str, at: &[usize]| at.iter().all(|i| s.as_bytes()[*i].is_ascii_digit());
    assert!(parts[1].len() == 2 && digits(parts[1], &[0, 1]));
    let months = "Jan Feb Mar Apr May Jun Jul Aug Sep Oct Nov Dec";
    assert!(months.split(' ').any(|month| month == parts[2]));
    assert!(parts[3].len() >= 4 && parts[3].parse::<u32>().unwrap() >= 2019);
    assert!(parts[4].len() == 8 && digits(parts[4], &[0, 1, 3, 4, 6, 7]));
    assert_eq!((&parts[4][2..3], &parts[4][5..6]), (":", ":"));
    assert!(parts[5].len() == 6 || parts[5].len() == 9);
    assert!(digits(parts[5], &[1, 2, 4, 5]) && &parts[5][3..4] == ":");
    assert!(parts[5].starts_with('+') || parts[5].starts_with('-'));
    assert!(date.chars().all(|c| (' '..='~').contains(&c)));
    assert!(body.contains(date));
}

#[test]
fn partial_request_stays_pending() {
    let mut buf = buffer(b"GET / HTTP/1.1\r\nHost: a\r\n");
    let mut out = b"old".to_vec();
    assert_eq!(process_request(&mut buf, "peer", &mut out), Ok(false));
    assert_eq!(buf.pending_bytes(), b"GET / HTTP/1.1\r\nHost: a\r\n");
    assert_eq!(out, b"old");
}

#[test]
fn empty_input_is_a_partial_request() {
    let mut buf = RequestBuf::new();
    let mut out = Vec::new();
    assert_eq!(process_request(&mut buf, "peer", &mut out), Ok(false));
    assert!(out.is_empty());
}

#[test]
fn malformed_request_is_refused() {
    let mut buf = buffer(b"GET / HTTP/9.9\r\n\r\n");
    let mut out = Vec::new();
    assert_eq!(
        process_request(&mut buf, "peer", &mut out),
        Err(RequestError::Malformed)
    );
    assert_eq!(buf.pending_bytes(), b"GET / HTTP/9.9\r\n\r\n");
    assert!(out.is_empty());
}

#[test]
fn sixteen_headers_are_accepted_and_seventeen_are_not() {
    let with_headers = |n: usize| {
        let mut input = b"GET / HTTP/1.1\r\n".to_vec();
        for _ in 0..n {
            input.extend_from_slice(b"X: y\r\n");
        }
        input.extend_from_slice(b"\r\n");
        input
    };
    let mut out = Vec::new();
    let mut buf = buffer(&with_headers(16));
    assert_eq!(process_request(&mut buf, "peer", &mut out), Ok(true));
    let mut buf = buffer(&with_headers(17));
    assert_eq!(
        process_request(&mut buf, "peer", &mut out),
        Err(RequestError::Malformed)
    );
}

#[test]
fn pipelined_requests_are_answered_in_order() {
    let mut buf = buffer(b"GET /a HTTP/1.1\r\n\r\nGET /b HTTP/1.1\r\n\r\n");
    let mut out = Vec::new();
    assert_eq!(process_request(&mut buf, "peer", &mut out), Ok(true));
    assert_eq!(buf.pending_bytes(), b"GET /b HTTP/1.1\r\n\r\n");
    assert_eq!(process_request(&mut buf, "peer", &mut out), Ok(true));
    assert_eq!(process_request(&mut buf, "peer", &mut out), Ok(false));
    assert_eq!(text(out).matches("HTTP/1.1 200 OK\r\n").count(), 2);
}

#[test]
fn what_the_parser_found_decides() {
    let mut expected = b"old".to_vec();
    write_response(&mut expected, "peer", NOW);

    let mut buf = buffer(b"0123456789");
    let mut out = b"old".to_vec();
    let head = RequestHead {
        len: 4,
        method: "GET".to_string(),
        path: "/".to_string(),
    };
    assert_eq!(
        process_parsed(&mut buf, &Ok(Some(head)), "peer", NOW, &mut out),
        Ok(true)
    );
    assert_eq!(buf.pending_bytes(), b"456789");
    assert_eq!(out, expected);

    assert_eq!(
        process_parsed(&mut buf, &Ok(None), "peer", NOW, &mut out),
        Ok(false)
    );
    assert_eq!(
        process_parsed(&mut buf, &Err("bad".to_string()), "peer", NOW, &mut out),
        Err(RequestError::Malformed)
    );
    assert_eq!(buf.pending_bytes(), b"456789");
    assert_eq!(out, expected);
}
