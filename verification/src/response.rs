//! The page that the servers answer with.
use vstd::prelude::*;
use vstd::string::*;
use vstd::utf8::*;
use crate::clock::given_by_clock;

verus! {

/// Layout of the time stamp in a response.
pub const DATE_FORMAT: &'static str = "%a, %d %b %Y %T %Z";

/// Whether every character is printable ASCII. Such a text holds no line break.
pub open spec fn printable(s: Seq<char>) -> bool {
    forall|i: int| 0 <= i < s.len() ==> ' ' <= #[trigger] s[i] <= '~'
}

pub open spec fn is_digit(c: char) -> bool {
    '0' <= c <= '9'
}

pub open spec fn two_digits(s: Seq<char>) -> bool {
    &&& s.len() == 2
    &&& is_digit(s[0])
    &&& is_digit(s[1])
}

/// Whether a text is the abbreviated name of a weekday.
pub open spec fn is_weekday(s: Seq<char>) -> bool {
    ||| s == "Sun"@
    ||| s == "Mon"@
    ||| s == "Tue"@
    ||| s == "Wed"@
    ||| s == "Thu"@
    ||| s == "Fri"@
    ||| s == "Sat"@
}

/// Whether a text is the abbreviated name of a month.
pub open spec fn is_month(s: Seq<char>) -> bool {
    ||| s == "Jan"@
    ||| s == "Feb"@
    ||| s == "Mar"@
    ||| s == "Apr"@
    ||| s == "May"@
    ||| s == "Jun"@
    ||| s == "Jul"@
    ||| s == "Aug"@
    ||| s == "Sep"@
    ||| s == "Oct"@
    ||| s == "Nov"@
    ||| s == "Dec"@
}

/// Whether a text can be a year. One that does not fit into four digits has a sign.
pub open spec fn is_year(s: Seq<char>) -> bool {
    &&& s.len() >= 4
    &&& is_digit(s[0]) || s[0] == '+' || s[0] == '-'
    &&& forall|i: int| 1 <= i < s.len() ==> is_digit(#[trigger] s[i])
}

/// Whether a text can be a time of day, `hh:mm:ss`.
pub open spec fn is_time(s: Seq<char>) -> bool {
    &&& s.len() == 8
    &&& two_digits(s.subrange(0, 2))
    &&& s[2] == ':'
    &&& two_digits(s.subrange(3, 5))
    &&& s[5] == ':'
    &&& two_digits(s.subrange(6, 8))
}

/// Whether a text can be the offset of a time zone, `+hh:mm`. The seconds follow
/// if there are any.
pub open spec fn is_offset(s: Seq<char>) -> bool {
    &&& s.len() == 6 || s.len() == 9
    &&& s[0] == '+' || s[0] == '-'
    &&& two_digits(s.subrange(1, 3))
    &&& s[3] == ':'
    &&& two_digits(s.subrange(4, 6))
    &&& s.len() == 9 ==> s[6] == ':' && two_digits(s.subrange(7, 9))
}

/// Whether a text is a time stamp in `DATE_FORMAT`, with these parts.
pub open spec fn date_parts(
    s: Seq<char>,
    weekday: Seq<char>,
    day: Seq<char>,
    month: Seq<char>,
    year: Seq<char>,
    time: Seq<char>,
    zone: Seq<char>,
) -> bool {
    &&& is_weekday(weekday)
    &&& two_digits(day)
    &&& is_month(month)
    &&& is_year(year)
    &&& is_time(time)
    &&& is_offset(zone)
    &&& s == weekday + seq![',', ' '] + day + seq![' '] + month + seq![' '] + year + seq![' ']
        + time + seq![' '] + zone
}

/// Whether a text can be a time stamp in `DATE_FORMAT`.
pub open spec fn is_date(s: Seq<char>) -> bool {
    exists|
        weekday: Seq<char>,
        day: Seq<char>,
        month: Seq<char>,
        year: Seq<char>,
        time: Seq<char>,
        zone: Seq<char>,
    | date_parts(s, weekday, day, month, year, time, zone)
}

/// The current local time: `chrono::Local::now`, laid out by
/// `chrono::DateTime::format`. Claimed is the form of each field of `DATE_FORMAT`
/// and their order, and so that the result passes for a reading of the clock. Which
/// time it is depends on the clock and on the time zone of the machine.
///
/// A layout that chrono does not know would make it panic. So would a machine whose
/// clock stands before 1970, or whose time zone is broken.
#[verifier::external_body]
pub(crate) fn local_date(format: &str) -> (r: String)
    requires
        format@ == DATE_FORMAT@,
    ensures
        is_date(r@),
        given_by_clock(r@),
{
    chrono::Local::now().format(format).to_string()
}

proof fn lemma_names_printable(s: Seq<char>)
    requires
        is_weekday(s) || is_month(s),
    ensures
        printable(s),
{
    reveal_strlit("Sun");
    reveal_strlit("Mon");
    reveal_strlit("Tue");
    reveal_strlit("Wed");
    reveal_strlit("Thu");
    reveal_strlit("Fri");
    reveal_strlit("Sat");
    reveal_strlit("Jan");
    reveal_strlit("Feb");
    reveal_strlit("Mar");
    reveal_strlit("Apr");
    reveal_strlit("May");
    reveal_strlit("Jun");
    reveal_strlit("Jul");
    reveal_strlit("Aug");
    reveal_strlit("Sep");
    reveal_strlit("Oct");
    reveal_strlit("Nov");
    reveal_strlit("Dec");
}

proof fn lemma_two_digits(s: Seq<char>, i: int)
    requires
        0 <= i,
        i + 2 <= s.len(),
        two_digits(s.subrange(i, i + 2)),
    ensures
        is_digit(s[i]),
        is_digit(s[i + 1]),
{
    assert(s.subrange(i, i + 2)[0] == s[i]);
    assert(s.subrange(i, i + 2)[1] == s[i + 1]);
}

/// A time stamp is printable, so it fits into a header.
pub proof fn dates_are_printable(s: Seq<char>)
    requires
        is_date(s),
    ensures
        printable(s),
{
    let (weekday, day, month, year, time, zone) = choose|
        weekday: Seq<char>,
        day: Seq<char>,
        month: Seq<char>,
        year: Seq<char>,
        time: Seq<char>,
        zone: Seq<char>,
    | date_parts(s, weekday, day, month, year, time, zone);
    lemma_names_printable(weekday);
    lemma_names_printable(month);
    lemma_two_digits(time, 0);
    lemma_two_digits(time, 3);
    lemma_two_digits(time, 6);
    assert(printable(time));
    lemma_two_digits(zone, 1);
    lemma_two_digits(zone, 4);
    if zone.len() == 9 {
        lemma_two_digits(zone, 7);
    }
    assert(printable(zone));
    assert(printable(year));
}

/// The character of a decimal digit.
pub open spec fn digit(d: nat) -> char {
    (('0' as u32) + d) as char
}

/// A number in decimal notation, without leading zeros.
pub open spec fn decimal(n: nat) -> Seq<char>
    decreases n,
{
    if n < 10 {
        seq![digit(n)]
    } else {
        decimal(n / 10).push(digit(n % 10))
    }
}

fn digit_str(d: usize) -> (r: &'static str)
    requires
        d < 10,
    ensures
        r@ == seq![digit(d as nat)],
{
    proof {
        reveal_strlit("0");
        reveal_strlit("1");
        reveal_strlit("2");
        reveal_strlit("3");
        reveal_strlit("4");
        reveal_strlit("5");
        reveal_strlit("6");
        reveal_strlit("7");
        reveal_strlit("8");
        reveal_strlit("9");
    }
    match d {
        0 => "0",
        1 => "1",
        2 => "2",
        3 => "3",
        4 => "4",
        5 => "5",
        6 => "6",
        7 => "7",
        8 => "8",
        _ => "9",
    }
}

/// Appends `n` in decimal notation.
pub(crate) fn push_decimal(s: &mut String, n: usize)
    ensures
        final(s)@ == old(s)@ + decimal(n as nat),
    decreases n,
{
    if n < 10 {
        s.append(digit_str(n));
    } else {
        push_decimal(s, n / 10);
        s.append(digit_str(n % 10));
        assert(s@ =~= old(s)@ + decimal(n as nat));
    }
}

/// The page for the client at `peer`, at the time `now`.
pub open spec fn page(peer: Seq<char>, now: Seq<char>) -> Seq<char> {
    "<html>\n<head>\n<title>Test page</title>\n</head>\n<body>\n<p>Hello, your address is "@ + peer
        + ", current time is "@ + now + ".</p>\n</body>\n</html>"@
}

/// The head of a response to the client at `peer`, at the time `now`.
/// `Content-Length` counts the bytes of the page.
pub open spec fn response_head(peer: Seq<char>, now: Seq<char>) -> Seq<char> {
    "HTTP/1.1 200 OK\r\nServer: MyHTTP\r\nContent-Type: text/html\r\nContent-Length: "@ + decimal(
        encode_utf8(page(peer, now)).len(),
    ) + "\r\nDate: "@ + now
}

/// The text of a response to the client at `peer`, at the time `now`: the head, a
/// blank line, the page, and a line break.
pub open spec fn response_text(peer: Seq<char>, now: Seq<char>) -> Seq<char> {
    response_head(peer, now) + "\r\n\r\n"@ + page(peer, now) + "\r\n"@
}

/// The bytes of a response to the client at `peer`, at the time `now`.
pub open spec fn response(peer: Seq<char>, now: Seq<char>) -> Seq<u8> {
    encode_utf8(response_text(peer, now))
}

/// Every character takes at least one byte.
proof fn lemma_encoding_not_shorter(s: Seq<char>)
    ensures
        encode_utf8(s).len() >= s.len(),
    decreases s.len(),
{
    if s.len() > 0 {
        lemma_encoding_not_shorter(s.drop_first());
    }
}

/// A response is never empty.
pub(crate) proof fn lemma_response_not_empty(peer: Seq<char>, now: Seq<char>)
    ensures
        response(peer, now).len() > 0,
{
    reveal_strlit("\r\n");
    lemma_encoding_not_shorter(response_text(peer, now));
}

fn render_page(peer_addr: &str, now: &str) -> (r: String)
    ensures
        r@ == page(peer_addr@, now@),
{
    let mut s = String::new();
    s.append("<html>\n<head>\n<title>Test page</title>\n</head>\n<body>\n<p>Hello, your address is ");
    s.append(peer_addr);
    s.append(", current time is ");
    s.append(now);
    s.append(".</p>\n</body>\n</html>");
    assert(s@ =~= page(peer_addr@, now@));
    s
}

/// Appends the response to the client at `peer_addr`, at the time `now`.
pub fn write_response(out_buf: &mut Vec<u8>, peer_addr: &str, now: &str)
    ensures
        final(out_buf)@ == old(out_buf)@ + response(peer_addr@, now@),
{
    let payload = render_page(peer_addr, now);
    let mut s = String::new();
    s.append("HTTP/1.1 200 OK\r\nServer: MyHTTP\r\nContent-Type: text/html\r\nContent-Length: ");
    push_decimal(&mut s, payload.as_str().as_bytes().len());
    s.append("\r\nDate: ");
    s.append(now);
    s.append("\r\n\r\n");
    s.append(payload.as_str());
    s.append("\r\n");
    assert(s@ =~= response_text(peer_addr@, now@));
    out_buf.extend_from_slice(s.as_str().as_bytes());
}

/// The encoding of a text is that of its parts, one after the other.
proof fn lemma_encoding_of_parts(a: Seq<char>, b: Seq<char>)
    ensures
        encode_utf8(a + b) == encode_utf8(a) + encode_utf8(b),
    decreases a.len(),
{
    if a.len() == 0 {
        assert(a + b =~= b);
        assert(encode_utf8(a) + encode_utf8(b) =~= encode_utf8(b));
    } else {
        lemma_encoding_of_parts(a.drop_first(), b);
        assert((a + b).drop_first() =~= a.drop_first() + b);
        assert(encode_utf8(a + b) =~= encode_utf8(a) + encode_utf8(b));
    }
}

proof fn lemma_line_break(page: Seq<char>)
    ensures
        encode_utf8(page + "\r\n"@).len() == encode_utf8(page).len() + 2,
{
    reveal_strlit("\r\n");
    lemma_encoding_of_parts(page, "\r\n"@);
    is_ascii_chars_encode_utf8("\r\n"@);
}

/// The page from a worker for the client at `peer`, at the time `now`.
pub open spec fn worker_page(worker: nat, peer: Seq<char>, now: Seq<char>) -> Seq<char> {
    "<html>\n<head>\n<title>Test page</title>\n</head>\n<body>\n<p>Hello from worker #"@ + decimal(
        worker,
    ) + ", your address is "@ + peer + ", current time is "@ + now
        + ".</p>\n</body>\n</html>"@
}

/// The head of a response behind which the connection is closed. `Content-Length`
/// counts the bytes of the page and of the line break behind it.
pub open spec fn closing_response_head(peer: Seq<char>, now: Seq<char>) -> Seq<char> {
    "HTTP/1.1 200 OK\r\nServer: MyHTTP\r\nContent-Type: text/html\r\nContent-Length: "@ + decimal(
        encode_utf8(page(peer, now)).len() + 2,
    ) + "\r\nDate: "@ + now + "\r\nConnection: close"@
}

/// The text of a response behind which the connection is closed.
pub open spec fn closing_response_text(peer: Seq<char>, now: Seq<char>) -> Seq<char> {
    closing_response_head(peer, now) + "\r\n\r\n"@ + page(peer, now) + "\r\n"@
}

/// The head of a response from a worker, which tells the client if the connection
/// is closed behind it. `Content-Length` counts the bytes of the page and of the
/// line break behind it.
pub open spec fn worker_response_head(
    worker: nat,
    peer: Seq<char>,
    now: Seq<char>,
    close: bool,
) -> Seq<char> {
    "HTTP/1.1 200 OK\r\nServer: MyHTTP\r\nContent-Type: text/html"@ + (if close {
        "\r\nConnection: close"@
    } else {
        ""@
    }) + "\r\nContent-Length: "@ + decimal(encode_utf8(worker_page(worker, peer, now)).len() + 2)
        + "\r\nDate: "@ + now
}

/// The text of a response from a worker.
pub open spec fn worker_response_text(
    worker: nat,
    peer: Seq<char>,
    now: Seq<char>,
    close: bool,
) -> Seq<char> {
    worker_response_head(worker, peer, now, close) + "\r\n\r\n"@ + worker_page(worker, peer, now)
        + "\r\n"@
}

fn render_worker_page(worker: usize, peer_addr: &str, now: &str) -> (r: String)
    ensures
        r@ == worker_page(worker as nat, peer_addr@, now@),
{
    let mut s = String::new();
    s.append("<html>\n<head>\n<title>Test page</title>\n</head>\n<body>\n<p>Hello from worker #");
    push_decimal(&mut s, worker);
    s.append(", your address is ");
    s.append(peer_addr);
    s.append(", current time is ");
    s.append(now);
    s.append(".</p>\n</body>\n</html>");
    assert(s@ =~= worker_page(worker as nat, peer_addr@, now@));
    s
}

/// Appends a response behind which the connection is closed.
pub fn write_closing_response(out_buf: &mut Vec<u8>, peer_addr: &str, now: &str)
    ensures
        final(out_buf)@ == old(out_buf)@ + encode_utf8(closing_response_text(peer_addr@, now@)),
{
    let mut body = render_page(peer_addr, now);
    body.append("\r\n");
    proof {
        lemma_line_break(page(peer_addr@, now@));
    }
    let mut s = String::new();
    s.append("HTTP/1.1 200 OK\r\nServer: MyHTTP\r\nContent-Type: text/html\r\nContent-Length: ");
    push_decimal(&mut s, body.as_str().as_bytes().len());
    s.append("\r\nDate: ");
    s.append(now);
    s.append("\r\nConnection: close");
    s.append("\r\n\r\n");
    s.append(body.as_str());
    assert(s@ =~= closing_response_text(peer_addr@, now@));
    out_buf.extend_from_slice(s.as_str().as_bytes());
}

/// Appends a response from a worker.
pub fn write_worker_response(
    out_buf: &mut Vec<u8>,
    worker: usize,
    peer_addr: &str,
    now: &str,
    close: bool,
)
    ensures
        final(out_buf)@ == old(out_buf)@ + encode_utf8(
            worker_response_text(worker as nat, peer_addr@, now@, close),
        ),
{
    let mut body = render_worker_page(worker, peer_addr, now);
    body.append("\r\n");
    proof {
        lemma_line_break(worker_page(worker as nat, peer_addr@, now@));
        reveal_strlit("");
    }
    let mut s = String::new();
    s.append("HTTP/1.1 200 OK\r\nServer: MyHTTP\r\nContent-Type: text/html");
    if close {
        s.append("\r\nConnection: close");
    }
    s.append("\r\nContent-Length: ");
    push_decimal(&mut s, body.as_str().as_bytes().len());
    s.append("\r\nDate: ");
    s.append(now);
    s.append("\r\n\r\n");
    s.append(body.as_str());
    assert(s@ =~= worker_response_text(worker as nat, peer_addr@, now@, close));
    out_buf.extend_from_slice(s.as_str().as_bytes());
}

/// The number that a text in decimal notation stands for.
pub open spec fn decimal_value(s: Seq<char>) -> nat
    decreases s.len(),
{
    if s.len() == 0 {
        0
    } else {
        decimal_value(s.drop_last()) * 10 + (s.last() as nat - '0' as nat) as nat
    }
}

/// Decimal notation can be read back.
pub proof fn decimal_reads_back(n: nat)
    ensures
        decimal_value(decimal(n)) == n,
        decimal(n).len() > 0,
        forall|i: int| 0 <= i < decimal(n).len() ==> '0' <= #[trigger] decimal(n)[i] <= '9',
    decreases n,
{
    reveal_with_fuel(decimal_value, 2);
    if n < 10 {
        assert(decimal(n).drop_last() =~= Seq::<char>::empty());
    } else {
        decimal_reads_back(n / 10);
        assert(decimal(n).drop_last() =~= decimal(n / 10));
    }
}

/// Whether a blank line begins at `i`, behind the end of the line before it.
pub open spec fn blank_line_at(s: Seq<char>, i: int) -> bool {
    &&& 0 <= i
    &&& i + 4 <= s.len()
    &&& s[i] == '\r'
    &&& s[i + 1] == '\n'
    &&& s[i + 2] == '\r'
    &&& s[i + 3] == '\n'
}

/// Whether the first blank line begins at `n`. What stands before it is the head
/// of an HTTP message, and what stands behind it the body.
pub open spec fn head_ends_at(s: Seq<char>, n: int) -> bool {
    &&& blank_line_at(s, n)
    &&& forall|i: int| 0 <= i < n ==> !#[trigger] blank_line_at(s, i)
}

/// Whether each line break is followed by a line that is not blank.
spec fn lines_filled(s: Seq<char>) -> bool {
    forall|i: int| 0 <= i < s.len() && #[trigger] s[i] == '\r' ==> i + 2 < s.len() && s[i + 2] != '\r'
}

proof fn lemma_lines_of_parts(a: Seq<char>, b: Seq<char>)
    requires
        lines_filled(a),
        lines_filled(b),
    ensures
        lines_filled(a + b),
{
    assert forall|i: int| 0 <= i < (a + b).len() && #[trigger] (a + b)[i] == '\r' implies i + 2 < (a
        + b).len() && (a + b)[i + 2] != '\r' by {
        if i < a.len() {
            assert(a[i] == '\r');
        } else {
            assert(b[i - a.len()] == '\r');
        }
    }
}

proof fn lemma_head_ends(head: Seq<char>, page: Seq<char>)
    requires
        lines_filled(head),
    ensures
        head_ends_at(head + "\r\n\r\n"@ + page + "\r\n"@, head.len() as int),
{
    reveal_strlit("\r\n\r\n");
    let text = head + "\r\n\r\n"@ + page + "\r\n"@;
    assert forall|i: int| 0 <= i < head.len() implies !#[trigger] blank_line_at(text, i) by {
        if text[i] == '\r' {
            assert(head[i] == '\r');
            assert(text[i + 2] == head[i + 2]);
        }
    }
}

/// In each response the first blank line is the one before the page, so a client
/// finds the page where it looks for it.
pub proof fn page_follows_first_blank_line(
    worker: nat,
    peer: Seq<char>,
    now: Seq<char>,
    close: bool,
)
    requires
        printable(now),
    ensures
        head_ends_at(response_text(peer, now), response_head(peer, now).len() as int),
        head_ends_at(closing_response_text(peer, now), closing_response_head(peer, now).len() as int),
        head_ends_at(
            worker_response_text(worker, peer, now, close),
            worker_response_head(worker, peer, now, close).len() as int,
        ),
{
    let first = "HTTP/1.1 200 OK\r\nServer: MyHTTP\r\nContent-Type: text/html\r\nContent-Length: "@;
    reveal_strlit(
        "HTTP/1.1 200 OK\r\nServer: MyHTTP\r\nContent-Type: text/html\r\nContent-Length: ",
    );
    let date = "\r\nDate: "@;
    reveal_strlit("\r\nDate: ");
    let last = "\r\nConnection: close"@;
    reveal_strlit("\r\nConnection: close");
    assert(lines_filled(now));

    let n = encode_utf8(page(peer, now)).len();
    decimal_reads_back(n);
    lemma_lines_of_parts(first, decimal(n));
    lemma_lines_of_parts(first + decimal(n), date);
    lemma_lines_of_parts(first + decimal(n) + date, now);
    lemma_head_ends(response_head(peer, now), page(peer, now));

    decimal_reads_back(n + 2);
    lemma_lines_of_parts(first, decimal(n + 2));
    lemma_lines_of_parts(first + decimal(n + 2), date);
    lemma_lines_of_parts(first + decimal(n + 2) + date, now);
    lemma_lines_of_parts(first + decimal(n + 2) + date + now, last);
    lemma_head_ends(closing_response_head(peer, now), page(peer, now));

    let wfirst = "HTTP/1.1 200 OK\r\nServer: MyHTTP\r\nContent-Type: text/html"@;
    reveal_strlit("HTTP/1.1 200 OK\r\nServer: MyHTTP\r\nContent-Type: text/html");
    reveal_strlit("");
    let connection = if close {
        last
    } else {
        ""@
    };
    let length = "\r\nContent-Length: "@;
    reveal_strlit("\r\nContent-Length: ");
    let m = encode_utf8(worker_page(worker, peer, now)).len() + 2;
    decimal_reads_back(m);
    lemma_lines_of_parts(wfirst, connection);
    lemma_lines_of_parts(wfirst + connection, length);
    lemma_lines_of_parts(wfirst + connection + length, decimal(m));
    lemma_lines_of_parts(wfirst + connection + length + decimal(m), date);
    lemma_lines_of_parts(wfirst + connection + length + decimal(m) + date, now);
    lemma_head_ends(worker_response_head(worker, peer, now, close), worker_page(worker, peer, now));
}

/// In a response that closes the connection, and in one from a worker, as many
/// bytes stand behind the blank line as `Content-Length` says. In the other
/// response there are two more, for it does not count the last line break.
pub proof fn content_length_against_body(worker: nat, peer: Seq<char>, now: Seq<char>, close: bool)
    ensures
        response(peer, now).len() == encode_utf8(response_head(peer, now) + "\r\n\r\n"@).len()
            + encode_utf8(page(peer, now)).len() + 2,
        encode_utf8(closing_response_text(peer, now)).len() == encode_utf8(
            closing_response_head(peer, now) + "\r\n\r\n"@,
        ).len() + encode_utf8(page(peer, now)).len() + 2,
        encode_utf8(worker_response_text(worker, peer, now, close)).len() == encode_utf8(
            worker_response_head(worker, peer, now, close) + "\r\n\r\n"@,
        ).len() + encode_utf8(worker_page(worker, peer, now)).len() + 2,
{
    let p = response_head(peer, now) + "\r\n\r\n"@;
    lemma_line_break(p + page(peer, now));
    lemma_encoding_of_parts(p, page(peer, now));
    let a = closing_response_head(peer, now) + "\r\n\r\n"@;
    lemma_line_break(a + page(peer, now));
    lemma_encoding_of_parts(a, page(peer, now));
    let b = worker_response_head(worker, peer, now, close) + "\r\n\r\n"@;
    lemma_line_break(b + worker_page(worker, peer, now));
    lemma_encoding_of_parts(b, worker_page(worker, peer, now));
}

/// The lines, with a line break between each two.
pub open spec fn joined(lines: Seq<Seq<char>>) -> Seq<char>
    decreases lines.len(),
{
    if lines.len() == 0 {
        Seq::empty()
    } else if lines.len() == 1 {
        lines[0]
    } else {
        joined(lines.drop_last()) + seq!['\r', '\n'] + lines.last()
    }
}

/// Whether a text is a line: it is not empty and holds no line break.
pub open spec fn is_line(s: Seq<char>) -> bool {
    &&& s.len() > 0
    &&& forall|i: int| 0 <= i < s.len() ==> #[trigger] s[i] != '\r' && s[i] != '\n'
}

/// Whether a client reads these lines and this body from an HTTP message.
pub open spec fn is_message(text: Seq<char>, lines: Seq<Seq<char>>, body: Seq<char>) -> bool {
    &&& forall|i: int| 0 <= i < lines.len() ==> is_line(#[trigger] lines[i])
    &&& text == joined(lines) + seq!['\r', '\n', '\r', '\n'] + body
}

/// Whether a text begins with another.
pub open spec fn begins(s: Seq<char>, start: Seq<char>) -> bool {
    &&& start.len() <= s.len()
    &&& forall|i: int| 0 <= i < start.len() ==> s[i] == #[trigger] start[i]
}

/// Whether exactly one of the lines is a header of this name, and has this value.
pub open spec fn has_header(lines: Seq<Seq<char>>, name: Seq<char>, value: Seq<char>) -> bool {
    exists|i: int| #![trigger lines[i]]
        0 <= i < lines.len() && lines[i] == name + seq![':', ' '] + value && forall|j: int|
            0 <= j < lines.len() && begins(#[trigger] lines[j], name + seq![':', ' ']) ==> j == i
}

/// Whether none of the lines is a header of this name.
pub open spec fn lacks_header(lines: Seq<Seq<char>>, name: Seq<char>) -> bool {
    forall|j: int|
        0 <= j < lines.len() ==> !begins(#[trigger] lines[j], name + seq![':', ' '])
}

/// Whether a text is made of decimal digits and stands for this number.
pub open spec fn is_number(s: Seq<char>, n: nat) -> bool {
    &&& s.len() > 0
    &&& forall|i: int| 0 <= i < s.len() ==> is_digit(#[trigger] s[i])
    &&& decimal_value(s) == n
}

/// Whether a client reads from these lines that all is well, that HTML of `len` bytes
/// follows, and that it is from the time `now`; and, exactly if `close`, that the
/// connection is closed behind it.
pub open spec fn announces(lines: Seq<Seq<char>>, len: nat, now: Seq<char>, close: bool) -> bool {
    &&& lines.len() == (if close {
        6nat
    } else {
        5nat
    })
    &&& lines[0] == "HTTP/1.1 200 OK"@
    &&& has_header(lines, "Server"@, "MyHTTP"@)
    &&& has_header(lines, "Content-Type"@, "text/html"@)
    &&& exists|length: Seq<char>| #[trigger]
        has_header(lines, "Content-Length"@, length) && is_number(length, len)
    &&& has_header(lines, "Date"@, now)
    &&& if close {
        has_header(lines, "Connection"@, "close"@)
    } else {
        lacks_header(lines, "Connection"@)
    }
}

proof fn lemma_line_of_parts(a: Seq<char>, b: Seq<char>)
    requires
        is_line(a),
        forall|i: int| 0 <= i < b.len() ==> #[trigger] b[i] != '\r' && b[i] != '\n',
    ensures
        is_line(a + b),
{
}

/// The lines of the responses. `connection` is where the line on the closing of the
/// connection stands, or negative if there is none.
spec fn response_lines(length: Seq<char>, now: Seq<char>, connection: int) -> Seq<Seq<char>> {
    let ok = "HTTP/1.1 200 OK"@;
    let server = "Server: MyHTTP"@;
    let html = "Content-Type: text/html"@;
    let len = "Content-Length: "@ + length;
    let date = "Date: "@ + now;
    let close = "Connection: close"@;
    if connection == 3 {
        seq![ok, server, html, close, len, date]
    } else if connection == 5 {
        seq![ok, server, html, len, date, close]
    } else {
        seq![ok, server, html, len, date]
    }
}

proof fn lemma_lines_announce(length: Seq<char>, n: nat, now: Seq<char>, connection: int)
    requires
        length == decimal(n),
        printable(now),
        connection == 3 || connection == 5 || connection < 0,
    ensures
        announces(response_lines(length, now, connection), n, now, connection >= 0),
        forall|i: int|
            0 <= i < response_lines(length, now, connection).len() ==> is_line(
                #[trigger] response_lines(length, now, connection)[i],
            ),
{
    let lines = response_lines(length, now, connection);
    decimal_reads_back(n);
    reveal_strlit("HTTP/1.1 200 OK");
    reveal_strlit("Server: MyHTTP");
    reveal_strlit("Content-Type: text/html");
    reveal_strlit("Content-Length: ");
    reveal_strlit("Date: ");
    reveal_strlit("Connection: close");
    reveal_strlit("Server");
    reveal_strlit("MyHTTP");
    reveal_strlit("Content-Type");
    reveal_strlit("text/html");
    reveal_strlit("Content-Length");
    reveal_strlit("Date");
    reveal_strlit("Connection");
    reveal_strlit("close");
    lemma_line_of_parts("Content-Length: "@, length);
    lemma_line_of_parts("Date: "@, now);
    let colon = seq![':', ' '];
    assert("Server"@ + colon + "MyHTTP"@ =~= "Server: MyHTTP"@);
    assert("Content-Type"@ + colon + "text/html"@ =~= "Content-Type: text/html"@);
    assert("Content-Length"@ + colon + length =~= "Content-Length: "@ + length);
    assert("Date"@ + colon + now =~= "Date: "@ + now);
    assert("Connection"@ + colon + "close"@ =~= "Connection: close"@);
    // the first characters tell the headers apart, or the ninth those of the content
    assert forall|j: int| 0 <= j < lines.len() && begins(
        #[trigger] lines[j],
        "Server"@ + colon,
    ) implies j == 1 by {
        assert(("Server"@ + colon)[0] == 'S');
    }
    assert(lines[1] == "Server"@ + colon + "MyHTTP"@);
    assert(has_header(lines, "Server"@, "MyHTTP"@));
    assert forall|j: int| 0 <= j < lines.len() && begins(
        #[trigger] lines[j],
        "Content-Type"@ + colon,
    ) implies j == 2 by {
        assert(("Content-Type"@ + colon)[0] == 'C');
        assert(("Content-Type"@ + colon)[8] == 'T');
    }
    assert(lines[2] == "Content-Type"@ + colon + "text/html"@);
    assert(has_header(lines, "Content-Type"@, "text/html"@));
    let l: int = if connection == 3 {
        4
    } else {
        3
    };
    assert forall|j: int| 0 <= j < lines.len() && begins(
        #[trigger] lines[j],
        "Content-Length"@ + colon,
    ) implies j == l by {
        assert(("Content-Length"@ + colon)[0] == 'C');
        assert(("Content-Length"@ + colon)[8] == 'L');
    }
    assert(lines[l] == "Content-Length"@ + colon + length);
    assert(has_header(lines, "Content-Length"@, length));
    assert forall|j: int| 0 <= j < lines.len() && begins(
        #[trigger] lines[j],
        "Date"@ + colon,
    ) implies j == l + 1 by {
        assert(("Date"@ + colon)[0] == 'D');
    }
    assert(lines[l + 1] == "Date"@ + colon + now);
    assert(has_header(lines, "Date"@, now));
    assert forall|j: int| 0 <= j < lines.len() && begins(
        #[trigger] lines[j],
        "Connection"@ + colon,
    ) implies j == connection by {
        assert(("Connection"@ + colon)[0] == 'C');
        assert(("Connection"@ + colon)[3] == 'n');
        assert(("Connection"@ + colon)[8] == 'o');
    }
    if connection >= 0 {
        assert(lines[connection] == "Connection"@ + colon + "close"@);
        assert(has_header(lines, "Connection"@, "close"@));
    }
}

/// A client that reads a response finds in its head that all is well, one length, one
/// time, and whether the connection is closed. Behind it stands the page with a line
/// break. In the responses of the blocking servers the length is the number of bytes
/// behind the blank line. In the other one it leaves out the last line break.
pub proof fn responses_announce_their_bodies(
    worker: nat,
    peer: Seq<char>,
    now: Seq<char>,
    close: bool,
)
    requires
        printable(now),
    ensures
        response(peer, now) == encode_utf8(response_text(peer, now)),
        exists|lines: Seq<Seq<char>>, body: Seq<char>| #[trigger]
            is_message(response_text(peer, now), lines, body) && body == page(peer, now) + seq![
                '\r',
                '\n',
            ] && announces(lines, (encode_utf8(body).len() - 2) as nat, now, false),
        exists|lines: Seq<Seq<char>>, body: Seq<char>| #[trigger]
            is_message(closing_response_text(peer, now), lines, body) && body == page(peer, now)
                + seq!['\r', '\n'] && announces(lines, encode_utf8(body).len(), now, true),
        exists|lines: Seq<Seq<char>>, body: Seq<char>| #[trigger]
            is_message(worker_response_text(worker, peer, now, close), lines, body) && body
                == worker_page(worker, peer, now) + seq!['\r', '\n'] && announces(
                lines,
                encode_utf8(body).len(),
                now,
                close,
            ),
{
    lemma_plain_message(peer, now);
    lemma_closing_message(peer, now);
    lemma_worker_message(worker, peer, now, close);
}

/// The fixed texts of the heads, by their lines.
proof fn lemma_fixed_texts()
    ensures
        "HTTP/1.1 200 OK\r\nServer: MyHTTP\r\nContent-Type: text/html"@ == "HTTP/1.1 200 OK"@ + seq![
            '\r',
            '\n',
        ] + "Server: MyHTTP"@ + seq!['\r', '\n'] + "Content-Type: text/html"@,
        "HTTP/1.1 200 OK\r\nServer: MyHTTP\r\nContent-Type: text/html\r\nContent-Length: "@
            == "HTTP/1.1 200 OK\r\nServer: MyHTTP\r\nContent-Type: text/html"@ + seq!['\r', '\n']
            + "Content-Length: "@,
        "\r\nContent-Length: "@ == seq!['\r', '\n'] + "Content-Length: "@,
        "\r\nDate: "@ == seq!['\r', '\n'] + "Date: "@,
        "\r\nConnection: close"@ == seq!['\r', '\n'] + "Connection: close"@,
        "\r\n\r\n"@ == seq!['\r', '\n', '\r', '\n'],
        "\r\n"@ == seq!['\r', '\n'],
        ""@ == Seq::<char>::empty(),
{
    reveal_strlit("HTTP/1.1 200 OK\r\nServer: MyHTTP\r\nContent-Type: text/html\r\nContent-Length: ");
    reveal_strlit("HTTP/1.1 200 OK\r\nServer: MyHTTP\r\nContent-Type: text/html");
    reveal_strlit("\r\nContent-Length: ");
    reveal_strlit("\r\nDate: ");
    reveal_strlit("\r\nConnection: close");
    reveal_strlit("\r\n\r\n");
    reveal_strlit("\r\n");
    reveal_strlit("");
    reveal_strlit("HTTP/1.1 200 OK");
    reveal_strlit("Server: MyHTTP");
    reveal_strlit("Content-Type: text/html");
    reveal_strlit("Content-Length: ");
    reveal_strlit("Date: ");
    reveal_strlit("Connection: close");
}

proof fn lemma_regroup(a: Seq<char>, b: Seq<char>, c: Seq<char>)
    ensures
        a + b + c == a + (b + c),
{
    assert(a + b + c =~= a + (b + c));
}

proof fn lemma_plain_message(peer: Seq<char>, now: Seq<char>)
    requires
        printable(now),
    ensures
        exists|lines: Seq<Seq<char>>, body: Seq<char>| #[trigger]
            is_message(response_text(peer, now), lines, body) && body == page(peer, now) + seq![
                '\r',
                '\n',
            ] && announces(lines, (encode_utf8(body).len() - 2) as nat, now, false),
{
    let n = encode_utf8(page(peer, now)).len();
    let body = page(peer, now) + seq!['\r', '\n'];
    let lines = response_lines(decimal(n), now, -1);
    lemma_fixed_texts();
    lemma_line_break(page(peer, now));
    lemma_lines_announce(decimal(n), n, now, -1);
    lemma_joined_five(lines);
    let br = seq!['\r', '\n'];
    let first = "HTTP/1.1 200 OK\r\nServer: MyHTTP\r\nContent-Type: text/html"@;
    let upto_length = first + br + "Content-Length: "@ + decimal(n);
    lemma_regroup(first + br, "Content-Length: "@, decimal(n));
    lemma_regroup(upto_length, br, "Date: "@);
    lemma_regroup(upto_length + br, "Date: "@, now);
    assert(response_head(peer, now) == joined(lines));
    lemma_regroup(joined(lines) + seq!['\r', '\n', '\r', '\n'], page(peer, now), br);
    assert(is_message(response_text(peer, now), lines, body));
}

proof fn lemma_closing_message(peer: Seq<char>, now: Seq<char>)
    requires
        printable(now),
    ensures
        exists|lines: Seq<Seq<char>>, body: Seq<char>| #[trigger]
            is_message(closing_response_text(peer, now), lines, body) && body == page(peer, now)
                + seq!['\r', '\n'] && announces(lines, encode_utf8(body).len(), now, true),
{
    let n = encode_utf8(page(peer, now)).len() + 2;
    let body = page(peer, now) + seq!['\r', '\n'];
    let lines = response_lines(decimal(n), now, 5);
    lemma_fixed_texts();
    lemma_line_break(page(peer, now));
    lemma_lines_announce(decimal(n), n, now, 5);
    lemma_joined_six(lines);
    let br = seq!['\r', '\n'];
    let first = "HTTP/1.1 200 OK\r\nServer: MyHTTP\r\nContent-Type: text/html"@;
    let upto_length = first + br + "Content-Length: "@ + decimal(n);
    let upto_date = upto_length + br + "Date: "@ + now;
    lemma_regroup(first + br, "Content-Length: "@, decimal(n));
    lemma_regroup(upto_length, br, "Date: "@);
    lemma_regroup(upto_length + br, "Date: "@, now);
    lemma_regroup(upto_date, br, "Connection: close"@);
    assert(closing_response_head(peer, now) == joined(lines));
    lemma_regroup(joined(lines) + seq!['\r', '\n', '\r', '\n'], page(peer, now), br);
    assert(is_message(closing_response_text(peer, now), lines, body));
}

proof fn lemma_worker_message(worker: nat, peer: Seq<char>, now: Seq<char>, close: bool)
    requires
        printable(now),
    ensures
        exists|lines: Seq<Seq<char>>, body: Seq<char>| #[trigger]
            is_message(worker_response_text(worker, peer, now, close), lines, body) && body
                == worker_page(worker, peer, now) + seq!['\r', '\n'] && announces(
                lines,
                encode_utf8(body).len(),
                now,
                close,
            ),
{
    let n = encode_utf8(worker_page(worker, peer, now)).len() + 2;
    let body = worker_page(worker, peer, now) + seq!['\r', '\n'];
    let at: int = if close {
        3
    } else {
        -1
    };
    let lines = response_lines(decimal(n), now, at);
    lemma_fixed_texts();
    lemma_line_break(worker_page(worker, peer, now));
    lemma_lines_announce(decimal(n), n, now, at);
    if close {
        lemma_joined_six(lines);
    } else {
        lemma_joined_five(lines);
    }
    let br = seq!['\r', '\n'];
    let first = "HTTP/1.1 200 OK\r\nServer: MyHTTP\r\nContent-Type: text/html"@;
    let before = if close {
        first + br + "Connection: close"@
    } else {
        first
    };
    let upto_length = before + br + "Content-Length: "@ + decimal(n);
    lemma_regroup(first, br, "Connection: close"@);
    assert(first + ""@ =~= first);
    lemma_regroup(before, br, "Content-Length: "@);
    lemma_regroup(before + br, "Content-Length: "@, decimal(n));
    lemma_regroup(upto_length, br, "Date: "@);
    lemma_regroup(upto_length + br, "Date: "@, now);
    assert(worker_response_head(worker, peer, now, close) == joined(lines));
    lemma_regroup(
        joined(lines) + seq!['\r', '\n', '\r', '\n'],
        worker_page(worker, peer, now),
        br,
    );
    assert(is_message(worker_response_text(worker, peer, now, close), lines, body));
}

proof fn lemma_joined_five(lines: Seq<Seq<char>>)
    requires
        lines.len() == 5,
    ensures
        joined(lines) == lines[0] + seq!['\r', '\n'] + lines[1] + seq!['\r', '\n'] + lines[2] + seq![
            '\r',
            '\n',
        ] + lines[3] + seq!['\r', '\n'] + lines[4],
{
    reveal_with_fuel(joined, 6);
}

proof fn lemma_joined_six(lines: Seq<Seq<char>>)
    requires
        lines.len() == 6,
    ensures
        joined(lines) == lines[0] + seq!['\r', '\n'] + lines[1] + seq!['\r', '\n'] + lines[2] + seq![
            '\r',
            '\n',
        ] + lines[3] + seq!['\r', '\n'] + lines[4] + seq!['\r', '\n'] + lines[5],
{
    lemma_joined_five(lines.drop_last());
}

/// Whether a page shows an address and a time between two fixed texts, whatever they
/// are.
pub open spec fn page_frame(front: Seq<char>, back: Seq<char>) -> bool {
    forall|peer: Seq<char>, now: Seq<char>| #[trigger]
        page(peer, now) == front + "your address is "@ + peer + ", current time is "@ + now + back
}

/// Whether the page of a worker shows its number, an address and a time between two
/// fixed texts, whatever they are.
pub open spec fn worker_page_frame(front: Seq<char>, back: Seq<char>) -> bool {
    forall|worker: nat, peer: Seq<char>, now: Seq<char>| #[trigger]
        worker_page(worker, peer, now) == front + "from worker #"@ + decimal(worker)
            + ", your address is "@ + peer + ", current time is "@ + now + back
}

/// Each page shows the address of the client and the time, completely, and that of a
/// worker its number too. Apart from these all pages are the same.
pub proof fn pages_show_address_and_time()
    ensures
        exists|front: Seq<char>, back: Seq<char>| #[trigger] page_frame(front, back),
        exists|front: Seq<char>, back: Seq<char>| #[trigger] worker_page_frame(front, back),
{
    let head = "<html>\n<head>\n<title>Test page</title>\n</head>\n<body>\n<p>Hello, "@;
    let worker_head = "<html>\n<head>\n<title>Test page</title>\n</head>\n<body>\n<p>Hello "@;
    let back = ".</p>\n</body>\n</html>"@;
    reveal_strlit("<html>\n<head>\n<title>Test page</title>\n</head>\n<body>\n<p>Hello, ");
    reveal_strlit("<html>\n<head>\n<title>Test page</title>\n</head>\n<body>\n<p>Hello ");
    reveal_strlit("your address is ");
    reveal_strlit("from worker #");
    reveal_strlit(
        "<html>\n<head>\n<title>Test page</title>\n</head>\n<body>\n<p>Hello, your address is ",
    );
    reveal_strlit(
        "<html>\n<head>\n<title>Test page</title>\n</head>\n<body>\n<p>Hello from worker #",
    );
    let front = head + "your address is "@;
    assert(front =~=
        "<html>\n<head>\n<title>Test page</title>\n</head>\n<body>\n<p>Hello, your address is "@);
    let worker_front = worker_head + "from worker #"@;
    assert(worker_front =~=
        "<html>\n<head>\n<title>Test page</title>\n</head>\n<body>\n<p>Hello from worker #"@);
    assert(page_frame(head, back));
    assert(worker_page_frame(worker_head, back));
}

} // verus!
