//! Recognising requests and answering them.
use vstd::prelude::*;
use crate::clock::given_by_clock;
use crate::request_buf::{RequestBuf, RequestError};
use crate::response::{is_date, local_date, response, write_response, DATE_FORMAT};

verus! {

/// How many headers a request may have.
pub const MAX_HEADERS: usize = 16;

/// The head of a request.
pub struct RequestHead {
    /// Number of bytes up to the end of the head.
    pub len: usize,
    pub method: String,
    pub path: String,
}

impl View for RequestHead {
    type V = (usize, Seq<char>, Seq<char>);

    open spec fn view(&self) -> (usize, Seq<char>, Seq<char>) {
        (self.len, self.method@, self.path@)
    }
}

/// What the parser found: the head of a request, nothing yet, or an error with
/// its description.
pub type Parsed = Result<Option<RequestHead>, String>;

/// What `httparse::Request::parse` finds at the beginning of `bytes`, given
/// space for `max_headers` headers: the length of the head with its method and
/// its path, nothing if the bytes end too early, or the error's description.
pub uninterp spec fn httparse_request(bytes: Seq<u8>, max_headers: usize) -> Result<
    Option<(usize, Seq<char>, Seq<char>)>,
    Seq<char>,
>;

/// What the parser found, in terms of plain values.
pub open spec fn parsed_view(parsed: Parsed) -> Result<
    Option<(usize, Seq<char>, Seq<char>)>,
    Seq<char>,
> {
    match parsed {
        Ok(Some(head)) => Ok(Some(head@)),
        Ok(None) => Ok(None),
        Err(e) => Err(e@),
    }
}

/// Parses the head of a request: `httparse::Request::parse`, on a request with
/// space for `N` headers.
///
/// Claimed is that the outcome depends on the bytes and on that space alone, that
/// a head is not empty and lies within the bytes, and that no bytes are no error.
/// A complete head always comes with a method and a path.
#[verifier::external_body]
pub(crate) fn parse_head<const N: usize>(bytes: &[u8]) -> (r: Parsed)
    ensures
        parsed_view(r) == httparse_request(bytes@, N),
        r matches Ok(Some(head)) ==> 0 < head.len <= bytes@.len(),
        bytes@.len() == 0 ==> r is Ok && r->Ok_0 is None,
{
    let mut headers = [httparse::EMPTY_HEADER; N];
    let mut request = httparse::Request::new(&mut headers);
    match request.parse(bytes) {
        Ok(httparse::Status::Complete(len)) => Ok(Some(RequestHead {
            len,
            method: request.method.unwrap().to_string(),
            path: request.path.unwrap().to_string(),
        })),
        Ok(httparse::Status::Partial) => Ok(None),
        Err(e) => Err(e.to_string()),
    }
}

/// Parses the head of a request, and looks at the clock if it is complete.
pub(crate) fn parse_request(bytes: &[u8]) -> (r: (Parsed, String))
    ensures
        parsed_view(r.0) == httparse_request(bytes@, MAX_HEADERS),
        r.0 matches Ok(Some(head)) ==> 0 < head.len <= bytes@.len() && is_date(r.1@)
            && given_by_clock(r.1@),
        bytes@.len() == 0 ==> r.0 is Ok && r.0->Ok_0 is None,
{
    let parsed = parse_head::<MAX_HEADERS>(bytes);
    let now = match parsed {
        Ok(Some(_)) => local_date(DATE_FORMAT),
        _ => String::new(),
    };
    (parsed, now)
}

/// Handles what the parser found in the pending bytes, at the time `now`: a
/// request is consumed and its response appended, and `true` is returned.
pub fn process_parsed(
    in_buf: &mut RequestBuf,
    parsed: &Parsed,
    peer_addr: &str,
    now: &str,
    out_buf: &mut Vec<u8>,
) -> (r: Result<bool, RequestError>)
    requires
        old(in_buf).wf(),
        old(in_buf).in_bounds(),
        parsed matches Ok(Some(head)) ==> head.len <= old(in_buf).pending().len(),
    ensures
        final(in_buf).wf(),
        final(in_buf).in_bounds(),
        final(in_buf).data() == old(in_buf).data(),
        final(in_buf).end() == old(in_buf).end(),
        match *parsed {
            Ok(Some(head)) => {
                &&& r == Ok::<bool, RequestError>(true)
                &&& final(in_buf).pos() == old(in_buf).pos() + head.len
                &&& final(in_buf).pending() == old(in_buf).pending().skip(head.len as int)
                &&& final(out_buf)@ == old(out_buf)@ + response(peer_addr@, now@)
            },
            Ok(None) => {
                &&& r == Ok::<bool, RequestError>(false)
                &&& final(in_buf).pos() == old(in_buf).pos()
                &&& final(out_buf)@ == old(out_buf)@
            },
            Err(_) => {
                &&& r == Err::<bool, RequestError>(RequestError::Malformed)
                &&& final(in_buf).pos() == old(in_buf).pos()
                &&& final(out_buf)@ == old(out_buf)@
            },
        },
{
    match parsed {
        Ok(Some(head)) => {
            in_buf.consume(head.len);
            write_response(out_buf, peer_addr, now);
            Ok(true)
        },
        Ok(None) => Ok(false),
        Err(_) => Err(RequestError::Malformed),
    }
}

/// Whether to look for a request among the pending bytes of `in_buf`, from the client at
/// `peer`, turns it into `after` and the output `out` into `after_out`, with the result
/// `r`.
pub open spec fn processes(
    in_buf: RequestBuf,
    peer: Seq<char>,
    out: Seq<u8>,
    after: RequestBuf,
    after_out: Seq<u8>,
    r: Result<bool, RequestError>,
) -> bool {
    &&& after.data() == in_buf.data()
    &&& after.end() == in_buf.end()
    &&& match httparse_request(in_buf.pending(), MAX_HEADERS) {
        Ok(Some(head)) => {
            &&& r == Ok::<bool, RequestError>(true)
            &&& 0 < head.0 <= in_buf.pending().len()
            &&& after.pos() == in_buf.pos() + head.0
            &&& after.pending() == in_buf.pending().skip(head.0 as int)
            &&& exists|now: Seq<char>| #[trigger]
                is_date(now) && given_by_clock(now) && after_out == out + response(peer, now)
        },
        Ok(None) => {
            &&& r == Ok::<bool, RequestError>(false)
            &&& after.pos() == in_buf.pos()
            &&& after_out == out
        },
        Err(_) => {
            &&& r == Err::<bool, RequestError>(RequestError::Malformed)
            &&& after.pos() == in_buf.pos()
            &&& after_out == out
        },
    }
    &&& in_buf.pending().len() == 0 ==> r == Ok::<bool, RequestError>(false)
}

/// Answers the first request among the pending bytes, if it has arrived
/// completely. Returns whether there was one.
pub fn process_request(in_buf: &mut RequestBuf, peer_addr: &str, out_buf: &mut Vec<u8>) -> (r:
    Result<bool, RequestError>)
    requires
        old(in_buf).wf(),
        old(in_buf).in_bounds(),
    ensures
        final(in_buf).wf(),
        final(in_buf).in_bounds(),
        processes(
            *old(in_buf),
            peer_addr@,
            old(out_buf)@,
            *final(in_buf),
            final(out_buf)@,
            r,
        ),
{
    let (parsed, now) = parse_request(in_buf.pending_bytes());
    process_parsed(in_buf, &parsed, peer_addr, now.as_str(), out_buf)
}

/// A request is answered exactly if the parser finds a complete one at the beginning of
/// the pending bytes: it is taken off, and one response, with the time that the clock
/// gave, is added behind what is there to be sent. Otherwise nothing changes, and the
/// result tells whether the rest can still come.
pub proof fn request_is_answered_once_it_is_complete(
    in_buf: RequestBuf,
    peer: Seq<char>,
    out: Seq<u8>,
    after: RequestBuf,
    after_out: Seq<u8>,
    r: Result<bool, RequestError>,
)
    requires
        in_buf.wf(),
        in_buf.in_bounds(),
        processes(in_buf, peer, out, after, after_out, r),
    ensures
        ({
            let found = httparse_request(in_buf.pending(), MAX_HEADERS);
            &&& r == Ok::<bool, RequestError>(true) <==> found is Ok && found->Ok_0 is Some
            &&& r == Ok::<bool, RequestError>(false) <==> found is Ok && found->Ok_0 is None
            &&& r == Err::<bool, RequestError>(RequestError::Malformed) <==> found is Err
            &&& r == Ok::<bool, RequestError>(true) ==> {
                let head = found->Ok_0->0;
                &&& in_buf.pending() == in_buf.pending().take(head.0 as int) + after.pending()
                &&& exists|now: Seq<char>| #[trigger]
                    given_by_clock(now) && after_out == out + response(peer, now)
            }
            &&& r != Ok::<bool, RequestError>(true) ==> after.pending() == in_buf.pending()
                && after_out == out
        }),
{
    if let Ok(Some(head)) = httparse_request(in_buf.pending(), MAX_HEADERS) {
        assert(in_buf.pending() =~= in_buf.pending().take(head.0 as int) + after.pending());
    }
}

} // verus!
