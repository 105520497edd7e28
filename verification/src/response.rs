//! The response that an origin sends, or that the proxy makes in its place.

use vstd::prelude::*;
use vstd::string::*;
use vstd::utf8::*;
use crate::head::{ResponseHead, ResponseHeadView, response_head, response_head_of};
use crate::headers::{Headers, Pairs, collect, distinct_names, forwarded, header_lines};
use crate::headers::{lemma_forwarded, lookup};
use crate::parsable::{Parsable, ParseStatus, Sendable, body_status, parse_body};
use crate::parsable::lemma_length_framing;
use crate::text::bounded_numeral;
use crate::request::{body_bytes, body_view};
use crate::text::{decimal_text, push_decimal};

verus! {

/// A response as it was received or made, or as a hook has changed it.
#[derive(Debug, PartialEq, Eq)]
pub struct Response {
    /// The minor version of HTTP/1.
    pub version: u8,
    pub status_code: u16,
    pub reason: String,
    pub headers: Headers,
    pub body: Option<Vec<u8>>,
}

/// A response as plain values.
pub struct ResponseView {
    pub version: u8,
    pub status_code: u16,
    pub reason: Seq<char>,
    pub headers: Pairs,
    pub body: Option<Seq<u8>>,
}

impl View for Response {
    type V = ResponseView;

    open spec fn view(&self) -> ResponseView {
        ResponseView {
            version: self.version,
            status_code: self.status_code,
            reason: self.reason@,
            headers: self.headers@,
            body: body_view(self.body),
        }
    }
}

/// The response that a head and the bytes behind it make, with the body
/// that its headers frame.
pub open spec fn response_of(head: ResponseHeadView, rest: Seq<u8>) -> ParseStatus<ResponseView> {
    match body_status(head.headers, rest) {
        ParseStatus::Complete(body) => ParseStatus::Complete(
            ResponseView {
                version: head.version,
                status_code: head.code,
                reason: head.reason,
                headers: collect(head.headers),
                body,
            },
        ),
        ParseStatus::InProgress => ParseStatus::InProgress,
        ParseStatus::Error(kind) => ParseStatus::Error(kind),
    }
}

/// The bytes of a response as it is relayed to the client.
pub open spec fn response_wire(r: ResponseView) -> Seq<u8> {
    "HTTP/1.".spec_bytes() + decimal_text(r.version as nat) + " ".spec_bytes() + decimal_text(
        r.status_code as nat,
    ) + " ".spec_bytes() + encode_utf8(r.reason) + "\r\n".spec_bytes() + header_lines(
        forwarded(r.headers),
    ) + "\r\n".spec_bytes() + body_bytes(r.body)
}

/// A response whose head declares the length of its body is whole when the
/// bytes of that body follow the head, and has exactly that body; when any
/// shorter part of them follows, it is in progress.
pub proof fn lemma_response_framing(head: ResponseHeadView, body: Seq<u8>)
    requires
        lookup(head.headers, "Content-Length"@) matches Some(length) && bounded_numeral(length, 10)
            matches Some(n) && n == body.len(),
    ensures
        response_of(head, body) matches ParseStatus::Complete(r) && r.body == Some(body),
        forall|cut: int|
            0 <= cut < body.len() ==> #[trigger] response_of(head, body.take(cut)) is InProgress,
{
    lemma_length_framing(head.headers, body);
}

/// The same of a buffer that holds a response, as far as the head goes:
/// where a buffer holds the head of a response and behind it the body of
/// the length that the head declares, the response is parsed whole, with
/// that body; and a shorter buffer that still holds the head whole, and from
/// which the same head is read, is in progress.
pub proof fn lemma_response_parse_framing(buf: Seq<u8>, cut: int)
    requires
        ({
            &&& response_head_of(buf) matches ParseStatus::Complete(head)
            &&& lookup(head.headers, "Content-Length"@) matches Some(length)
            &&& bounded_numeral(length, 10) matches Some(n)
            &&& head.len + n == buf.len()
            &&& head.len <= cut < buf.len()
        }),
        response_head_of(buf.take(cut)) == response_head_of(buf),
    ensures
        ({
            &&& Response::parsed(buf) matches ParseStatus::Complete((r, len))
            &&& response_head_of(buf) matches ParseStatus::Complete(head)
            &&& len == head.len
            &&& r.body == Some(buf.skip(len as int))
        }),
        Response::parsed(buf.take(cut)) is InProgress,
{
    let head = response_head_of(buf)->Complete_0;
    let body = buf.skip(head.len as int);
    lemma_response_framing(head, body);
    assert(buf.take(cut).skip(head.len as int) =~= body.take(cut - head.len));
}

/// To relay what was relayed changes nothing. A response that differs from
/// another only in what is rewritten on the way, its headers being those
/// that were relayed, has the same bytes on the wire.
pub proof fn lemma_response_wire_fixed(r: ResponseView, sent: ResponseView)
    requires
        distinct_names(r.headers),
        sent.version == r.version,
        sent.status_code == r.status_code,
        sent.reason == r.reason,
        sent.headers == forwarded(r.headers),
        sent.body == r.body,
    ensures
        response_wire(sent) == response_wire(r),
{
    lemma_forwarded(r.headers);
}

impl Response {
    /// A response of the given status, with no header and no body.
    pub fn new(version: u8, status_code: u16, reason: &str) -> (r: Response)
        ensures
            r@ == (ResponseView {
                version,
                status_code,
                reason: reason@,
                headers: Seq::empty(),
                body: None,
            }),
    {
        Response {
            version,
            status_code,
            reason: String::from_str(reason),
            headers: Headers::new(),
            body: None,
        }
    }

    /// Makes a response of its head and the bytes that follow the head.
    pub fn from_head(head: ResponseHead, rest: &[u8]) -> (status: ParseStatus<Response>)
        ensures
            match response_of(head@, rest@) {
                ParseStatus::Complete(message) => status matches ParseStatus::Complete(r)
                    && r@ == message,
                ParseStatus::InProgress => status is InProgress,
                ParseStatus::Error(kind) => status == ParseStatus::<Response>::Error(kind),
            },
    {
        match parse_body(head.headers.as_slice(), rest) {
            ParseStatus::Complete(body) => {
                let headers = Headers::from_list(head.headers.as_slice());
                ParseStatus::Complete(
                    Response {
                        version: head.version,
                        status_code: head.code,
                        reason: head.reason,
                        headers,
                        body,
                    },
                )
            },
            ParseStatus::InProgress => ParseStatus::InProgress,
            ParseStatus::Error(kind) => ParseStatus::Error(kind),
        }
    }
}

impl Parsable for Response {
    open spec fn parsed(buf: Seq<u8>) -> ParseStatus<(ResponseView, usize)> {
        match response_head_of(buf) {
            ParseStatus::Complete(head) => match response_of(head, buf.skip(head.len as int)) {
                ParseStatus::Complete(message) => ParseStatus::Complete((message, head.len)),
                ParseStatus::InProgress => ParseStatus::InProgress,
                ParseStatus::Error(kind) => ParseStatus::Error(kind),
            },
            ParseStatus::InProgress => ParseStatus::InProgress,
            ParseStatus::Error(kind) => ParseStatus::Error(kind),
        }
    }

    /// A response of version 1 and status 200, with an empty reason, no
    /// header and no body.
    open spec fn blank() -> ResponseView {
        ResponseView {
            version: 1,
            status_code: 200,
            reason: Seq::empty(),
            headers: Seq::empty(),
            body: None,
        }
    }

    fn new() -> (r: Response) {
        Response {
            version: 1,
            status_code: 200,
            reason: String::new(),
            headers: Headers::new(),
            body: None,
        }
    }

    fn parse(&mut self, buf: &[u8]) -> (status: ParseStatus<usize>) {
        match response_head(buf) {
            ParseStatus::Complete(head) => {
                let len = head.len;
                let rest = vstd::slice::slice_subrange(buf, len, buf.len());
                assert(rest@ =~= buf@.skip(len as int));
                match Response::from_head(head, rest) {
                    ParseStatus::Complete(message) => {
                        *self = message;
                        ParseStatus::Complete(len)
                    },
                    ParseStatus::InProgress => ParseStatus::InProgress,
                    ParseStatus::Error(kind) => ParseStatus::Error(kind),
                }
            },
            ParseStatus::InProgress => ParseStatus::InProgress,
            ParseStatus::Error(kind) => ParseStatus::Error(kind),
        }
    }
}

impl Sendable for Response {
    open spec fn wire(&self) -> Seq<u8> {
        response_wire(self@)
    }

    fn to_bytes(&self) -> (bytes: Vec<u8>) {
        let mut out: Vec<u8> = Vec::new();
        out.extend_from_slice("HTTP/1.".as_bytes());
        push_decimal(&mut out, self.version as u64);
        out.extend_from_slice(" ".as_bytes());
        push_decimal(&mut out, self.status_code as u64);
        out.extend_from_slice(" ".as_bytes());
        out.extend_from_slice(self.reason.as_str().as_bytes());
        out.extend_from_slice("\r\n".as_bytes());
        self.headers.forwarded().write_lines(&mut out);
        out.extend_from_slice("\r\n".as_bytes());
        match &self.body {
            Some(body) => {
                out.extend_from_slice(body.as_slice());
            },
            None => {},
        }
        assert(out@ =~= response_wire(self@));
        out
    }
}

} // verus!
