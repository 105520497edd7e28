//! The request that a client sends to the proxy.

use vstd::prelude::*;
use vstd::string::*;
use vstd::utf8::*;
use crate::head::{RequestHead, RequestHeadView, request_head, request_head_of};
use crate::headers::{Headers, Pairs, collect, distinct_names, forwarded, header_lines};
use crate::headers::{lemma_forwarded, lookup};
use crate::parsable::{Parsable, ParseStatus, Sendable, body_status, parse_body};
use crate::parsable::lemma_length_framing;
use crate::text::bounded_numeral;
use crate::target::{forward_path, lemma_forward_path_fixed, lemma_places_ordered, locate};
use crate::target::{target_host, target_path, target_port, target_scheme};
use crate::text::{bytes_eq, decimal_text, lemma_ascii_boundary, push_decimal, str_eq, str_slice};

verus! {

/// A request as it was received, or as a hook has changed it.
#[derive(Debug, PartialEq, Eq)]
pub struct Request {
    pub method: String,
    /// The target of the request line; a client writes it to a proxy in
    /// absolute form.
    pub path: String,
    /// The minor version of HTTP/1.
    pub version: u8,
    pub headers: Headers,
    pub body: Option<Vec<u8>>,
}

/// A request as plain values.
pub struct RequestView {
    pub method: Seq<char>,
    pub path: Seq<char>,
    pub version: u8,
    pub headers: Pairs,
    pub body: Option<Seq<u8>>,
}

/// A body as plain values.
pub open spec fn body_view(body: Option<Vec<u8>>) -> Option<Seq<u8>> {
    match body {
        Some(bytes) => Some(bytes@),
        None => None,
    }
}

/// The bytes of a body on the wire.
pub open spec fn body_bytes(body: Option<Seq<u8>>) -> Seq<u8> {
    match body {
        Some(bytes) => bytes,
        None => Seq::empty(),
    }
}

impl View for Request {
    type V = RequestView;

    open spec fn view(&self) -> RequestView {
        RequestView {
            method: self.method@,
            path: self.path@,
            version: self.version,
            headers: self.headers@,
            body: body_view(self.body),
        }
    }
}

/// Whether the connection of a request has to close after the exchange.
/// Under HTTP/1.0 it does unless `Connection` holds `Keep-Alive`; under
/// HTTP/1.1 it does only where `Connection` holds `Close`; under any other
/// version it does.
pub open spec fn closes(version: u8, connection: Option<Seq<u8>>) -> bool {
    if version == 0 {
        connection != Some("Keep-Alive".spec_bytes())
    } else if version == 1 {
        connection == Some("Close".spec_bytes())
    } else {
        true
    }
}

/// The request that a head and the bytes behind it make. A `GET` request has
/// no body, whatever its headers say; any other has the body that its
/// headers frame.
pub open spec fn request_of(head: RequestHeadView, rest: Seq<u8>) -> ParseStatus<RequestView> {
    let framing = if head.method == "GET"@ {
        ParseStatus::Complete(None)
    } else {
        body_status(head.headers, rest)
    };
    match framing {
        ParseStatus::Complete(body) => ParseStatus::Complete(
            RequestView {
                method: head.method,
                path: head.path,
                version: head.version,
                headers: collect(head.headers),
                body,
            },
        ),
        ParseStatus::InProgress => ParseStatus::InProgress,
        ParseStatus::Error(kind) => ParseStatus::Error(kind),
    }
}

/// The bytes of a request as it is sent on to the origin.
pub open spec fn request_wire(r: RequestView) -> Seq<u8> {
    encode_utf8(r.method) + " ".spec_bytes() + forward_path(encode_utf8(r.path))
        + " HTTP/1.".spec_bytes() + decimal_text(r.version as nat) + "\r\n".spec_bytes()
        + header_lines(forwarded(r.headers)) + "\r\n".spec_bytes() + body_bytes(r.body)
}

/// A request other than `GET` whose head declares the length of its body
/// is whole when the bytes of that body follow the head, and has exactly
/// that body; when any shorter part of them follows, it is in progress.
pub proof fn lemma_request_framing(head: RequestHeadView, body: Seq<u8>)
    requires
        head.method != "GET"@,
        lookup(head.headers, "Content-Length"@) matches Some(length) && bounded_numeral(length, 10)
            matches Some(n) && n == body.len(),
    ensures
        request_of(head, body) matches ParseStatus::Complete(r) && r.body == Some(body),
        forall|cut: int|
            0 <= cut < body.len() ==> #[trigger] request_of(head, body.take(cut)) is InProgress,
{
    lemma_length_framing(head.headers, body);
}

/// The same of a buffer that holds a request, as far as the head goes: where
/// a buffer holds the head of a request other than `GET` and behind it the
/// body of the length that the head declares, the request is parsed whole,
/// with that body; and a shorter buffer that still holds the head whole,
/// and from which the same head is read, is in progress.
pub proof fn lemma_request_parse_framing(buf: Seq<u8>, cut: int)
    requires
        ({
            &&& request_head_of(buf) matches ParseStatus::Complete(head)
            &&& head.method != "GET"@
            &&& lookup(head.headers, "Content-Length"@) matches Some(length)
            &&& bounded_numeral(length, 10) matches Some(n)
            &&& head.len + n == buf.len()
            &&& head.len <= cut < buf.len()
        }),
        request_head_of(buf.take(cut)) == request_head_of(buf),
    ensures
        ({
            &&& Request::parsed(buf) matches ParseStatus::Complete((r, len))
            &&& request_head_of(buf) matches ParseStatus::Complete(head)
            &&& len == head.len
            &&& r.body == Some(buf.skip(len as int))
        }),
        Request::parsed(buf.take(cut)) is InProgress,
{
    let head = request_head_of(buf)->Complete_0;
    let body = buf.skip(head.len as int);
    lemma_request_framing(head, body);
    assert(buf.take(cut).skip(head.len as int) =~= body.take(cut - head.len));
}

/// To send on what was sent on changes nothing. A request that differs from
/// another only in what is rewritten on the way, its target being the one
/// that was sent on and its headers those that were sent on, has the same
/// bytes on the wire.
pub proof fn lemma_request_wire_fixed(r: RequestView, sent: RequestView)
    requires
        distinct_names(r.headers),
        sent.method == r.method,
        encode_utf8(sent.path) == forward_path(encode_utf8(r.path)),
        sent.version == r.version,
        sent.headers == forwarded(r.headers),
        sent.body == r.body,
    ensures
        request_wire(sent) == request_wire(r),
{
    lemma_forward_path_fixed(encode_utf8(r.path));
    lemma_forwarded(r.headers);
}

impl Request {
    /// The scheme, the host, the port and the path of the target. A target
    /// that is not absolute has empty parts and port 80.
    pub fn disassembly_path(&self) -> (parts: (&str, &str, u16, &str))
        ensures
            parts.0.spec_bytes() == target_scheme(encode_utf8(self.path@)),
            parts.1.spec_bytes() == target_host(encode_utf8(self.path@)),
            parts.2 == target_port(encode_utf8(self.path@)),
            parts.3.spec_bytes() == target_path(encode_utf8(self.path@)),
    {
        let s = self.path.as_str();
        let bytes = s.as_bytes();
        proof {
            encode_utf8_valid_utf8(s@);
            is_char_boundary_start_end_of_seq(bytes@);
        }
        match locate(bytes) {
            None => {
                let empty = str_slice(s, 0, 0);
                (empty, empty, crate::target::DEFAULT_PORT, empty)
            },
            Some(p) => {
                proof {
                    lemma_places_ordered(bytes@);
                    lemma_ascii_boundary(bytes@, p.scheme_end as int);
                    lemma_ascii_boundary(bytes@, p.scheme_end + 2);
                    if p.path_start < bytes.len() {
                        lemma_ascii_boundary(bytes@, p.path_start as int);
                    }
                    if p.host_end < p.path_start {
                        lemma_ascii_boundary(bytes@, p.host_end as int);
                    }
                }
                (
                    str_slice(s, 0, p.scheme_end),
                    str_slice(s, p.host_start, p.host_end),
                    p.port,
                    str_slice(s, p.path_start, bytes.len()),
                )
            },
        }
    }

    /// Whether the connection has to close after this exchange.
    pub fn must_close(&self) -> (close: bool)
        ensures
            close == closes(self.version, lookup(self.headers@, "Connection"@)),
    {
        let connection = self.headers.get("Connection");
        if self.version == 0 {
            match connection {
                Some(value) => !bytes_eq(value.as_slice(), "Keep-Alive".as_bytes()),
                None => true,
            }
        } else if self.version == 1 {
            match connection {
                Some(value) => bytes_eq(value.as_slice(), "Close".as_bytes()),
                None => false,
            }
        } else {
            true
        }
    }

    /// Makes a request of its head and the bytes that follow the head.
    pub fn from_head(head: RequestHead, rest: &[u8]) -> (status: ParseStatus<Request>)
        ensures
            match request_of(head@, rest@) {
                ParseStatus::Complete(message) => status matches ParseStatus::Complete(r)
                    && r@ == message,
                ParseStatus::InProgress => status is InProgress,
                ParseStatus::Error(kind) => status == ParseStatus::<Request>::Error(kind),
            },
    {
        let framing = if str_eq(head.method.as_str(), "GET") {
            ParseStatus::Complete(None)
        } else {
            parse_body(head.headers.as_slice(), rest)
        };
        match framing {
            ParseStatus::Complete(body) => {
                let headers = Headers::from_list(head.headers.as_slice());
                ParseStatus::Complete(
                    Request {
                        method: head.method,
                        path: head.path,
                        version: head.version,
                        headers,
                        body,
                    },
                )
            },
            ParseStatus::InProgress => ParseStatus::InProgress,
            ParseStatus::Error(kind) => ParseStatus::Error(kind),
        }
    }
}

impl Parsable for Request {
    open spec fn parsed(buf: Seq<u8>) -> ParseStatus<(RequestView, usize)> {
        match request_head_of(buf) {
            ParseStatus::Complete(head) => match request_of(head, buf.skip(head.len as int)) {
                ParseStatus::Complete(message) => ParseStatus::Complete((message, head.len)),
                ParseStatus::InProgress => ParseStatus::InProgress,
                ParseStatus::Error(kind) => ParseStatus::Error(kind),
            },
            ParseStatus::InProgress => ParseStatus::InProgress,
            ParseStatus::Error(kind) => ParseStatus::Error(kind),
        }
    }

    /// A request with empty texts, version 1, no header and no body.
    open spec fn blank() -> RequestView {
        RequestView {
            method: Seq::empty(),
            path: Seq::empty(),
            version: 1,
            headers: Seq::empty(),
            body: None,
        }
    }

    fn new() -> (r: Request) {
        Request {
            method: String::new(),
            path: String::new(),
            version: 1,
            headers: Headers::new(),
            body: None,
        }
    }

    fn parse(&mut self, buf: &[u8]) -> (status: ParseStatus<usize>) {
        match request_head(buf) {
            ParseStatus::Complete(head) => {
                let len = head.len;
                let rest = vstd::slice::slice_subrange(buf, len, buf.len());
                assert(rest@ =~= buf@.skip(len as int));
                match Request::from_head(head, rest) {
                    ParseStatus::Complete(message) => {
                        *self = message;
                        ParseStatus::Complete(len)
                    },
                    ParseStatus::InProgress => ParseStatus::InProgress,
                    ParseStatus::Error(kind) => ParseStatus::Error(kind),
                }
            },
            ParseStatus::InProgress => ParseStatus::InProgress,
            ParseStatus::Error(kind) => ParseStatus::Error(kind),
        }
    }
}

impl Sendable for Request {
    open spec fn wire(&self) -> Seq<u8> {
        request_wire(self@)
    }

    fn to_bytes(&self) -> (bytes: Vec<u8>) {
        let target = self.path.as_str().as_bytes();
        let mut out: Vec<u8> = Vec::new();
        out.extend_from_slice(self.method.as_str().as_bytes());
        out.extend_from_slice(" ".as_bytes());
        match locate(target) {
            Some(p) => {
                proof {
                    lemma_places_ordered(target@);
                }
                out.extend_from_slice(
                    vstd::slice::slice_subrange(target, p.path_start, target.len()),
                );
            },
            None => {
                out.extend_from_slice(target);
            },
        }
        out.extend_from_slice(" HTTP/1.".as_bytes());
        push_decimal(&mut out, self.version as u64);
        out.extend_from_slice("\r\n".as_bytes());
        self.headers.forwarded().write_lines(&mut out);
        out.extend_from_slice("\r\n".as_bytes());
        match &self.body {
            Some(body) => {
                out.extend_from_slice(body.as_slice());
            },
            None => {},
        }
        assert(out@ =~= request_wire(self@));
        out
    }
}

} // verus!
