//! The head of a message: the request or status line and the header lines,
//! as the `httparse` crate reads them from the front of a buffer.

use vstd::prelude::*;
use crate::headers::{Header, Pairs, pairs_of};
use crate::parsable::{ParseErrorKind, ParseStatus};

verus! {

/// The error of the `httparse` crate, `httparse::Error`: an enum of seven
/// variants without fields. It is declared with its variants, which are
/// read from the crate itself, so nothing is assumed of it.
#[verifier::external_type_specification]
pub struct ExHttparseError(httparse::Error);

/// The head of a request.
#[derive(Debug, PartialEq, Eq)]
pub struct RequestHead {
    /// The number of bytes that the head takes.
    pub len: usize,
    pub method: String,
    pub path: String,
    pub version: u8,
    /// The header lines, in the order of the wire.
    pub headers: Vec<Header>,
}

/// The head of a request as plain values.
pub struct RequestHeadView {
    pub len: usize,
    pub method: Seq<char>,
    pub path: Seq<char>,
    pub version: u8,
    pub headers: Pairs,
}

impl View for RequestHead {
    type V = RequestHeadView;

    open spec fn view(&self) -> RequestHeadView {
        RequestHeadView {
            len: self.len,
            method: self.method@,
            path: self.path@,
            version: self.version,
            headers: pairs_of(self.headers@),
        }
    }
}

/// The head of a response.
#[derive(Debug, PartialEq, Eq)]
pub struct ResponseHead {
    /// The number of bytes that the head takes.
    pub len: usize,
    pub version: u8,
    pub code: u16,
    pub reason: String,
    /// The header lines, in the order of the wire.
    pub headers: Vec<Header>,
}

/// The head of a response as plain values.
pub struct ResponseHeadView {
    pub len: usize,
    pub version: u8,
    pub code: u16,
    pub reason: Seq<char>,
    pub headers: Pairs,
}

impl View for ResponseHead {
    type V = ResponseHeadView;

    open spec fn view(&self) -> ResponseHeadView {
        ResponseHeadView {
            len: self.len,
            version: self.version,
            code: self.code,
            reason: self.reason@,
            headers: pairs_of(self.headers@),
        }
    }
}

/// The kind of an error of `httparse`.
pub open spec fn kind_of(e: httparse::Error) -> ParseErrorKind {
    match e {
        httparse::Error::HeaderName => ParseErrorKind::HeaderName,
        httparse::Error::HeaderValue => ParseErrorKind::HeaderValue,
        httparse::Error::NewLine => ParseErrorKind::NewLine,
        httparse::Error::Status => ParseErrorKind::Status,
        httparse::Error::Token => ParseErrorKind::Token,
        httparse::Error::TooManyHeaders => ParseErrorKind::TooManyHeaders,
        httparse::Error::Version => ParseErrorKind::Version,
    }
}

/// What `httparse` makes of the bytes at the front of a request: its head,
/// the need for more bytes, or an error.
pub uninterp spec fn request_head_of(buf: Seq<u8>) -> ParseStatus<RequestHeadView>;

/// What `httparse` makes of the bytes at the front of a response: its head,
/// the need for more bytes, or an error.
pub uninterp spec fn response_head_of(buf: Seq<u8>) -> ParseStatus<ResponseHeadView>;

/// The answer of `httparse` to a request as a status over plain values.
pub open spec fn request_outcome(
    r: Result<Option<RequestHead>, httparse::Error>,
) -> ParseStatus<RequestHeadView> {
    match r {
        Ok(Some(head)) => ParseStatus::Complete(head@),
        Ok(None) => ParseStatus::InProgress,
        Err(e) => ParseStatus::Error(kind_of(e)),
    }
}

/// The answer of `httparse` to a response as a status over plain values.
pub open spec fn response_outcome(
    r: Result<Option<ResponseHead>, httparse::Error>,
) -> ParseStatus<ResponseHeadView> {
    match r {
        Ok(Some(head)) => ParseStatus::Complete(head@),
        Ok(None) => ParseStatus::InProgress,
        Err(e) => ParseStatus::Error(kind_of(e)),
    }
}

/// Calls `httparse::Request::parse` on `buf`, with room for 100 headers, and
/// hands back a head that was read whole as a `RequestHead`. Not proved:
/// that the answer depends on the bytes alone, and that the length of a
/// head that was read whole is an offset into `buf`, the place where the
/// body starts.
#[verifier::external_body]
fn httparse_request(buf: &[u8]) -> (r: Result<Option<RequestHead>, httparse::Error>)
    ensures
        request_outcome(r) == request_head_of(buf@),
        r matches Ok(Some(head)) ==> head.len <= buf.len(),
{
    let mut slots = [httparse::EMPTY_HEADER; 100];
    let mut req = httparse::Request::new(&mut slots);
    match req.parse(buf)? {
        httparse::Status::Partial => Ok(None),
        httparse::Status::Complete(len) => Ok(Some(RequestHead {
            len,
            method: String::from(req.method.unwrap_or_default()),
            path: String::from(req.path.unwrap_or_default()),
            version: req.version.unwrap_or_default(),
            headers: req.headers.iter().map(|h| Header::new(h.name, h.value)).collect(),
        })),
    }
}

/// Calls `httparse::Response::parse` on `buf`, with room for 100 headers,
/// and hands back a head that was read whole as a `ResponseHead`. Not
/// proved: that the answer depends on the bytes alone, and that the length
/// of a head that was read whole is an offset into `buf`, the place where
/// the body starts.
#[verifier::external_body]
fn httparse_response(buf: &[u8]) -> (r: Result<Option<ResponseHead>, httparse::Error>)
    ensures
        response_outcome(r) == response_head_of(buf@),
        r matches Ok(Some(head)) ==> head.len <= buf.len(),
{
    let mut slots = [httparse::EMPTY_HEADER; 100];
    let mut res = httparse::Response::new(&mut slots);
    match res.parse(buf)? {
        httparse::Status::Partial => Ok(None),
        httparse::Status::Complete(len) => Ok(Some(ResponseHead {
            len,
            version: res.version.unwrap_or_default(),
            code: res.code.unwrap_or_default(),
            reason: String::from(res.reason.unwrap_or_default()),
            headers: res.headers.iter().map(|h| Header::new(h.name, h.value)).collect(),
        })),
    }
}

/// The kind of an error of `httparse`.
fn error_kind(e: httparse::Error) -> (kind: ParseErrorKind)
    ensures
        kind == kind_of(e),
{
    match e {
        httparse::Error::HeaderName => ParseErrorKind::HeaderName,
        httparse::Error::HeaderValue => ParseErrorKind::HeaderValue,
        httparse::Error::NewLine => ParseErrorKind::NewLine,
        httparse::Error::Status => ParseErrorKind::Status,
        httparse::Error::Token => ParseErrorKind::Token,
        httparse::Error::TooManyHeaders => ParseErrorKind::TooManyHeaders,
        httparse::Error::Version => ParseErrorKind::Version,
    }
}

/// Reads the head of a request from the front of `buf`.
pub fn request_head(buf: &[u8]) -> (status: ParseStatus<RequestHead>)
    ensures
        match request_head_of(buf@) {
            ParseStatus::Complete(head) => status matches ParseStatus::Complete(h) && h@ == head
                && head.len <= buf.len(),
            ParseStatus::InProgress => status is InProgress,
            ParseStatus::Error(kind) => status == ParseStatus::<RequestHead>::Error(kind),
        },
{
    match httparse_request(buf) {
        Ok(Some(head)) => ParseStatus::Complete(head),
        Ok(None) => ParseStatus::InProgress,
        Err(e) => ParseStatus::Error(error_kind(e)),
    }
}

/// Reads the head of a response from the front of `buf`.
pub fn response_head(buf: &[u8]) -> (status: ParseStatus<ResponseHead>)
    ensures
        match response_head_of(buf@) {
            ParseStatus::Complete(head) => status matches ParseStatus::Complete(h) && h@ == head
                && head.len <= buf.len(),
            ParseStatus::InProgress => status is InProgress,
            ParseStatus::Error(kind) => status == ParseStatus::<ResponseHead>::Error(kind),
        },
{
    match httparse_response(buf) {
        Ok(Some(head)) => ParseStatus::Complete(head),
        Ok(None) => ParseStatus::InProgress,
        Err(e) => ParseStatus::Error(error_kind(e)),
    }
}

} // verus!
