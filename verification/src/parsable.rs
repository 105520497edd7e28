//! What every wire message answers to: an incremental parse with three
//! outcomes, a serialisation, and the rules that say where a body ends.

use vstd::prelude::*;
use vstd::string::*;
use vstd::slice::slice_subrange;
use vstd::slice::slice_to_vec;
use crate::headers::{Header, Pairs, lemma_position_is, lookup, pairs_of};
use crate::text::{CR, LF, ZERO, all_digits, bounded_numeral, bytes_eq, is_digit, numeral_value};
use crate::text::{lemma_long_numeral_overflows, lemma_numeral_nonnegative, parse_numeral, str_eq};

verus! {

/// Why buffered bytes cannot begin a message.
#[derive(Clone, Copy, Debug, PartialEq, Eq, Structural)]
pub enum ParseErrorKind {
    /// A byte that no header name may hold.
    HeaderName,
    /// A byte that no header value may hold.
    HeaderValue,
    /// A line that does not end as a line must.
    NewLine,
    /// A status code that is none.
    Status,
    /// A byte where a token has to stand.
    Token,
    /// More headers than a head may carry.
    TooManyHeaders,
    /// A version other than HTTP/1.0 and HTTP/1.1.
    Version,
    /// A `Content-Length` that is no decimal number of 64 bits.
    ContentLength,
}

/// The outcome of one attempt to parse the bytes buffered so far.
#[derive(Debug, PartialEq, Eq)]
pub enum ParseStatus<T> {
    /// The bytes hold a whole message.
    Complete(T),
    /// The bytes begin a message, and more are needed.
    InProgress,
    /// The bytes begin no message.
    Error(ParseErrorKind),
}

impl<T> ParseStatus<T> {
    /// Whether the parse has finished with a message.
    pub fn is_complete(&self) -> (b: bool)
        ensures
            b == (self is Complete),
    {
        match *self {
            ParseStatus::Complete(_) => true,
            _ => false,
        }
    }
}

/// A message that can be parsed from a growing buffer. Each call parses
/// the buffer from its first byte.
pub trait Parsable: Sized + View {
    /// What the bytes hold: a message and the length of its head, the need
    /// for more bytes, or an error.
    spec fn parsed(buf: Seq<u8>) -> ParseStatus<(Self::V, usize)>;

    /// The message that nothing has been parsed into yet.
    spec fn blank() -> Self::V;

    /// An empty message, to parse into.
    fn new() -> (message: Self)
        ensures
            message@ == Self::blank(),
    ;

    /// Parses `buf`. On a whole message `self` becomes that message and the
    /// length of its head is returned; otherwise `self` stays as it was.
    fn parse(&mut self, buf: &[u8]) -> (status: ParseStatus<usize>)
        ensures
            match Self::parsed(buf@) {
                ParseStatus::Complete((message, head)) => status == ParseStatus::Complete(head)
                    && final(self)@ == message,
                ParseStatus::InProgress => status is InProgress && final(self)@ == old(self)@,
                ParseStatus::Error(kind) => status == ParseStatus::<usize>::Error(kind)
                    && final(self)@ == old(self)@,
            },
    ;
}

/// A message that can be written to the wire.
pub trait Sendable {
    /// The bytes of the message on the wire.
    spec fn wire(&self) -> Seq<u8>;

    /// Serialises the message.
    fn to_bytes(&self) -> (bytes: Vec<u8>)
        ensures
            bytes@ == self.wire(),
    ;
}

/// The end of the run of hexadecimal digits that begins at `pos`.
pub open spec fn digits_end(buf: Seq<u8>, pos: int) -> int
    decreases buf.len() - pos,
{
    if 0 <= pos < buf.len() && is_digit(buf[pos], 16) {
        digits_end(buf, pos + 1)
    } else {
        pos
    }
}

/// Whether a chunk of `size` bytes that begins at `start` lies in `buf`
/// whole, with the line end that closes it.
pub open spec fn chunk_closed(buf: Seq<u8>, start: int, size: int) -> bool {
    &&& 0 <= size
    &&& start + size + 1 < buf.len()
    &&& buf[start + size] == CR
    &&& buf[start + size + 1] == LF
}

/// Whether a chunk stream whose next size line begins at `pos` reaches its
/// end within `buf`. The end is the digit `0` at the head of a size line, so
/// no size is written with a leading zero. A size line is a run of digits
/// and a line end; its digits count the bytes of the chunk, and a line end
/// closes the chunk. The digits are read as a hexadecimal or, where all are
/// decimal digits, as a decimal number, and the stream ends if it does so
/// under either reading.
pub open spec fn stream_ends_at(buf: Seq<u8>, pos: int) -> bool
    decreases buf.len() - pos,
{
    if pos < 0 || pos >= buf.len() {
        false
    } else if buf[pos] == ZERO {
        true
    } else {
        let e = digits_end(buf, pos);
        let digits = buf.subrange(pos, e);
        let hex = numeral_value(digits, 16);
        let dec = numeral_value(digits, 10);
        &&& pos < e
        &&& e + 1 < buf.len()
        &&& buf[e] == CR
        &&& buf[e + 1] == LF
        &&& {
            ||| chunk_closed(buf, e + 2, hex) && stream_ends_at(buf, e + 2 + hex + 2)
            ||| all_digits(digits, 10) && chunk_closed(buf, e + 2, dec) && stream_ends_at(
                buf,
                e + 2 + dec + 2,
            )
        }
    }
}

/// Whether the bytes hold a chunk stream up to its end.
pub open spec fn chunk_stream_ends(buf: Seq<u8>) -> bool {
    stream_ends_at(buf, 0)
}

/// Where a body ends, by the headers of its message and the bytes behind
/// the head: by `Content-Length` where that is present, else as a chunk
/// stream where `Transfer-Encoding` is `chunked`, else at once, with no body.
pub open spec fn body_status(headers: Pairs, rest: Seq<u8>) -> ParseStatus<Option<Seq<u8>>> {
    match lookup(headers, "Content-Length"@) {
        Some(length) => match bounded_numeral(length, 10) {
            Some(n) => if n <= rest.len() {
                ParseStatus::Complete(Some(rest.take(n as int)))
            } else {
                ParseStatus::InProgress
            },
            None => ParseStatus::Error(ParseErrorKind::ContentLength),
        },
        None => if lookup(headers, "Transfer-Encoding"@) == Some("chunked".spec_bytes()) {
            if chunk_stream_ends(rest) {
                ParseStatus::Complete(Some(rest))
            } else {
                ParseStatus::InProgress
            }
        } else {
            ParseStatus::Complete(None)
        },
    }
}

/// Framing by length is exact. Where the headers declare the length of a
/// body, the bytes of that body are a whole body and are the body that is
/// found; any shorter part of them, cut at whatever place, is in progress.
pub proof fn lemma_length_framing(headers: Pairs, body: Seq<u8>)
    requires
        lookup(headers, "Content-Length"@) matches Some(length) && bounded_numeral(length, 10)
            matches Some(n) && n == body.len(),
    ensures
        body_status(headers, body) == ParseStatus::Complete(Some(body)),
        forall|cut: int|
            0 <= cut < body.len() ==> #[trigger] body_status(headers, body.take(cut))
                == ParseStatus::<Option<Seq<u8>>>::InProgress,
{
    assert(body.take(body.len() as int) =~= body);
}

/// A run of digits that ends within a buffer ends at the same place when
/// more bytes have arrived.
pub proof fn lemma_digits_end_stable(buf: Seq<u8>, more: Seq<u8>, pos: int)
    requires
        0 <= pos,
        digits_end(buf, pos) < buf.len(),
    ensures
        digits_end(buf + more, pos) == digits_end(buf, pos),
    decreases buf.len() - pos,
{
    if pos < buf.len() && is_digit(buf[pos], 16) {
        lemma_digits_end_stable(buf, more, pos + 1);
    }
}

/// A run of digits does not end before it begins.
pub proof fn lemma_digits_end_bounds(buf: Seq<u8>, pos: int)
    requires
        0 <= pos <= buf.len(),
    ensures
        pos <= digits_end(buf, pos) <= buf.len(),
    decreases buf.len() - pos,
{
    if pos < buf.len() && is_digit(buf[pos], 16) {
        lemma_digits_end_bounds(buf, pos + 1);
    }
}

/// A chunk stream that has reached its end has reached it for good: it
/// still ends when more bytes have arrived.
pub proof fn lemma_stream_end_stable(buf: Seq<u8>, more: Seq<u8>, pos: int)
    requires
        stream_ends_at(buf, pos),
    ensures
        stream_ends_at(buf + more, pos),
    decreases buf.len() - pos,
{
    let longer = buf + more;
    assert(longer[pos] == buf[pos]);
    if buf[pos] != ZERO {
        let e = digits_end(buf, pos);
        lemma_digits_end_bounds(buf, pos);
        lemma_digits_end_stable(buf, more, pos);
        let digits = buf.subrange(pos, e);
        assert(longer.subrange(pos, e) =~= digits);
        assert(longer[e] == buf[e] && longer[e + 1] == buf[e + 1]);
        let hex = numeral_value(digits, 16);
        let dec = numeral_value(digits, 10);
        if chunk_closed(buf, e + 2, hex) && stream_ends_at(buf, e + 2 + hex + 2) {
            assert(longer[e + 2 + hex] == buf[e + 2 + hex]);
            assert(longer[e + 2 + hex + 1] == buf[e + 2 + hex + 1]);
            lemma_stream_end_stable(buf, more, e + 2 + hex + 2);
        } else {
            assert(longer[e + 2 + dec] == buf[e + 2 + dec]);
            assert(longer[e + 2 + dec + 1] == buf[e + 2 + dec + 1]);
            lemma_stream_end_stable(buf, more, e + 2 + dec + 2);
        }
    }
}

/// A body that was found whole is found whole when more bytes have arrived:
/// the same body where its length was declared, and every byte that has
/// come where it is a chunk stream.
pub proof fn lemma_complete_stays_complete(headers: Pairs, rest: Seq<u8>, more: Seq<u8>)
    requires
        body_status(headers, rest) is Complete,
    ensures
        body_status(headers, rest + more) is Complete,
        lookup(headers, "Content-Length"@) is Some ==> body_status(headers, rest + more)
            == body_status(headers, rest),
{
    match lookup(headers, "Content-Length"@) {
        Some(length) => {
            let n = bounded_numeral(length, 10)->0;
            assert((rest + more).take(n as int) =~= rest.take(n as int));
        },
        None => {
            if lookup(headers, "Transfer-Encoding"@) == Some("chunked".spec_bytes()) {
                lemma_stream_end_stable(rest, more, 0);
            }
        },
    }
}

/// Whether the result of a body parse is what `expected` says, value by value.
pub open spec fn body_matches(
    status: ParseStatus<Option<Vec<u8>>>,
    expected: ParseStatus<Option<Seq<u8>>>,
) -> bool {
    match (status, expected) {
        (ParseStatus::Complete(Some(body)), ParseStatus::Complete(Some(bytes))) => body@ == bytes,
        (ParseStatus::Complete(None), ParseStatus::Complete(None)) => true,
        (ParseStatus::InProgress, ParseStatus::InProgress) => true,
        (ParseStatus::Error(kind), ParseStatus::Error(wanted)) => kind == wanted,
        _ => false,
    }
}

/// The most digits that a size can have: a longer run of digits denotes no
/// number of 64 bits, and so no size that a buffer can hold.
pub const MAX_DIGITS: usize = 20;

/// Every byte of a run of digits is a digit.
pub proof fn lemma_digits_run(buf: Seq<u8>, pos: int)
    requires
        0 <= pos <= buf.len(),
    ensures
        all_digits(buf.subrange(pos, digits_end(buf, pos)), 16),
    decreases buf.len() - pos,
{
    lemma_digits_end_bounds(buf, pos);
    if pos < buf.len() && is_digit(buf[pos], 16) {
        lemma_digits_run(buf, pos + 1);
        lemma_digits_end_bounds(buf, pos + 1);
        let e = digits_end(buf, pos);
        let run = buf.subrange(pos, e);
        let rest = buf.subrange(pos + 1, e);
        assert forall|i: int| 0 <= i < run.len() implies is_digit(#[trigger] run[i], 16) by {
            if i > 0 {
                assert(run[i] == rest[i - 1]);
            }
        }
    }
}

/// No chunk stream ends from a size line of more than `MAX_DIGITS` digits.
pub proof fn lemma_long_size_ends_nothing(buf: Seq<u8>, pos: int)
    requires
        0 <= pos < buf.len(),
        buf.len() <= u64::MAX,
        buf[pos] != ZERO,
        digits_end(buf, pos) - pos > MAX_DIGITS,
    ensures
        !stream_ends_at(buf, pos),
{
    let e = digits_end(buf, pos);
    let digits = buf.subrange(pos, e);
    lemma_digits_end_bounds(buf, pos);
    lemma_digits_run(buf, pos);
    assert(digits[0] == buf[pos]);
    lemma_long_numeral_overflows(digits, 16);
    if all_digits(digits, 10) {
        lemma_long_numeral_overflows(digits, 10);
    }
}

/// The end of the run of hexadecimal digits that begins at `pos`, or the
/// place behind the first `MAX_DIGITS` + 1 of them where the run is longer.
fn scan_digits(buf: &[u8], pos: usize) -> (e: usize)
    requires
        pos <= buf.len(),
    ensures
        pos <= e <= buf.len(),
        e - pos <= MAX_DIGITS + 1,
        e <= digits_end(buf@, pos as int),
        e - pos <= MAX_DIGITS ==> e == digits_end(buf@, pos as int),
        all_digits(buf@.subrange(pos as int, e as int), 16),
{
    let mut e = pos;
    while e < buf.len() && e - pos <= MAX_DIGITS && is_hex_digit(buf[e])
        invariant
            pos <= e <= buf.len(),
            e - pos <= MAX_DIGITS + 1,
            digits_end(buf@, pos as int) == digits_end(buf@, e as int),
            forall|j: int| pos <= j < e ==> is_digit(#[trigger] buf@[j], 16),
        decreases buf.len() - e,
    {
        e += 1;
    }
    proof {
        lemma_digits_end_bounds(buf@, e as int);
    }
    e
}

/// Whether a byte is a hexadecimal digit.
fn is_hex_digit(b: u8) -> (r: bool)
    ensures
        r == is_digit(b, 16),
{
    (48 <= b && b <= 57) || (97 <= b && b <= 102) || (65 <= b && b <= 70)
}

/// Whether the chunk of a size that was read (`None` for one beyond 64
/// bits) is closed within `buf` and the stream ends behind it, by the
/// answers already known for every later place.
fn reading_ends(buf: &[u8], start: usize, size: Option<u64>, known: &Vec<bool>) -> (r: bool)
    requires
        start <= buf.len(),
        known.len() == buf.len(),
        forall|q: int| start <= q < buf.len() ==> known@[q] == stream_ends_at(buf@, q),
    ensures
        r == match size {
            Some(n) => chunk_closed(buf@, start as int, n as int) && stream_ends_at(
                buf@,
                start + n + 2,
            ),
            None => false,
        },
{
    match size {
        None => false,
        Some(n) => {
            let room = buf.len() - start;
            if room >= 2 && n <= (room - 2) as u64 {
                let after = start + n as usize;
                buf[after] == CR && buf[after + 1] == LF && after + 2 < buf.len() && known[after
                    + 2]
            } else {
                false
            }
        },
    }
}

/// Whether a chunk stream whose next size line begins at `pos` ends within
/// `buf`, by the answers already known for every later place.
fn ends_from(buf: &[u8], pos: usize, known: &Vec<bool>) -> (r: bool)
    requires
        pos < buf.len(),
        known.len() == buf.len(),
        forall|q: int| pos < q < buf.len() ==> known@[q] == stream_ends_at(buf@, q),
    ensures
        r == stream_ends_at(buf@, pos as int),
{
    if buf[pos] == ZERO {
        return true;
    }
    let e = scan_digits(buf, pos);
    if e - pos > MAX_DIGITS {
        proof {
            lemma_long_size_ends_nothing(buf@, pos as int);
        }
        return false;
    }
    if e == pos || buf.len() - e < 2 || buf[e] != CR || buf[e + 1] != LF {
        return false;
    }
    let digits = slice_subrange(buf, pos, e);
    let hex = parse_numeral(digits, 16);
    let dec = parse_numeral(digits, 10);
    proof {
        lemma_numeral_nonnegative(digits@, 16);
        if all_digits(digits@, 10) {
            lemma_numeral_nonnegative(digits@, 10);
        }
    }
    reading_ends(buf, e + 2, hex, known) || reading_ends(buf, e + 2, dec, known)
}

/// Reads `buf` as a chunk stream: complete, with all its bytes as they
/// came, once the stream reaches its end, and in progress until then.
pub fn parse_chunked(buf: &[u8]) -> (status: ParseStatus<Option<Vec<u8>>>)
    ensures
        body_matches(
            status,
            if chunk_stream_ends(buf@) {
                ParseStatus::Complete(Some(buf@))
            } else {
                ParseStatus::InProgress
            },
        ),
{
    let n = buf.len();
    let mut known: Vec<bool> = Vec::new();
    while known.len() < n
        invariant
            known.len() <= n,
        decreases n - known.len(),
    {
        known.push(false);
    }
    let mut pos = n;
    while pos > 0
        invariant
            0 <= pos <= n,
            n == buf.len(),
            known.len() == n,
            forall|q: int| pos <= q < n ==> known@[q] == stream_ends_at(buf@, q),
        decreases pos,
    {
        pos -= 1;
        let r = ends_from(buf, pos, &known);
        known.set(pos, r);
    }
    if n > 0 && known[0] {
        ParseStatus::Complete(Some(slice_to_vec(buf)))
    } else {
        ParseStatus::InProgress
    }
}

/// The value of the first header of a name in a list.
fn first_value<'a>(headers: &'a [Header], name: &str) -> (v: Option<&'a Vec<u8>>)
    ensures
        match v {
            Some(value) => lookup(pairs_of(headers@), name@) == Some(value@),
            None => lookup(pairs_of(headers@), name@) is None,
        },
{
    let mut i: usize = 0;
    while i < headers.len()
        invariant
            0 <= i <= headers.len(),
            forall|j: int| 0 <= j < i ==> (#[trigger] pairs_of(headers@)[j]).0 != name@,
        decreases headers.len() - i,
    {
        if str_eq(headers[i].name.as_str(), name) {
            proof {
                lemma_position_is(pairs_of(headers@), name@, i as int);
            }
            return Some(&headers[i].value);
        }
        i += 1;
    }
    proof {
        lemma_position_is(pairs_of(headers@), name@, i as int);
    }
    None
}

/// Finds the body of a message among the bytes that follow its head.
pub fn parse_body(headers: &[Header], buf: &[u8]) -> (status: ParseStatus<Option<Vec<u8>>>)
    ensures
        body_matches(status, body_status(pairs_of(headers@), buf@)),
{
    match first_value(headers, "Content-Length") {
        Some(length) => match parse_numeral(length.as_slice(), 10) {
            Some(n) => {
                if n <= buf.len() as u64 {
                    ParseStatus::Complete(Some(slice_to_vec(slice_subrange(buf, 0, n as usize))))
                } else {
                    ParseStatus::InProgress
                }
            },
            None => ParseStatus::Error(ParseErrorKind::ContentLength),
        },
        None => {
            let chunked = match first_value(headers, "Transfer-Encoding") {
                Some(coding) => bytes_eq(coding.as_slice(), "chunked".as_bytes()),
                None => false,
            };
            if chunked {
                parse_chunked(buf)
            } else {
                ParseStatus::Complete(None)
            }
        },
    }
}

} // verus!
