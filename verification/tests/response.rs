use rainyproxy::head::ResponseHead;
use rainyproxy::{Header, Parsable, ParseErrorKind, ParseStatus, Response, Sendable};

#[test]
fn new_response_holds_its_status() {
    let res = Response::new(0, 404, "Not Found");
    assert_eq!(res.version, 0);
    assert_eq!(res.status_code, 404);
    assert_eq!(res.reason, "Not Found");
    assert_eq!(res.headers.len(), 0);
    assert_eq!(res.body, None);
}

#[test]
fn blank_response() {
    let res = <Response as Parsable>::new();
    assert_eq!(res.version, 1);
    assert_eq!(res.status_code, 200);
    assert_eq!(res.reason, "");
    assert_eq!(res.headers.len(), 0);
    assert_eq!(res.body, None);
}

#[test]
fn parse_response_with_body() {
    let mut res = <Response as Parsable>::new();
    let buf = b"HTTP/1.1 200 OK\r\nContent-Length: 2\r\n\r\nok";
    assert_eq!(res.parse(buf), ParseStatus::Complete(buf.len() - 2));
    assert_eq!(res.version, 1);
    assert_eq!(res.status_code, 200);
    assert_eq!(res.reason, "OK");
    assert_eq!(res.headers.get("Content-Length"), Some(&b"2".to_vec()));
    assert_eq!(res.body, Some(b"ok".to_vec()));
}

#[test]
fn parse_response_split_at_every_place() {
    let buf = b"HTTP/1.0 201 Created\r\nContent-Length: 5\r\nServer: x\r\n\r\nhello";
    let mut whole = <Response as Parsable>::new();
    assert_eq!(whole.parse(buf), ParseStatus::Complete(buf.len() - 5));
    assert_eq!(whole.body.as_ref().map(|b| b.len()), Some(5));
    for cut in 0..buf.len() {
        let mut res = <Response as Parsable>::new();
        assert_eq!(res.parse(&buf[..cut]), ParseStatus::InProgress);
        assert_eq!(res, <Response as Parsable>::new());
        assert_eq!(res.parse(buf), ParseStatus::Complete(buf.len() - 5));
        assert_eq!(res, whole);
    }
}

#[test]
fn parse_response_without_framing_has_no_body() {
    let mut res = <Response as Parsable>::new();
    let buf = b"HTTP/1.1 204 No Content\r\n\r\n";
    assert_eq!(res.parse(buf), ParseStatus::Complete(buf.len()));
    assert_eq!(res.status_code, 204);
    assert_eq!(res.body, None);
}

#[test]
fn parse_response_without_reason() {
    let mut res = <Response as Parsable>::new();
    let buf = b"HTTP/1.1 200\r\n\r\n";
    assert_eq!(res.parse(buf), ParseStatus::Complete(buf.len()));
    assert_eq!(res.reason, "");
}

#[test]
fn parse_response_chunked() {
    let mut res = <Response as Parsable>::new();
    let head = b"HTTP/1.1 200 OK\r\nTransfer-Encoding: chunked\r\n\r\n";
    let mut buf = head.to_vec();
    buf.extend_from_slice(b"10\r\n0123456789abcdef\r\n");
    assert_eq!(res.parse(&buf), ParseStatus::InProgress);
    buf.extend_from_slice(b"0");
    assert_eq!(res.parse(&buf), ParseStatus::Complete(head.len()));
    assert_eq!(res.body, Some(b"10\r\n0123456789abcdef\r\n0".to_vec()));
}

#[test]
fn parse_response_errors() {
    let mut res = <Response as Parsable>::new();
    assert_eq!(res.parse(b"HTTP/1.1 2x0 OK\r\n\r\n"), ParseStatus::Error(ParseErrorKind::Status));
    assert_eq!(res.parse(b"HTTP/3.0 200 OK\r\n\r\n"), ParseStatus::Error(ParseErrorKind::Version));
    assert_eq!(
        res.parse(b"HTTP/1.1 200 OK\r\nContent-Length: 1x\r\n\r\nab"),
        ParseStatus::Error(ParseErrorKind::ContentLength)
    );
    assert_eq!(res, <Response as Parsable>::new());
}

#[test]
fn response_to_bytes_adds_connection_close() {
    let mut res = <Response as Parsable>::new();
    let buf = b"HTTP/1.1 200 OK\r\nContent-Length: 2\r\n\r\nok";
    assert_eq!(res.parse(buf), ParseStatus::Complete(buf.len() - 2));
    assert_eq!(
        res.to_bytes(),
        b"HTTP/1.1 200 OK\r\nContent-Length: 2\r\nConnection: Close\r\n\r\nok".to_vec()
    );
}

#[test]
fn response_to_bytes_overrides_connection_and_drops_keep_alive() {
    let mut res = Response::new(0, 301, "Moved Permanently");
    res.headers.insert(String::from("Keep-Alive"), b"timeout=5".to_vec());
    res.headers.insert(String::from("Connection"), b"Keep-Alive".to_vec());
    res.headers.insert(String::from("Location"), b"http://x/".to_vec());
    assert_eq!(
        res.to_bytes(),
        b"HTTP/1.0 301 Moved Permanently\r\nConnection: Close\r\nLocation: http://x/\r\n\r\n".to_vec()
    );
}

#[test]
fn response_to_bytes_writes_numbers_in_decimal() {
    let res = Response::new(255, 65535, "");
    assert_eq!(res.to_bytes(), b"HTTP/1.255 65535 \r\nConnection: Close\r\n\r\n".to_vec());
    let zero = Response::new(0, 0, "Z");
    assert_eq!(zero.to_bytes(), b"HTTP/1.0 0 Z\r\nConnection: Close\r\n\r\n".to_vec());
}

#[test]
fn response_to_bytes_keeps_values_that_are_no_text() {
    let mut res = Response::new(1, 200, "OK");
    res.headers.insert(String::from("X-Raw"), vec![0xff, 0x00, 0x80]);
    res.body = Some(vec![0xfe, 0xff]);
    let mut expected = b"HTTP/1.1 200 OK\r\nX-Raw: ".to_vec();
    expected.extend_from_slice(&[0xff, 0x00, 0x80]);
    expected.extend_from_slice(b"\r\nConnection: Close\r\n\r\n");
    expected.extend_from_slice(&[0xfe, 0xff]);
    assert_eq!(res.to_bytes(), expected);
}

#[test]
fn response_round_trip() {
    let mut first = <Response as Parsable>::new();
    let buf = b"HTTP/1.1 404 Not Found\r\nKeep-Alive: max=3\r\nContent-Length: 4\r\nConnection: Keep-Alive\r\n\r\ngone";
    assert_eq!(first.parse(buf), ParseStatus::Complete(buf.len() - 4));
    let sent = first.to_bytes();
    let mut second = <Response as Parsable>::new();
    assert_eq!(second.parse(&sent), ParseStatus::Complete(sent.len() - 4));
    assert_eq!(second.version, first.version);
    assert_eq!(second.status_code, first.status_code);
    assert_eq!(second.reason, first.reason);
    assert_eq!(second.body, first.body);
    assert_eq!(second.headers.len(), 2);
    assert_eq!(second.headers.get("Content-Length"), first.headers.get("Content-Length"));
    assert_eq!(second.headers.get("Connection"), Some(&b"Close".to_vec()));
    assert_eq!(second.headers.get("Keep-Alive"), None);
    assert_eq!(second.to_bytes(), sent);
}

#[test]
fn response_from_head_frames_the_body() {
    let head = |headers: Vec<Header>| ResponseHead {
        len: 0,
        version: 0,
        code: 203,
        reason: String::from("Non-Authoritative Information"),
        headers,
    };
    match Response::from_head(head(vec![Header::new("Content-Length", b"2")]), b"hey") {
        ParseStatus::Complete(res) => {
            assert_eq!(res.version, 0);
            assert_eq!(res.status_code, 203);
            assert_eq!(res.reason, "Non-Authoritative Information");
            assert_eq!(res.headers.get("Content-Length"), Some(&b"2".to_vec()));
            assert_eq!(res.body, Some(b"he".to_vec()));
        }
        other => panic!("{:?}", other),
    }
    assert_eq!(
        Response::from_head(head(vec![Header::new("Content-Length", b"4")]), b"hey"),
        ParseStatus::InProgress
    );
    match Response::from_head(head(Vec::new()), b"hey") {
        ParseStatus::Complete(res) => assert_eq!(res.body, None),
        other => panic!("{:?}", other),
    }
    assert_eq!(
        Response::from_head(head(vec![Header::new("Content-Length", b"")]), b"hey"),
        ParseStatus::Error(ParseErrorKind::ContentLength)
    );
}
