use rainyproxy::{parse_body, parse_chunked, Header, ParseErrorKind, ParseStatus};

#[test]
fn chunked_test() {
    let src = b"10\r\nabcdefghij\r\n0";
    assert!(match parse_chunked(src as &[u8]) {
        ParseStatus::Complete(_) => true,
        _ => false,
    });
}

#[test]
fn chunked_hexadecimal_size_is_complete_at_the_marker() {
    let src = b"10\r\nabcdefghijklmnop\r\n0";
    assert_eq!(parse_chunked(src), ParseStatus::Complete(Some(src.to_vec())));
}

#[test]
fn chunked_without_the_marker_is_in_progress() {
    assert_eq!(parse_chunked(b"10\r\nabcdefghijklmnop\r\n"), ParseStatus::InProgress);
    assert_eq!(parse_chunked(b"10\r\nabcdefghijklmnop"), ParseStatus::InProgress);
    assert_eq!(parse_chunked(b"10\r\nabcde"), ParseStatus::InProgress);
    assert_eq!(parse_chunked(b"10\r"), ParseStatus::InProgress);
    assert_eq!(parse_chunked(b"1"), ParseStatus::InProgress);
    assert_eq!(parse_chunked(b""), ParseStatus::InProgress);
}

#[test]
fn chunked_body_is_kept_as_it_came() {
    let src = b"5\r\nhello\r\n3\r\nabc\r\n0\r\n\r\n";
    assert_eq!(parse_chunked(src), ParseStatus::Complete(Some(src.to_vec())));
}

#[test]
fn chunked_marker_alone_is_complete() {
    assert_eq!(parse_chunked(b"0"), ParseStatus::Complete(Some(b"0".to_vec())));
}

#[test]
fn chunked_size_with_letters_is_hexadecimal() {
    let src = b"a\r\n0123456789\r\n0";
    assert_eq!(parse_chunked(src), ParseStatus::Complete(Some(src.to_vec())));
    let upper = b"1A\r\nabcdefghijklmnopqrstuvwxyz\r\n0";
    assert_eq!(parse_chunked(upper), ParseStatus::Complete(Some(upper.to_vec())));
}

#[test]
fn chunked_size_beyond_the_buffer_is_in_progress() {
    assert_eq!(parse_chunked(b"ffffffffffffffffffffffff\r\nabc\r\n0"), ParseStatus::InProgress);
    assert_eq!(parse_chunked(b"99999999999999999999999999\r\nabc\r\n0"), ParseStatus::InProgress);
}

#[test]
fn chunked_that_is_no_size_line_stays_in_progress() {
    assert_eq!(parse_chunked(b"xyz\r\n0"), ParseStatus::InProgress);
    assert_eq!(parse_chunked(b"5\r\nhelloXX0"), ParseStatus::InProgress);
}

#[test]
fn body_by_content_length() {
    let headers = vec![Header::new("Content-Length", b"5")];
    assert_eq!(parse_body(&headers, b"hello"), ParseStatus::Complete(Some(b"hello".to_vec())));
    assert_eq!(parse_body(&headers, b"hell"), ParseStatus::InProgress);
    assert_eq!(parse_body(&headers, b""), ParseStatus::InProgress);
    assert_eq!(parse_body(&headers, b"hello, world"), ParseStatus::Complete(Some(b"hello".to_vec())));
}

#[test]
fn body_of_length_zero() {
    let headers = vec![Header::new("Content-Length", b"0")];
    assert_eq!(parse_body(&headers, b""), ParseStatus::Complete(Some(Vec::new())));
}

#[test]
fn body_with_a_bad_content_length_is_an_error() {
    for bad in [&b"abc"[..], b"", b"-1", b"+5", b"5 ", b"18446744073709551616"] {
        let headers = vec![Header::new("Content-Length", bad)];
        assert_eq!(
            parse_body(&headers, b"hello"),
            ParseStatus::Error(ParseErrorKind::ContentLength)
        );
    }
}

#[test]
fn body_with_the_largest_content_length_is_in_progress() {
    let headers = vec![Header::new("Content-Length", b"18446744073709551615")];
    assert_eq!(parse_body(&headers, b"hello"), ParseStatus::InProgress);
}

#[test]
fn body_by_the_first_content_length() {
    let headers = vec![Header::new("Content-Length", b"2"), Header::new("Content-Length", b"4")];
    assert_eq!(parse_body(&headers, b"hello"), ParseStatus::Complete(Some(b"he".to_vec())));
}

#[test]
fn body_chunked() {
    let headers = vec![Header::new("Transfer-Encoding", b"chunked")];
    assert_eq!(parse_body(&headers, b"3\r\nabc\r\n"), ParseStatus::InProgress);
    assert_eq!(
        parse_body(&headers, b"3\r\nabc\r\n0"),
        ParseStatus::Complete(Some(b"3\r\nabc\r\n0".to_vec()))
    );
}

#[test]
fn body_content_length_goes_before_chunked() {
    let headers =
        vec![Header::new("Transfer-Encoding", b"chunked"), Header::new("Content-Length", b"1")];
    assert_eq!(parse_body(&headers, b"3\r\nabc\r\n0"), ParseStatus::Complete(Some(b"3".to_vec())));
}

#[test]
fn body_absent_without_framing_headers() {
    assert_eq!(parse_body(&[], b"anything"), ParseStatus::Complete(None));
    let other = vec![Header::new("Transfer-Encoding", b"gzip")];
    assert_eq!(parse_body(&other, b"anything"), ParseStatus::Complete(None));
}

#[test]
fn body_header_names_match_byte_for_byte() {
    let lower = vec![Header::new("content-length", b"5")];
    assert_eq!(parse_body(&lower, b"he"), ParseStatus::Complete(None));
    let value = vec![Header::new("Transfer-Encoding", b"Chunked")];
    assert_eq!(parse_body(&value, b"he"), ParseStatus::Complete(None));
}

#[test]
fn status_is_complete_only_when_complete() {
    assert!(ParseStatus::Complete(3usize).is_complete());
    assert!(!ParseStatus::<usize>::InProgress.is_complete());
    assert!(!ParseStatus::<usize>::Error(ParseErrorKind::Token).is_complete());
}

#[test]
fn chunked_stays_complete_when_more_arrives() {
    let whole = b"10\r\nabcdefghijklmnop\r\n0";
    for more in [&b"\r\n"[..], b"\r\n\r\n", b"5\r\nhello", b"x"] {
        let mut buf = whole.to_vec();
        buf.extend_from_slice(more);
        assert_eq!(parse_chunked(&buf), ParseStatus::Complete(Some(buf.clone())));
    }
}

#[test]
fn body_stays_complete_when_more_arrives() {
    let sized = vec![Header::new("Content-Length", b"3")];
    assert_eq!(parse_body(&sized, b"abc"), ParseStatus::Complete(Some(b"abc".to_vec())));
    assert_eq!(parse_body(&sized, b"abcdef"), ParseStatus::Complete(Some(b"abc".to_vec())));
    let chunked = vec![Header::new("Transfer-Encoding", b"chunked")];
    assert_eq!(parse_body(&chunked, b"0"), ParseStatus::Complete(Some(b"0".to_vec())));
    assert_eq!(parse_body(&chunked, b"0\r\n\r\n"), ParseStatus::Complete(Some(b"0\r\n\r\n".to_vec())));
}

#[test]
fn body_by_content_length_cut_at_every_place() {
    let body = b"0123456789";
    let headers = vec![Header::new("Content-Length", b"10")];
    for cut in 0..body.len() {
        assert_eq!(parse_body(&headers, &body[..cut]), ParseStatus::InProgress);
    }
    assert_eq!(parse_body(&headers, body), ParseStatus::Complete(Some(body.to_vec())));
}

#[test]
fn chunked_decimal_and_hexadecimal_sizes_in_one_stream() {
    let src = b"10\r\nabcdefghij\r\n10\r\nabcdefghijklmnop\r\n0";
    assert_eq!(parse_chunked(src), ParseStatus::Complete(Some(src.to_vec())));
    assert_eq!(parse_chunked(&src[..src.len() - 1]), ParseStatus::InProgress);
}

#[test]
fn chunked_long_runs_of_digits_are_no_sizes() {
    let digits = vec![b'1'; 200_000];
    assert_eq!(parse_chunked(&digits), ParseStatus::InProgress);
    let mut line = b"100000000000000000000".to_vec();
    line.extend_from_slice(b"\r\nabc\r\n0");
    assert_eq!(parse_chunked(&line), ParseStatus::InProgress);
    let mut zeros = b"0".to_vec();
    zeros.extend_from_slice(&vec![b'0'; 100]);
    assert_eq!(parse_chunked(&zeros), ParseStatus::Complete(Some(zeros.clone())));
}
