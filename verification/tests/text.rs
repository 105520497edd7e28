use rainyproxy::target::locate;
use rainyproxy::text::{bytes_eq, parse_numeral, push_decimal, str_eq, str_slice};

#[test]
fn numerals_in_decimal() {
    assert_eq!(parse_numeral(b"0", 10), Some(0));
    assert_eq!(parse_numeral(b"007", 10), Some(7));
    assert_eq!(parse_numeral(b"1234567890", 10), Some(1234567890));
    assert_eq!(parse_numeral(b"18446744073709551615", 10), Some(u64::MAX));
    assert_eq!(parse_numeral(b"18446744073709551616", 10), None);
    assert_eq!(parse_numeral(b"", 10), None);
    assert_eq!(parse_numeral(b"1a", 10), None);
    assert_eq!(parse_numeral(b" 1", 10), None);
}

#[test]
fn numerals_in_hexadecimal() {
    assert_eq!(parse_numeral(b"10", 16), Some(16));
    assert_eq!(parse_numeral(b"fF", 16), Some(255));
    assert_eq!(parse_numeral(b"ffffffffffffffff", 16), Some(u64::MAX));
    assert_eq!(parse_numeral(b"10000000000000000", 16), None);
    assert_eq!(parse_numeral(b"g", 16), None);
    assert_eq!(parse_numeral(b"", 16), None);
}

#[test]
fn decimal_text_of_numbers() {
    for (n, text) in [(0u64, "0"), (9, "9"), (10, "10"), (502, "502"), (u64::MAX, "18446744073709551615")] {
        let mut out = b"x".to_vec();
        push_decimal(&mut out, n);
        assert_eq!(out, format!("x{}", text).into_bytes());
        assert_eq!(parse_numeral(&out[1..], 10), Some(n));
    }
}

#[test]
fn comparisons() {
    assert!(bytes_eq(b"", b""));
    assert!(bytes_eq(b"abc", b"abc"));
    assert!(!bytes_eq(b"abc", b"abd"));
    assert!(!bytes_eq(b"abc", b"ab"));
    assert!(str_eq("Close", "Close"));
    assert!(!str_eq("Close", "close"));
    assert!(str_eq("é", "é"));
}

#[test]
fn slices_of_text() {
    assert_eq!(str_slice("hello", 1, 3), "el");
    assert_eq!(str_slice("hello", 0, 5), "hello");
    assert_eq!(str_slice("hello", 2, 2), "");
    assert_eq!(str_slice("aéb", 1, 3), "é");
}

#[test]
fn places_of_a_target() {
    let p = locate(b"http://example.com:8888/index.html").unwrap();
    assert_eq!((p.scheme_end, p.host_start, p.host_end, p.path_start, p.port), (4, 7, 18, 23, 8888));
    let q = locate(b"http://example.com").unwrap();
    assert_eq!((q.scheme_end, q.host_start, q.host_end, q.path_start, q.port), (4, 7, 18, 18, 80));
    assert_eq!(locate(b"example.com/x"), None);
    assert_eq!(locate(b":/"), None);
}
