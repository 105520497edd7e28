use rainyproxy::{Header, Headers};

#[test]
fn headers_start_empty() {
    let h = Headers::new();
    assert_eq!(h.len(), 0);
    assert_eq!(h.get("Host"), None);
    assert!(!h.contains_key("Host"));
    assert_eq!(h.find("Host"), 0);
}

#[test]
fn headers_insert_keeps_the_last_value_in_the_first_place() {
    let mut h = Headers::new();
    assert_eq!(h.insert(String::from("A"), b"1".to_vec()), None);
    assert_eq!(h.insert(String::from("B"), b"2".to_vec()), None);
    assert_eq!(h.insert(String::from("C"), b"3".to_vec()), None);
    assert_eq!(h.insert(String::from("A"), b"4".to_vec()), Some(b"1".to_vec()));
    assert_eq!(h.len(), 3);
    assert_eq!(h.entry(0), &Header::new("A", b"4"));
    assert_eq!(h.entry(1), &Header::new("B", b"2"));
    assert_eq!(h.entry(2), &Header::new("C", b"3"));
    assert_eq!(h.find("B"), 1);
    assert_eq!(h.find("D"), 3);
}

#[test]
fn headers_names_keep_their_case() {
    let mut h = Headers::new();
    h.insert(String::from("Host"), b"a".to_vec());
    h.insert(String::from("host"), b"b".to_vec());
    assert_eq!(h.len(), 2);
    assert_eq!(h.get("Host"), Some(&b"a".to_vec()));
    assert_eq!(h.get("host"), Some(&b"b".to_vec()));
    assert_eq!(h.get("HOST"), None);
}

#[test]
fn headers_remove() {
    let mut h = Headers::new();
    h.insert(String::from("A"), b"1".to_vec());
    h.insert(String::from("B"), b"2".to_vec());
    h.insert(String::from("C"), b"3".to_vec());
    assert_eq!(h.remove("B"), Some(b"2".to_vec()));
    assert_eq!(h.remove("B"), None);
    assert_eq!(h.len(), 2);
    assert_eq!(h.entry(0).name, "A");
    assert_eq!(h.entry(1).name, "C");
    assert!(!h.contains_key("B"));
    assert!(h.contains_key("C"));
}

#[test]
fn headers_from_list_and_duplicate() {
    let list = vec![Header::new("A", b"1"), Header::new("B", b"2"), Header::new("A", b"3")];
    let h = Headers::from_list(&list);
    assert_eq!(h.len(), 2);
    assert_eq!(h.entry(0), &Header::new("A", b"3"));
    assert_eq!(h.entry(1), &Header::new("B", b"2"));
    let copy = h.duplicate();
    assert_eq!(copy, h);
    assert_eq!(list[0].duplicate(), list[0]);
}

#[test]
fn headers_forwarded() {
    let mut h = Headers::new();
    h.insert(String::from("Keep-Alive"), b"x".to_vec());
    h.insert(String::from("Host"), b"h".to_vec());
    let sent = h.forwarded();
    assert_eq!(sent.len(), 2);
    assert_eq!(sent.entry(0), &Header::new("Host", b"h"));
    assert_eq!(sent.entry(1), &Header::new("Connection", b"Close"));
    assert_eq!(sent.forwarded(), sent);
    assert_eq!(h.len(), 2);
    let mut out = b">".to_vec();
    sent.write_lines(&mut out);
    assert_eq!(out, b">Host: h\r\nConnection: Close\r\n".to_vec());
}

#[test]
fn headers_write_no_lines_when_empty() {
    let mut out = b"abc".to_vec();
    Headers::new().write_lines(&mut out);
    assert_eq!(out, b"abc".to_vec());
}
