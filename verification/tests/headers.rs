use fire_ssr::headers::{
    has_header_names, request_headers, visible_headers_of, visible_table, HeaderTable,
    SURE_ENTRIES,
};
use reqwest::header::{HeaderMap, HeaderName, HeaderValue};

fn table(pairs: &[(&str, &str)]) -> HeaderTable {
    let mut table = HeaderTable::new();
    for (name, value) in pairs {
        table.insert(name.to_string(), value.to_string());
    }
    table
}

fn get(table: &HeaderTable, name: &str) -> Option<String> {
    table.get(&name.to_string()).cloned()
}

fn wire(map: &HeaderMap) -> Vec<(String, Vec<u8>)> {
    map.iter().map(|(n, v)| (n.to_string(), v.as_bytes().to_vec())).collect()
}

#[test]
fn a_table_keeps_one_value_for_each_name() {
    let t = table(&[("a", "1"), ("b", "2"), ("a", "3")]);
    assert_eq!(t.len(), 2);
    assert_eq!(get(&t, "a"), Some("3".to_string()));
    assert_eq!(get(&t, "b"), Some("2".to_string()));
    assert_eq!(get(&t, "c"), None);
    assert_eq!(
        t.entries(),
        &vec![("a".to_string(), "3".to_string()), ("b".to_string(), "2".to_string())]
    );
}

#[test]
fn names_are_checked() {
    assert!(has_header_names(&table(&[("Accept", "x"), ("x-\"quoted\"'!#$%&*+-.^_`|~", "y")])));
    assert!(!has_header_names(&table(&[("", "x")])));
    assert!(!has_header_names(&table(&[("ok", "x"), ("not ok", "y")])));
    assert!(!has_header_names(&table(&[("a(b", "x")])));
    assert!(!has_header_names(&table(&[("a,b", "x")])));
    assert!(!has_header_names(&table(&[("a/b", "x")])));
    assert!(!has_header_names(&table(&[("a:b", "x")])));
    assert!(!has_header_names(&table(&[("a@b", "x")])));
    assert!(!has_header_names(&table(&[("a[b", "x")])));
    assert!(!has_header_names(&table(&[("a{b", "x")])));
    assert!(!has_header_names(&table(&[("\u{fc}", "x")])));
}

#[test]
fn names_have_a_longest_length() {
    let longest = "n".repeat(65535);
    assert!(has_header_names(&table(&[(longest.as_str(), "x")])));
    let longer = "n".repeat(65536);
    assert!(!has_header_names(&table(&[(longer.as_str(), "x")])));
}

#[test]
fn headers_are_sent_in_lower_case_and_in_order() {
    let map = request_headers(&table(&[("X-One", "1"), ("X-Two", "zwei \u{fc}")])).unwrap();
    assert_eq!(
        wire(&map),
        vec![
            ("x-one".to_string(), b"1".to_vec()),
            ("x-two".to_string(), "zwei \u{fc}".as_bytes().to_vec()),
        ]
    );
}

#[test]
fn values_that_cannot_be_sent_are_left_out() {
    let map = request_headers(&table(&[
        ("a", "line\nbreak"),
        ("b", "tab\tis fine"),
        ("c", "\u{7f}"),
        ("d", ""),
    ]))
    .unwrap();
    assert_eq!(
        wire(&map),
        vec![("b".to_string(), b"tab\tis fine".to_vec()), ("d".to_string(), vec![])]
    );
}

#[test]
fn names_that_differ_in_case_are_one_header() {
    let map = request_headers(&table(&[("Same", "1"), ("other", "2"), ("SAME", "3")])).unwrap();
    assert_eq!(
        wire(&map),
        vec![("same".to_string(), b"3".to_vec()), ("other".to_string(), b"2".to_vec())]
    );
}

#[test]
fn a_value_that_cannot_be_sent_replaces_none() {
    let map = request_headers(&table(&[("Same", "1"), ("SAME", "\r")])).unwrap();
    assert_eq!(wire(&map), vec![("same".to_string(), b"1".to_vec())]);
}

#[test]
fn many_headers_find_room() {
    let mut many = HeaderTable::new();
    for n in 0..1500 {
        many.insert(format!("x-{}", n), "v".to_string());
    }
    assert!(many.len() <= SURE_ENTRIES);
    assert_eq!(request_headers(&many).unwrap().len(), 1500);
}

#[test]
fn headers_that_are_not_sent_take_no_room() {
    let mut many = HeaderTable::new();
    for n in 0..7000 {
        many.insert(format!("x-{}", n), "\n".to_string());
    }
    assert!(many.len() > SURE_ENTRIES);
    assert_eq!(request_headers(&many).unwrap().len(), 0);
}

#[test]
fn only_visible_values_are_read() {
    let mut map = HeaderMap::new();
    map.insert(HeaderName::from_static("plain"), HeaderValue::from_static("text\there"));
    map.insert(HeaderName::from_static("high"), HeaderValue::from_bytes(b"\xfa").unwrap());
    let t = visible_headers_of(&map);
    assert_eq!(t.len(), 1);
    assert_eq!(get(&t, "plain"), Some("text\there".to_string()));
    assert_eq!(get(&t, "high"), None);
}

#[test]
fn the_last_visible_value_is_read() {
    let mut map = HeaderMap::new();
    let name = HeaderName::from_static("set-cookie");
    map.append(name.clone(), HeaderValue::from_static("one"));
    map.append(name.clone(), HeaderValue::from_static("two"));
    map.append(name, HeaderValue::from_bytes(b"\xff").unwrap());
    assert_eq!(get(&visible_headers_of(&map), "set-cookie"), Some("two".to_string()));
}

#[test]
fn bytes_that_are_no_header_value_are_not_read() {
    let t = visible_table(&vec![
        ("a".to_string(), b"x\ny".to_vec()),
        ("b".to_string(), b"~ ".to_vec()),
        ("c".to_string(), vec![127]),
    ]);
    assert_eq!(t.len(), 1);
    assert_eq!(get(&t, "b"), Some("~ ".to_string()));
}

#[test]
fn visible_headers_come_back_as_they_were_sent() {
    let sent = table(&[("Accept", "text/html"), ("x-id", "42")]);
    let read = visible_headers_of(&request_headers(&sent).unwrap());
    assert_eq!(read.len(), 2);
    assert_eq!(get(&read, "accept"), Some("text/html".to_string()));
    assert_eq!(get(&read, "x-id"), Some("42".to_string()));
}
