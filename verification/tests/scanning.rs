use darkredis::connection::scan::{is_page, is_string_array};
use darkredis::{Command, Connection, Scan, ScanBuilder, Value};

fn strings(items: &[&[u8]]) -> Value {
    Value::Array(items.iter().map(|item| Value::String(item.to_vec())).collect())
}

fn page(cursor: &[u8], items: &[&[u8]]) -> Value {
    Value::Array(vec![Value::String(cursor.to_vec()), strings(items)])
}

#[test]
fn the_first_pull_asks_with_the_cursor_zero() {
    let mut stream = Connection::scan().run();
    assert_eq!(stream.next(), Scan::Query(Command::new("SCAN").arg(b"0")));
    assert_eq!(stream.next(), Scan::Query(Command::new("SCAN").arg(b"0")));
}

#[test]
fn pattern_and_count_go_with_every_request() {
    let mut stream = Connection::scan().pattern(b"user:*").count(50).run();
    let first = Command::new("SCAN").arg(b"0").arg(b"MATCH").arg(b"user:*").arg(b"COUNT").arg(b"50");
    assert_eq!(stream.next(), Scan::Query(first));
    stream.accept(page(b"17", &[]));
    let second =
        Command::new("SCAN").arg(b"17").arg(b"MATCH").arg(b"user:*").arg(b"COUNT").arg(b"50");
    assert_eq!(stream.next(), Scan::Query(second));
}

#[test]
fn count_alone_and_pattern_alone() {
    let mut stream = Connection::scan().count(-3).run();
    assert_eq!(
        stream.next(),
        Scan::Query(Command::new("SCAN").arg(b"0").arg(b"COUNT").arg(b"-3"))
    );
    let mut stream = Connection::scan().pattern(b"*").run();
    assert_eq!(
        stream.next(),
        Scan::Query(Command::new("SCAN").arg(b"0").arg(b"MATCH").arg(b"*"))
    );
}

#[test]
fn set_scan_names_the_key_before_the_cursor() {
    let mut stream = Connection::sscan(b"myset").pattern(b"a*").run();
    assert_eq!(
        stream.next(),
        Scan::Query(Command::new("SSCAN").arg(b"myset").arg(b"0").arg(b"MATCH").arg(b"a*"))
    );
    let mut stream = ScanBuilder::new("SSCAN", Some(b"s")).run();
    assert_eq!(stream.next(), Scan::Query(Command::new("SSCAN").arg(b"s").arg(b"0")));
}

#[test]
fn an_empty_collection_ends_after_one_round_trip() {
    let mut stream = Connection::scan().run();
    assert!(matches!(stream.next(), Scan::Query(_)));
    stream.accept(page(b"0", &[]));
    assert_eq!(stream.next(), Scan::Finished);
    assert_eq!(stream.next(), Scan::Finished);
}

#[test]
fn every_element_of_every_page_is_given_once_and_in_order() {
    let pages: [(&[u8], &[&[u8]]); 4] =
        [(b"12", &[b"a", b"b"]), (b"7", &[]), (b"3", &[b"c"]), (b"0", &[b"d", b"e", b"f"])];
    let mut stream = Connection::scan().count(2).run();
    let mut seen: Vec<Vec<u8>> = Vec::new();
    let mut round_trips = 0;
    let mut cursor: Vec<u8> = b"0".to_vec();
    loop {
        match stream.next() {
            Scan::Item(element) => seen.push(element),
            Scan::Query(command) => {
                assert_eq!(
                    command,
                    Command::new("SCAN").arg(&cursor).arg(b"COUNT").arg(b"2")
                );
                let (next, elements) = pages[round_trips];
                stream.accept(page(next, elements));
                cursor = next.to_vec();
                round_trips += 1;
            }
            Scan::Finished => break,
        }
    }
    assert_eq!(round_trips, 4);
    assert_eq!(
        seen,
        vec![
            b"a".to_vec(),
            b"b".to_vec(),
            b"c".to_vec(),
            b"d".to_vec(),
            b"e".to_vec(),
            b"f".to_vec()
        ]
    );
}

#[test]
fn the_page_size_does_not_change_what_is_visited() {
    let collection: Vec<Vec<u8>> = (0..23).map(|i| format!("key{}", i).into_bytes()).collect();
    for size in [1usize, 2, 5, 23, 100] {
        let mut stream = Connection::scan().count(size as i64).run();
        let mut seen: Vec<Vec<u8>> = Vec::new();
        let mut at = 0;
        loop {
            match stream.next() {
                Scan::Item(element) => seen.push(element),
                Scan::Query(_) => {
                    let end = (at + size).min(collection.len());
                    let elements: Vec<&[u8]> =
                        collection[at..end].iter().map(|e| e.as_slice()).collect();
                    let next =
                        if end == collection.len() { "0".to_string() } else { end.to_string() };
                    stream.accept(page(next.as_bytes(), &elements));
                    at = end;
                }
                Scan::Finished => break,
            }
        }
        assert_eq!(seen, collection);
    }
}

#[test]
fn elements_left_from_one_page_come_before_those_of_the_next() {
    let mut stream = Connection::scan().run();
    stream.accept(page(b"5", &[b"a", b"b"]));
    assert_eq!(stream.next(), Scan::Item(b"a".to_vec()));
    stream.accept(page(b"0", &[b"c"]));
    assert_eq!(stream.next(), Scan::Item(b"b".to_vec()));
    assert_eq!(stream.next(), Scan::Item(b"c".to_vec()));
    assert_eq!(stream.next(), Scan::Finished);
}

#[test]
fn hash_scan_pairs_each_field_with_its_value() {
    let mut stream = Connection::hscan(b"h").count(10).run();
    assert_eq!(
        stream.next(),
        Scan::Query(Command::new("HSCAN").arg(b"h").arg(b"0").arg(b"COUNT").arg(b"10"))
    );
    stream.accept(page(b"9", &[b"one", b"1", b"two", b"2"]));
    assert_eq!(stream.next(), Scan::Item((b"one".to_vec(), b"1".to_vec())));
    assert_eq!(stream.next(), Scan::Item((b"two".to_vec(), b"2".to_vec())));
    assert_eq!(
        stream.next(),
        Scan::Query(Command::new("HSCAN").arg(b"h").arg(b"9").arg(b"COUNT").arg(b"10"))
    );
    stream.accept(page(b"0", &[b"three", b"3"]));
    assert_eq!(stream.next(), Scan::Item((b"three".to_vec(), b"3".to_vec())));
    assert_eq!(stream.next(), Scan::Finished);
}

#[test]
fn hash_scan_with_a_pattern() {
    let mut stream = Connection::hscan(b"h").pattern(b"f*").run();
    assert_eq!(
        stream.next(),
        Scan::Query(Command::new("HSCAN").arg(b"h").arg(b"0").arg(b"MATCH").arg(b"f*"))
    );
    stream.accept(page(b"0", &[]));
    assert_eq!(stream.next(), Scan::Finished);
}

#[test]
fn hash_scan_keeps_a_lone_field_until_its_value_arrives() {
    let mut stream = Connection::hscan(b"h").run();
    stream.accept(page(b"4", &[b"f"]));
    assert!(matches!(stream.next(), Scan::Query(_)));
    stream.accept(page(b"0", &[b"v"]));
    assert_eq!(stream.next(), Scan::Item((b"f".to_vec(), b"v".to_vec())));
    assert_eq!(stream.next(), Scan::Finished);
}

#[test]
fn a_page_is_a_cursor_and_an_array_of_strings() {
    assert!(is_page(&page(b"0", &[])));
    assert!(is_page(&page(b"42", &[b"a", b"b"])));
    assert!(!is_page(&Value::Nil));
    assert!(!is_page(&Value::Array(vec![])));
    assert!(!is_page(&Value::Array(vec![Value::String(b"0".to_vec())])));
    assert!(!is_page(&Value::Array(vec![Value::Integer(0), strings(&[])])));
    assert!(!is_page(&Value::Array(vec![Value::String(b"0".to_vec()), Value::Nil])));
    assert!(!is_page(&Value::Array(vec![
        Value::String(b"0".to_vec()),
        Value::Array(vec![Value::String(b"a".to_vec()), Value::Integer(1)]),
    ])));
    assert!(!is_page(&Value::Array(vec![
        Value::String(b"0".to_vec()),
        strings(&[]),
        Value::Nil,
    ])));
    assert!(is_string_array(&strings(&[b"x"])));
    assert!(!is_string_array(&Value::String(b"x".to_vec())));
}
