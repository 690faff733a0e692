use darkredis::connection::stream::{is_confirmation, is_string, same_bytes};
use darkredis::frame::read_value;
use darkredis::{Command, Value};

fn text(bytes: &[u8]) -> Value {
    Value::String(bytes.to_vec())
}

fn encode(value: &Value, out: &mut Vec<u8>) {
    match value {
        Value::Okay => out.extend_from_slice(b"+OK\r\n"),
        Value::Nil => out.extend_from_slice(b"$-1\r\n"),
        Value::Integer(n) => out.extend_from_slice(format!(":{}\r\n", n).as_bytes()),
        Value::String(bytes) => {
            out.extend_from_slice(format!("${}\r\n", bytes.len()).as_bytes());
            out.extend_from_slice(bytes);
            out.extend_from_slice(b"\r\n");
        }
        Value::Array(items) => {
            out.extend_from_slice(format!("*{}\r\n", items.len()).as_bytes());
            for item in items {
                encode(item, out);
            }
        }
    }
}

#[test]
fn unwrap_integer_gives_the_number() {
    assert_eq!(Value::Integer(-9).unwrap_integer(), -9);
    assert_eq!(Value::Integer(i64::MAX).unwrap_integer(), i64::MAX);
}

#[test]
fn unwrap_bool_reads_zero_as_false() {
    assert!(!Value::Integer(0).unwrap_bool());
    assert!(Value::Integer(1).unwrap_bool());
    assert!(Value::Integer(-1).unwrap_bool());
    assert!(Value::Integer(2).unwrap_bool());
}

#[test]
fn unwrap_string_gives_the_bytes() {
    assert_eq!(text(b"abc").unwrap_string(), b"abc".to_vec());
    assert_eq!(text(b"").unwrap_string(), Vec::<u8>::new());
}

#[test]
fn unwrap_array_gives_the_items_in_order() {
    let value = Value::Array(vec![Value::Integer(1), Value::Nil, text(b"x")]);
    assert_eq!(value.unwrap_array(), vec![Value::Integer(1), Value::Nil, text(b"x")]);
    assert_eq!(Value::Array(vec![]).unwrap_array(), Vec::<Value>::new());
}

#[test]
fn unwrap_string_array_gives_the_strings_in_order() {
    let value = Value::Array(vec![text(b"one"), text(b""), text(b"three")]);
    assert_eq!(
        value.unwrap_string_array(),
        vec![b"one".to_vec(), b"".to_vec(), b"three".to_vec()]
    );
    assert_eq!(Value::Array(vec![]).unwrap_string_array(), Vec::<Vec<u8>>::new());
}

#[test]
fn optional_integer_is_none_for_other_replies() {
    assert_eq!(Value::Integer(4).optional_integer(), Some(4));
    assert_eq!(Value::Nil.optional_integer(), None);
    assert_eq!(text(b"4").optional_integer(), None);
    assert_eq!(Value::Okay.optional_integer(), None);
    assert_eq!(Value::Array(vec![]).optional_integer(), None);
}

#[test]
fn optional_string_treats_nil_as_absent() {
    assert_eq!(text(b"v").optional_string(), Some(b"v".to_vec()));
    assert_eq!(text(b"").optional_string(), Some(vec![]));
    assert_eq!(Value::Nil.optional_string(), None);
    assert_eq!(Value::Integer(1).optional_string(), None);
}

#[test]
fn optional_array_is_none_for_other_replies() {
    assert_eq!(Value::Array(vec![Value::Okay]).optional_array(), Some(vec![Value::Okay]));
    assert_eq!(Value::Array(vec![]).optional_array(), Some(vec![]));
    assert_eq!(Value::Nil.optional_array(), None);
    assert_eq!(text(b"x").optional_array(), None);
}

#[test]
fn optional_bool_is_none_for_other_replies() {
    assert_eq!(Value::Integer(0).optional_bool(), Some(false));
    assert_eq!(Value::Integer(1).optional_bool(), Some(true));
    assert_eq!(Value::Integer(7).optional_bool(), Some(true));
    assert_eq!(Value::Nil.optional_bool(), None);
    assert_eq!(Value::Okay.optional_bool(), None);
}

#[test]
fn nil_is_neither_the_empty_string_nor_the_empty_array() {
    assert_ne!(Value::Nil, text(b""));
    assert_ne!(Value::Nil, Value::Array(vec![]));
    assert_ne!(text(b""), Value::Array(vec![]));
    assert_ne!(Value::Okay, text(b"OK"));
}

#[test]
fn replies_read_back_to_the_value_they_were_written_for() {
    let values = vec![
        Value::Okay,
        Value::Nil,
        Value::Integer(0),
        Value::Integer(-1),
        Value::Integer(i64::MIN),
        Value::Integer(i64::MAX),
        text(b""),
        text(b"OK"),
        text(b"hello world"),
        text(b"\r\n"),
        text(b"$5\r\nhello\r\n"),
        text(&[0, 1, 2, 255, 10, 13]),
        text(&vec![b'a'; 100000]),
        Value::Array(vec![]),
        Value::Array(vec![Value::Nil]),
        Value::Array(vec![Value::Array(vec![]), Value::Array(vec![Value::Array(vec![])])]),
        Value::Array(vec![
            Value::Integer(1),
            text(b"two"),
            Value::Array(vec![Value::Okay, Value::Nil, text(b"*2\r\n")]),
            Value::Integer(-4),
        ]),
        Value::Array((0..300).map(Value::Integer).collect()),
    ];
    for value in values {
        let mut bytes = b"junk".to_vec();
        encode(&value, &mut bytes);
        let end = bytes.len();
        bytes.extend_from_slice(b":1\r\nmore");
        assert_eq!(read_value(&bytes, 4), Some((Ok(value), end)));
    }
}

#[test]
fn status_lines_read_back_to_their_text() {
    for word in [&b"PONG"[..], b"QUEUED", b"", b"ok", b"OK!", b"string", b"a b c"] {
        let mut bytes = b"+".to_vec();
        bytes.extend_from_slice(word);
        bytes.extend_from_slice(b"\r\n");
        assert_eq!(read_value(&bytes, 0), Some((Ok(text(word)), bytes.len())));
    }
}

#[test]
fn a_request_reads_back_as_the_array_of_its_arguments() {
    let command = Command::new("SET").arg(b"key").arg(b"a\r\nb").arg(b"");
    let mut bytes = Vec::new();
    command.serialize(&mut bytes);
    assert_eq!(
        read_value(&bytes, 0),
        Some((
            Ok(Value::Array(vec![text(b"SET"), text(b"key"), text(b"a\r\nb"), text(b"")])),
            bytes.len()
        ))
    );
}

#[test]
fn byte_comparisons() {
    assert!(same_bytes(b"", b""));
    assert!(same_bytes(b"abc", b"abc"));
    assert!(!same_bytes(b"abc", b"abd"));
    assert!(!same_bytes(b"abc", b"ab"));
    assert!(!same_bytes(b"", b"a"));
    assert!(is_string(&text(b"")));
    assert!(!is_string(&Value::Nil));
    assert!(!is_string(&Value::Integer(1)));
}

#[test]
fn confirmations_start_with_their_tag() {
    let good = Value::Array(vec![text(b"subscribe"), text(b"ch"), Value::Integer(1)]);
    assert!(is_confirmation(&good, b"subscribe"));
    assert!(!is_confirmation(&good, b"psubscribe"));
    assert!(is_confirmation(&Value::Array(vec![text(b"subscribe")]), b"subscribe"));
    assert!(!is_confirmation(&Value::Array(vec![]), b"subscribe"));
    assert!(!is_confirmation(&Value::Array(vec![Value::Integer(1)]), b"subscribe"));
    assert!(!is_confirmation(&text(b"subscribe"), b"subscribe"));
    assert!(!is_confirmation(&Value::Nil, b"subscribe"));
}

#[test]
fn a_copy_of_a_value_equals_it() {
    let value = Value::Array(vec![
        Value::Okay,
        Value::Nil,
        Value::Integer(-3),
        text(b"bytes"),
        Value::Array(vec![Value::Array(vec![]), text(b"")]),
    ]);
    assert_eq!(value.clone(), value);
    assert_eq!(Value::Nil.clone(), Value::Nil);
}
