use darkredis::frame::{
    are_sound, is_simple_line_sound, is_sound, parse_array, parse_simple_value, parse_string,
    read_until, read_value,
};
use darkredis::{Error, Value};

fn text(bytes: &[u8]) -> Value {
    Value::String(bytes.to_vec())
}

#[test]
fn nil_bulk_string_decodes_to_nil() {
    assert_eq!(read_value(b"$-1\r\n", 0), Some((Ok(Value::Nil), 5)));
}

#[test]
fn nil_array_decodes_to_nil() {
    assert_eq!(read_value(b"*-1\r\n", 0), Some((Ok(Value::Nil), 5)));
}

#[test]
fn empty_array_is_not_nil() {
    let decoded = read_value(b"*0\r\n", 0);
    assert_eq!(decoded, Some((Ok(Value::Array(vec![])), 4)));
    assert_ne!(Value::Array(vec![]), Value::Nil);
}

#[test]
fn empty_bulk_string_is_present_and_empty() {
    assert_eq!(read_value(b"$0\r\n\r\n", 0), Some((Ok(Value::String(vec![])), 6)));
    assert_ne!(Value::String(vec![]), Value::Nil);
}

#[test]
fn any_negative_length_is_nil() {
    assert_eq!(read_value(b"$-2\r\n", 0), Some((Ok(Value::Nil), 5)));
    assert_eq!(read_value(b"*-7\r\nrest", 0), Some((Ok(Value::Nil), 5)));
}

#[test]
fn ok_status_decodes_to_okay() {
    assert_eq!(read_value(b"+OK\r\n", 0), Some((Ok(Value::Okay), 5)));
}

#[test]
fn status_line_decodes_to_its_text_without_the_terminator() {
    assert_eq!(read_value(b"+PONG\r\n", 0), Some((Ok(text(b"PONG")), 7)));
    assert_eq!(read_value(b"+\r\n", 0), Some((Ok(text(b"")), 3)));
    assert_eq!(read_value(b"+OK \r\n", 0), Some((Ok(text(b"OK ")), 6)));
    assert_eq!(read_value(b"+hello\n", 0), Some((Ok(text(b"hello")), 7)));
    assert_eq!(read_value(b"+a\rb\r\n", 0), Some((Ok(text(b"a\rb")), 6)));
}

#[test]
fn integer_replies() {
    assert_eq!(read_value(b":0\r\n", 0), Some((Ok(Value::Integer(0)), 4)));
    assert_eq!(read_value(b":1000\r\n", 0), Some((Ok(Value::Integer(1000)), 7)));
    assert_eq!(read_value(b":-12\r\n", 0), Some((Ok(Value::Integer(-12)), 6)));
    assert_eq!(
        read_value(b":9223372036854775807\r\n", 0),
        Some((Ok(Value::Integer(i64::MAX)), 22))
    );
    assert_eq!(
        read_value(b":-9223372036854775808\r\n", 0),
        Some((Ok(Value::Integer(i64::MIN)), 23))
    );
}

#[test]
fn integer_that_is_no_number_is_not_admitted() {
    for input in [
        &b":abc\r\n"[..],
        b":\r\n",
        b": \r\n",
        b":1 2\r\n",
        b":9223372036854775808\r\n",
        b"*1\r\n:x\r\n",
        b"*2\r\n:1\r\n:x\r\n",
        b"*2\r\n$1\r\na\r\n*1\r\n:-\r\n",
        b"*3\r\n:x\r\n",
    ] {
        assert!(!is_sound(input, 0));
    }
    assert!(!is_simple_line_sound(b":abc\r\n"));
    assert!(!is_simple_line_sound(b":"));
}

#[test]
fn frames_without_a_broken_integer_are_admitted() {
    for input in [
        &b""[..],
        b":",
        b":12",
        b":12\r\n",
        b": -7 \r\n",
        b"+abc\r\n",
        b"-ERR x\r\n",
        b"?what\r\n",
        b"$x\r\n",
        b"$3\r\n:x\r\n",
        b"*x\r\n:x\r\n",
        b"*-1\r\n:x\r\n",
        b"*0\r\n:x\r\n",
        b"*2\r\n:1\r\n",
        b"*2\r\n:1\r\n:2\r\n:x\r\n",
        b"*2\r\n-ERR\r\n:x\r\n",
        b"*2\r\n*1\r\n:5\r\n$-1\r\n",
    ] {
        assert!(is_sound(input, 0));
    }
    assert!(is_simple_line_sound(b":5\r\n"));
    assert!(is_simple_line_sound(b"+x\r\n"));
    assert!(is_simple_line_sound(b"$x\r\n"));
}

#[test]
fn soundness_is_tested_from_the_given_position() {
    let input = b":x\r\n:1\r\n:y\r\n";
    assert!(!is_sound(input, 0));
    assert!(is_sound(input, 4));
    assert!(!is_sound(input, 8));
    assert!(is_sound(input, 12));
    assert!(are_sound(input, 4, 0));
    assert!(are_sound(input, 4, 1));
    assert!(!are_sound(input, 4, 2));
    assert!(!are_sound(input, 0, 1));
    assert!(are_sound(b":1\r\n:2\r\n", 0, 5));
    assert!(are_sound(b":1\r\n-ERR\r\n:3\r\n", 0, 3));
    assert!(!are_sound(b":1\r\n-ERR\r\n:x\r\n", 0, 3));
}

#[test]
fn length_that_is_no_number_is_an_unexpected_response() {
    assert_eq!(
        read_value(b"$x\r\nabc\r\n", 0),
        Some((Err(Error::UnexpectedResponse("$x\r\n".to_string())), 4))
    );
    assert_eq!(
        read_value(b"*\r\n", 0),
        Some((Err(Error::UnexpectedResponse("*\r\n".to_string())), 3))
    );
}

#[test]
fn error_line_is_a_server_error() {
    assert_eq!(
        read_value(b"-ERR unknown\r\n", 0),
        Some((Err(Error::RedisError("ERR unknown\r\n".to_string())), 14))
    );
}

#[test]
fn error_text_that_is_not_utf8_is_read_with_replacement_characters() {
    assert_eq!(
        read_value(b"-\xff!\r\n", 0),
        Some((Err(Error::RedisError("\u{fffd}!\r\n".to_string())), 5))
    );
}

#[test]
fn unknown_tag_is_an_unexpected_response_with_the_line() {
    assert_eq!(
        read_value(b"?what\r\n+OK\r\n", 0),
        Some((Err(Error::UnexpectedResponse("?what\r\n".to_string())), 7))
    );
    assert_eq!(
        read_value(b"\n", 0),
        Some((Err(Error::UnexpectedResponse("\n".to_string())), 1))
    );
}

#[test]
fn bulk_string_is_taken_by_its_length() {
    assert_eq!(read_value(b"$5\r\nhello\r\n", 0), Some((Ok(text(b"hello")), 11)));
    assert_eq!(read_value(b"$4\r\na\r\nb\r\n", 0), Some((Ok(text(b"a\r\nb")), 10)));
    assert_eq!(read_value(b"$2\r\n\r\n\r\n", 0), Some((Ok(text(b"\r\n")), 8)));
    assert_eq!(read_value(b"$3\r\n\x00\xff\n\r\n", 0), Some((Ok(text(b"\x00\xff\n")), 9)));
}

#[test]
fn bulk_string_terminator_is_passed_over_unread() {
    assert_eq!(read_value(b"$1\r\naXY:1\r\n", 0), Some((Ok(text(b"a")), 7)));
}

#[test]
fn bulk_string_length_may_have_a_sign_and_zeros() {
    assert_eq!(read_value(b"$+3\r\nabc\r\n", 0), Some((Ok(text(b"abc")), 10)));
    assert_eq!(read_value(b"$003\r\nabc\r\n", 0), Some((Ok(text(b"abc")), 11)));
}

#[test]
fn frames_that_have_not_arrived_in_full_are_pending() {
    for partial in [
        &b""[..],
        b"+",
        b"+OK",
        b"+OK\r",
        b":12",
        b"$5",
        b"$5\r\n",
        b"$5\r\nhel",
        b"$5\r\nhello",
        b"$5\r\nhello\r",
        b"*2\r\n",
        b"*2\r\n:1\r\n",
        b"*2\r\n:1\r\n$3\r\nab",
        b"*1\r\n*1\r\n",
        b"*9223372036854775807\r\n",
        b"$9223372036854775807\r\nabc",
    ] {
        assert_eq!(read_value(partial, 0), None);
    }
}

#[test]
fn arrays_hold_frames_of_any_kind() {
    let input = b"*5\r\n+OK\r\n:7\r\n$3\r\nfoo\r\n$-1\r\n+status\r\n";
    assert_eq!(
        read_value(input, 0),
        Some((
            Ok(Value::Array(vec![
                Value::Okay,
                Value::Integer(7),
                text(b"foo"),
                Value::Nil,
                text(b"status"),
            ])),
            input.len()
        ))
    );
}

#[test]
fn arrays_nest() {
    let input = b"*2\r\n*2\r\n:1\r\n*0\r\n*1\r\n*1\r\n$1\r\nx\r\n";
    assert_eq!(
        read_value(input, 0),
        Some((
            Ok(Value::Array(vec![
                Value::Array(vec![Value::Integer(1), Value::Array(vec![])]),
                Value::Array(vec![Value::Array(vec![text(b"x")])]),
            ])),
            input.len()
        ))
    );
}

#[test]
fn array_with_bulk_strings_that_hold_terminators() {
    let input = b"*2\r\n$6\r\n\r\n*1\r\n\r\n:5\r\n";
    assert_eq!(
        read_value(input, 0),
        Some((Ok(Value::Array(vec![text(b"\r\n*1\r\n"), Value::Integer(5)])), input.len()))
    );
}

#[test]
fn error_inside_an_array_ends_the_array() {
    let input = b"*3\r\n:1\r\n-ERR no\r\n:3\r\n";
    assert_eq!(
        read_value(input, 0),
        Some((Err(Error::RedisError("ERR no\r\n".to_string())), 17))
    );
}

#[test]
fn decoding_starts_at_the_given_position() {
    let input = b":1\r\n$3\r\nabc\r\n*1\r\n:2\r\n+OK\r\n";
    assert_eq!(read_value(input, 0), Some((Ok(Value::Integer(1)), 4)));
    assert_eq!(read_value(input, 4), Some((Ok(text(b"abc")), 13)));
    assert_eq!(read_value(input, 13), Some((Ok(Value::Array(vec![Value::Integer(2)])), 21)));
    assert_eq!(read_value(input, 21), Some((Ok(Value::Okay), 26)));
    assert_eq!(read_value(input, 26), None);
}

#[test]
fn bytes_after_a_frame_play_no_part() {
    let frame = b"*2\r\n$1\r\na\r\n:5\r\n";
    let alone = read_value(frame, 0);
    for rest in [&b""[..], b"+", b":9\r\n", b"\r\n\r\n", b"*3\r\n"] {
        let mut input = frame.to_vec();
        input.extend_from_slice(rest);
        assert_eq!(read_value(&input, 0), alone);
    }
}

#[test]
fn read_until_finds_the_end_of_the_line() {
    assert_eq!(read_until(b"abc\ndef\n", 0, b'\n'), Some(4));
    assert_eq!(read_until(b"abc\ndef\n", 4, b'\n'), Some(8));
    assert_eq!(read_until(b"abc\ndef\n", 3, b'\n'), Some(4));
    assert_eq!(read_until(b"abc\ndef\n", 8, b'\n'), None);
    assert_eq!(read_until(b"abc", 0, b'\n'), None);
    assert_eq!(read_until(b"abc", 0, b'c'), Some(3));
    assert_eq!(read_until(b"", 0, b'\n'), None);
}

#[test]
fn parse_simple_value_reads_one_line() {
    assert_eq!(parse_simple_value(b"+OK\r\n"), Ok(Value::Okay));
    assert_eq!(parse_simple_value(b"+QUEUED\r\n"), Ok(text(b"QUEUED")));
    assert_eq!(parse_simple_value(b":-3\r\n"), Ok(Value::Integer(-3)));
    assert_eq!(parse_simple_value(b": 8 \r\n"), Ok(Value::Integer(8)));
    assert_eq!(
        parse_simple_value(b"-WRONGTYPE\r\n"),
        Err(Error::RedisError("WRONGTYPE\r\n".to_string()))
    );
    assert_eq!(
        parse_simple_value(b"$3\r\n"),
        Err(Error::UnexpectedResponse("$3\r\n".to_string()))
    );
    assert_eq!(parse_simple_value(b"+"), Ok(text(b"")));
}

#[test]
fn parse_string_reads_the_payload_after_its_header() {
    let input = b"xx$3\r\nabc\r\n";
    assert_eq!(parse_string(input, 2, 6), Some((Ok(text(b"abc")), 11)));
    assert_eq!(parse_string(b"$3\r\nabc\r", 0, 4), None);
    assert_eq!(parse_string(b"$-1\r\n", 0, 5), Some((Ok(Value::Nil), 5)));
}

#[test]
fn parse_array_reads_the_frames_after_its_header() {
    let input = b"*2\r\n:1\r\n:2\r\n";
    assert_eq!(
        parse_array(input, 0, 4),
        Some((Ok(Value::Array(vec![Value::Integer(1), Value::Integer(2)])), 12))
    );
    assert_eq!(parse_array(b"*-1\r\n", 0, 5), Some((Ok(Value::Nil), 5)));
    assert_eq!(parse_array(b"*1\r\n", 0, 4), None);
}
