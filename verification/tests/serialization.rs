use darkredis::decimal::{parse_integer, push_decimal, push_signed_decimal};
use darkredis::{Command, CommandList, MSetBuilder};

fn bytes_of(command: &Command) -> Vec<u8> {
    let mut buffer = Vec::new();
    command.serialize(&mut buffer);
    buffer
}

#[test]
fn set_command_serializes_to_the_request_array() {
    let command = Command::new("SET").arg(b"k").arg(b"v");
    assert_eq!(bytes_of(&command), b"*3\r\n$3\r\nSET\r\n$1\r\nk\r\n$1\r\nv\r\n".to_vec());
}

#[test]
fn command_without_arguments_is_an_array_of_one() {
    assert_eq!(bytes_of(&Command::new("PING")), b"*1\r\n$4\r\nPING\r\n".to_vec());
}

#[test]
fn serialize_appends_to_the_buffer() {
    let command = Command::new("PING");
    let mut buffer = b"abc".to_vec();
    command.serialize(&mut buffer);
    assert_eq!(buffer, b"abc*1\r\n$4\r\nPING\r\n".to_vec());
}

#[test]
fn arguments_may_hold_any_bytes() {
    let command = Command::new("SET").arg(b"a\r\nb").arg(&[0u8, 255u8]);
    let mut expected = b"*3\r\n$3\r\nSET\r\n$4\r\na\r\nb\r\n$2\r\n".to_vec();
    expected.extend_from_slice(&[0, 255]);
    expected.extend_from_slice(b"\r\n");
    assert_eq!(bytes_of(&command), expected);
}

#[test]
fn empty_argument_is_a_bulk_string_of_length_zero() {
    let command = Command::new("SET").arg(b"k").arg(b"");
    assert_eq!(bytes_of(&command), b"*3\r\n$3\r\nSET\r\n$1\r\nk\r\n$0\r\n\r\n".to_vec());
}

#[test]
fn args_adds_every_argument_in_order() {
    let keys = vec![b"a".to_vec(), b"bb".to_vec(), b"ccc".to_vec()];
    let command = Command::new("DEL").args(&keys);
    assert_eq!(
        bytes_of(&command),
        b"*4\r\n$3\r\nDEL\r\n$1\r\na\r\n$2\r\nbb\r\n$3\r\nccc\r\n".to_vec()
    );
}

#[test]
fn append_forms_agree_with_the_builder_forms() {
    let built = Command::new("LPUSH").arg(b"l").args(&[b"x".to_vec(), b"y".to_vec()]);
    let mut appended = Command::new("LPUSH");
    appended.append_arg(b"l");
    appended.append_args(&[b"x".to_vec(), b"y".to_vec()]);
    assert_eq!(built, appended);
    assert_eq!(bytes_of(&built), bytes_of(&appended));
}

#[test]
fn ten_arguments_have_a_two_digit_count() {
    let mut command = Command::new("RPUSH");
    for _ in 0..9 {
        command.append_arg(b"v");
    }
    let bytes = bytes_of(&command);
    assert_eq!(&bytes[..5], b"*10\r\n");
    assert_eq!(bytes.len(), 5 + 11 + 9 * 7);
}

#[test]
fn long_argument_has_its_length_in_decimal() {
    let value = vec![b'x'; 1234];
    let bytes = bytes_of(&Command::new("SET").arg(b"k").arg(&value));
    let mut expected = b"*3\r\n$3\r\nSET\r\n$1\r\nk\r\n$1234\r\n".to_vec();
    expected.extend_from_slice(&value);
    expected.extend_from_slice(b"\r\n");
    assert_eq!(bytes, expected);
}

#[test]
fn command_list_serializes_back_to_back() {
    let list = CommandList::new("INCR").arg(b"x").command("INCR").arg(b"x");
    assert_eq!(list.command_count(), 2);
    let mut buffer = Vec::new();
    list.serialize(&mut buffer);
    assert_eq!(
        buffer,
        b"*2\r\n$4\r\nINCR\r\n$1\r\nx\r\n*2\r\n$4\r\nINCR\r\n$1\r\nx\r\n".to_vec()
    );
}

#[test]
fn command_list_arguments_go_to_the_last_command() {
    let mut list = CommandList::new("SET").args(&[b"a".to_vec(), b"1".to_vec()]);
    list.append_command("GET");
    list.append_arg(b"a");
    list.append_command("MGET");
    list.append_args(&[b"a".to_vec(), b"b".to_vec()]);
    assert_eq!(list.command_count(), 3);
    let mut buffer = Vec::new();
    list.serialize(&mut buffer);
    let mut expected = Vec::new();
    Command::new("SET").arg(b"a").arg(b"1").serialize(&mut expected);
    Command::new("GET").arg(b"a").serialize(&mut expected);
    Command::new("MGET").arg(b"a").arg(b"b").serialize(&mut expected);
    assert_eq!(buffer, expected);
}

#[test]
fn mset_builder_gives_each_key_then_its_value() {
    let mut builder = MSetBuilder::new().set(b"k1", b"foo").set(b"k2", b"bar");
    builder.append(b"k3", b"baz");
    let mut command = Command::new("MSET");
    command.append_msetbuilder(&builder);
    assert_eq!(
        command,
        Command::new("MSET").arg(b"k1").arg(b"foo").arg(b"k2").arg(b"bar").arg(b"k3").arg(b"baz")
    );
    assert_eq!(builder.pairs().len(), 6);
}

#[test]
fn mset_builder_with_capacity_starts_empty() {
    let builder = MSetBuilder::with_capacity(4);
    assert_eq!(builder, MSetBuilder::new());
    assert_eq!(MSetBuilder::with_capacity(usize::MAX).pairs().len(), 0);
}

#[test]
fn decimal_text_of_unsigned_numbers() {
    for (n, text) in [
        (0u128, "0"),
        (7, "7"),
        (10, "10"),
        (1234567890, "1234567890"),
        (u64::MAX as u128, "18446744073709551615"),
        (u128::MAX, "340282366920938463463374607431768211455"),
    ] {
        let mut buffer = b"n=".to_vec();
        push_decimal(&mut buffer, n);
        assert_eq!(buffer, format!("n={}", text).into_bytes());
    }
}

#[test]
fn decimal_text_of_signed_numbers() {
    for n in [0i64, 1, -1, 42, -42, 1000, -1000, i64::MAX, i64::MIN, i64::MIN + 1] {
        let mut buffer = Vec::new();
        push_signed_decimal(&mut buffer, n);
        assert_eq!(buffer, n.to_string().into_bytes());
    }
}

#[test]
fn integer_text_reads_back() {
    for n in [0i64, 5, -5, 123456789, i64::MAX, i64::MIN] {
        assert_eq!(parse_integer(n.to_string().as_bytes()), Some(n));
    }
}

#[test]
fn integer_text_may_have_a_sign_and_white_space() {
    assert_eq!(parse_integer(b"+17"), Some(17));
    assert_eq!(parse_integer(b"-0"), Some(0));
    assert_eq!(parse_integer(b"0007"), Some(7));
    assert_eq!(parse_integer(b"  12\r\n"), Some(12));
    assert_eq!(parse_integer(b"\t-3 \x0b\x0c"), Some(-3));
}

#[test]
fn text_that_is_no_integer_is_refused() {
    for text in [
        &b""[..],
        b" ",
        b"-",
        b"+",
        b"+-1",
        b"--1",
        b"1 2",
        b"12a",
        b"a12",
        b"1.5",
        b"0x10",
        b"\r\n",
    ] {
        assert_eq!(parse_integer(text), None);
    }
}

#[test]
fn integers_outside_sixty_four_bits_are_refused() {
    assert_eq!(parse_integer(b"9223372036854775807"), Some(i64::MAX));
    assert_eq!(parse_integer(b"9223372036854775808"), None);
    assert_eq!(parse_integer(b"-9223372036854775808"), Some(i64::MIN));
    assert_eq!(parse_integer(b"-9223372036854775809"), None);
    assert_eq!(parse_integer(b"99999999999999999999999999999999999999999"), None);
    assert_eq!(parse_integer(b"-99999999999999999999999999999999999999999"), None);
    assert_eq!(parse_integer(b"184467440737095516160"), None);
}
