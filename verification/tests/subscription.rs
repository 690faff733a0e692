use darkredis::{Connection, Error, Message, MessageStream, PMessage, PMessageStream, Pull, Value};

fn channels(names: &[&[u8]]) -> Vec<Vec<u8>> {
    names.iter().map(|name| name.to_vec()).collect()
}

fn text(bytes: &[u8]) -> Value {
    Value::String(bytes.to_vec())
}

/// Reads the next confirmation frame, which must have arrived and must be
/// admitted, and counts it.
fn confirm(stream: &mut MessageStream) -> Value {
    assert!(stream.is_sound());
    match stream.read_confirmation() {
        Pull::Item(Ok(reply)) => {
            assert!(stream.accepts(&reply));
            stream.confirmed(&reply);
            reply
        }
        other => panic!("unexpected {:?}", other),
    }
}

fn pconfirm(stream: &mut PMessageStream) -> Value {
    assert!(stream.is_sound());
    match stream.read_confirmation() {
        Pull::Item(Ok(reply)) => {
            assert!(stream.accepts(&reply));
            stream.confirmed(&reply);
            reply
        }
        other => panic!("unexpected {:?}", other),
    }
}

#[test]
fn subscribe_writes_the_request_and_takes_the_connection() {
    let connection = Connection::connect();
    let mut stream = connection.subscribe(&channels(&[b"a", b"bc"])).unwrap();
    assert_eq!(
        stream.take_outgoing(),
        b"*3\r\n$9\r\nSUBSCRIBE\r\n$1\r\na\r\n$2\r\nbc\r\n".to_vec()
    );
    assert!(!stream.is_confirmed());
}

#[test]
fn subscribe_refuses_an_empty_list_of_channels() {
    let connection = Connection::connect();
    assert_eq!(connection.subscribe(&[]).err(), Some(Error::EmptySlice));
    let connection = Connection::connect();
    assert_eq!(connection.psubscribe(&[]).err(), Some(Error::EmptySlice));
}

#[test]
fn one_confirmation_is_read_for_each_channel() {
    let connection = Connection::connect();
    let mut stream = connection.subscribe(&channels(&[b"a", b"b", b"c"])).unwrap();
    assert_eq!(stream.read_confirmation(), Pull::Pending);
    stream.receive(b"*3\r\n$9\r\nsubscribe\r\n$1\r\na\r\n:1\r\n");
    stream.receive(b"*3\r\n$9\r\nsubscribe\r\n$1\r\nb\r\n:2\r\n");
    assert_eq!(
        confirm(&mut stream),
        Value::Array(vec![text(b"subscribe"), text(b"a"), Value::Integer(1)])
    );
    assert_eq!(
        confirm(&mut stream),
        Value::Array(vec![text(b"subscribe"), text(b"b"), Value::Integer(2)])
    );
    assert!(!stream.is_confirmed());
    assert_eq!(stream.read_confirmation(), Pull::Pending);
    stream.receive(b"*3\r\n$9\r\nsubscribe\r\n$1\r\nc\r\n:3\r\n");
    confirm(&mut stream);
    assert!(stream.is_confirmed());
    assert_eq!(stream.read_confirmation(), Pull::Finished);
}

#[test]
fn reading_a_confirmation_does_not_count_it() {
    let connection = Connection::connect();
    let mut stream = connection.subscribe(&channels(&[b"a"])).unwrap();
    stream.receive(b"*3\r\n$9\r\nsubscribe\r\n$1\r\na\r\n:1\r\n+next\r\n");
    let reply = match stream.read_confirmation() {
        Pull::Item(Ok(reply)) => reply,
        other => panic!("unexpected {:?}", other),
    };
    assert!(!stream.is_confirmed());
    stream.confirmed(&reply);
    assert!(stream.is_confirmed());
    assert_eq!(stream.read_confirmation(), Pull::Finished);
}

#[test]
fn the_first_confirmation_is_taken_as_it_comes() {
    let connection = Connection::connect();
    let mut stream = connection.subscribe(&channels(&[b"a"])).unwrap();
    assert!(stream.accepts(&Value::Nil));
    assert!(stream.accepts(&Value::Integer(3)));
    stream.receive(b"+whatever\r\n");
    assert_eq!(confirm(&mut stream), text(b"whatever"));
    assert!(stream.is_confirmed());
}

#[test]
fn a_later_confirmation_with_another_tag_is_not_admitted() {
    let connection = Connection::connect();
    let mut stream = connection.subscribe(&channels(&[b"a", b"b"])).unwrap();
    stream.receive(b"*3\r\n$9\r\nsubscribe\r\n$1\r\na\r\n:1\r\n");
    stream.receive(b"*3\r\n$7\r\nmessage\r\n$1\r\na\r\n$2\r\nhi\r\n");
    confirm(&mut stream);
    let reply = match stream.read_confirmation() {
        Pull::Item(Ok(reply)) => reply,
        other => panic!("unexpected {:?}", other),
    };
    assert_eq!(reply, Value::Array(vec![text(b"message"), text(b"a"), text(b"hi")]));
    assert!(!stream.accepts(&reply));
    assert!(!stream.is_confirmed());
}

#[test]
fn a_later_confirmation_must_be_an_array_that_starts_with_the_tag() {
    let connection = Connection::connect();
    let mut stream = connection.subscribe(&channels(&[b"a", b"b"])).unwrap();
    stream.receive(b"+first\r\n");
    confirm(&mut stream);
    for reply in [
        Value::Integer(1),
        Value::Nil,
        Value::Okay,
        text(b"subscribe"),
        Value::Array(vec![]),
        Value::Array(vec![Value::Integer(1)]),
        Value::Array(vec![text(b"psubscribe"), text(b"b")]),
        Value::Array(vec![text(b"Subscribe"), text(b"b")]),
        Value::Array(vec![text(b"b"), text(b"subscribe")]),
    ] {
        assert!(!stream.accepts(&reply));
    }
    assert!(stream.accepts(&Value::Array(vec![text(b"subscribe")])));
    assert!(stream.accepts(&Value::Array(vec![text(b"subscribe"), text(b"b"), Value::Integer(2)])));
}

#[test]
fn a_server_error_during_the_handshake_is_passed_on() {
    let connection = Connection::connect();
    let mut stream = connection.subscribe(&channels(&[b"a"])).unwrap();
    stream.receive(b"-ERR no\r\n");
    assert_eq!(
        stream.read_confirmation(),
        Pull::Item(Err(Error::RedisError("ERR no\r\n".to_string())))
    );
    assert!(!stream.is_confirmed());
}

#[test]
fn a_broken_integer_in_a_confirmation_is_not_admitted() {
    let connection = Connection::connect();
    let mut stream = connection.subscribe(&channels(&[b"a"])).unwrap();
    stream.receive(b"*3\r\n$9\r\nsubscribe\r\n$1\r\na\r\n:one\r\n");
    assert!(!stream.is_sound());
}

#[test]
fn messages_are_reshaped_into_channel_and_payload() {
    let connection = Connection::connect();
    let mut stream = connection.subscribe(&channels(&[b"news"])).unwrap();
    stream.receive(b"*3\r\n$9\r\nsubscribe\r\n$4\r\nnews\r\n:1\r\n");
    confirm(&mut stream);
    assert_eq!(stream.next(), Pull::Pending);
    stream.receive(b"*3\r\n$7\r\nmessage\r\n$4\r\nnews\r\n$5\r\nhello\r\n");
    stream.receive(b"*3\r\n$7\r\nmessage\r\n$4\r\nnews\r\n$0\r\n\r\n");
    assert!(stream.is_sound());
    assert_eq!(
        stream.next(),
        Pull::Item(Ok(Message { channel: b"news".to_vec(), message: b"hello".to_vec() }))
    );
    assert_eq!(
        stream.next(),
        Pull::Item(Ok(Message { channel: b"news".to_vec(), message: vec![] }))
    );
    assert_eq!(stream.next(), Pull::Pending);
}

#[test]
fn a_frame_that_is_no_message_is_reported() {
    for frame in [
        &b":1\r\n"[..],
        b"*2\r\n$7\r\nmessage\r\n$1\r\na\r\n",
        b"*4\r\n$7\r\nmessage\r\n$1\r\na\r\n$1\r\nb\r\n$1\r\nc\r\n",
        b"*3\r\n$7\r\nmessage\r\n:1\r\n$1\r\nb\r\n",
        b"*3\r\n$7\r\nmessage\r\n$1\r\na\r\n$-1\r\n",
    ] {
        let connection = Connection::connect();
        let mut stream = connection.subscribe(&channels(&[b"a"])).unwrap();
        stream.receive(b"+first\r\n");
        confirm(&mut stream);
        stream.receive(frame);
        assert!(stream.is_sound());
        match stream.next() {
            Pull::Item(Err(Error::UnexpectedResponse(_))) => {}
            other => panic!("unexpected {:?}", other),
        }
    }
}

#[test]
fn a_frame_that_is_no_message_is_reported_with_its_rendering() {
    let connection = Connection::connect();
    let mut stream = connection.subscribe(&channels(&[b"a"])).unwrap();
    stream.receive(b"+first\r\n:7\r\n");
    confirm(&mut stream);
    assert_eq!(
        stream.next(),
        Pull::Item(Err(Error::UnexpectedResponse(format!("{:?}", Value::Integer(7)))))
    );
}

#[test]
fn a_decode_error_in_the_subscription_is_reported() {
    let connection = Connection::connect();
    let mut stream = connection.subscribe(&channels(&[b"a"])).unwrap();
    stream.receive(b"+first\r\n-ERR gone\r\n");
    confirm(&mut stream);
    assert_eq!(
        stream.next(),
        Pull::Item(Err(Error::RedisError("ERR gone\r\n".to_string())))
    );
}

#[test]
fn psubscribe_writes_the_request() {
    let connection = Connection::connect();
    let mut stream = connection.psubscribe(&channels(&[b"n*"])).unwrap();
    assert_eq!(stream.take_outgoing(), b"*2\r\n$10\r\nPSUBSCRIBE\r\n$2\r\nn*\r\n".to_vec());
}

#[test]
fn pattern_confirmations_carry_the_psubscribe_tag() {
    let connection = Connection::connect();
    let mut stream = connection.psubscribe(&channels(&[b"a*", b"b*"])).unwrap();
    stream.receive(b"*3\r\n$10\r\npsubscribe\r\n$2\r\na*\r\n:1\r\n");
    stream.receive(b"*3\r\n$10\r\npsubscribe\r\n$2\r\nb*\r\n:2\r\n");
    pconfirm(&mut stream);
    assert_eq!(
        pconfirm(&mut stream),
        Value::Array(vec![text(b"psubscribe"), text(b"b*"), Value::Integer(2)])
    );
    assert!(stream.is_confirmed());
    assert_eq!(stream.read_confirmation(), Pull::Finished);
}

#[test]
fn a_later_pattern_confirmation_with_another_tag_is_not_admitted() {
    let connection = Connection::connect();
    let mut stream = connection.psubscribe(&channels(&[b"a*", b"b*"])).unwrap();
    assert!(stream.accepts(&Value::Array(vec![text(b"subscribe")])));
    stream.receive(b"+first\r\n*3\r\n$9\r\nsubscribe\r\n$2\r\nb*\r\n:2\r\n");
    pconfirm(&mut stream);
    let reply = match stream.read_confirmation() {
        Pull::Item(Ok(reply)) => reply,
        other => panic!("unexpected {:?}", other),
    };
    assert!(!stream.accepts(&reply));
    assert!(stream.accepts(&Value::Array(vec![text(b"psubscribe"), text(b"b*")])));
    assert!(!stream.is_confirmed());
}

#[test]
fn pattern_messages_carry_the_pattern_that_matched() {
    let connection = Connection::connect();
    let mut stream = connection.psubscribe(&channels(&[b"n*"])).unwrap();
    stream.receive(b"*3\r\n$10\r\npsubscribe\r\n$2\r\nn*\r\n:1\r\n");
    pconfirm(&mut stream);
    stream.receive(b"*4\r\n$8\r\npmessage\r\n$2\r\nn*\r\n$4\r\nnews\r\n$2\r\nhi\r\n");
    assert_eq!(
        stream.next(),
        Pull::Item(Ok(PMessage {
            pattern: b"n*".to_vec(),
            channel: b"news".to_vec(),
            message: b"hi".to_vec(),
        }))
    );
    stream.receive(b"*3\r\n$7\r\nmessage\r\n$4\r\nnews\r\n$2\r\nhi\r\n");
    match stream.next() {
        Pull::Item(Err(Error::UnexpectedResponse(_))) => {}
        other => panic!("unexpected {:?}", other),
    }
}
