use dbus_pure::{
    deserialize_message, serialize_message, Client, Connection, ConnectError, CreateClientError,
    Endianness, IoError, MessageFlags, MessageHeader, MessageHeaderField, MessageType,
    MethodCallError, ObjectPath, RecvError, SendError, SerializeError, Signature, Variant,
};

const OK_LINE: &[u8] = b"OK 0123456789abcdef0123456789ABCDEF\r\n";

fn connection() -> Connection {
    Connection::new(OK_LINE, Endianness::Little).unwrap()
}

fn message(message_type: MessageType, serial: u32, body: Option<&Variant>) -> Vec<u8> {
    let mut header = MessageHeader {
        message_type,
        flags: MessageFlags(0),
        body_len: 0,
        serial,
        fields: vec![],
    };
    let mut buf = vec![];
    serialize_message(&mut header, body, &mut buf, Endianness::Little).unwrap();
    buf
}

fn method_return(reply_serial: u32, body: Option<&Variant>) -> Vec<u8> {
    message(MessageType::MethodReturn { reply_serial }, 100 + reply_serial, body)
}

fn signal(member: &str) -> Vec<u8> {
    message(
        MessageType::Signal {
            interface: "a.b".into(),
            member: member.into(),
            path: ObjectPath("/".into()),
        },
        7,
        None,
    )
}

fn named_client() -> Client {
    let mut client = Client::new(connection()).unwrap();
    let _ = client.take_output();
    client.feed(&method_return(1, Some(&Variant::String(":1.42".into())))).unwrap();
    assert_eq!(client.complete_hello(), Ok(true));
    client
}

#[test]
fn new_client_sends_hello_with_serial_one() {
    let mut client = Client::new(connection()).unwrap();
    let output = client.take_output();
    let (header, body, read) = deserialize_message(&output).unwrap();
    assert_eq!(read, output.len());
    assert_eq!(body, None);
    assert_eq!(header.serial, 1);
    assert_eq!(
        header.message_type,
        MessageType::MethodCall {
            member: "Hello".into(),
            path: ObjectPath("/org/freedesktop/DBus".into()),
        }
    );
    assert_eq!(
        header.fields,
        vec![
            MessageHeaderField::Destination("org.freedesktop.DBus".into()),
            MessageHeaderField::Interface("org.freedesktop.DBus".into()),
        ]
    );
    assert_eq!(client.name(), None);
    assert!(client.take_output().is_empty());
}

#[test]
fn hello_reply_gives_the_client_its_name() {
    let mut client = Client::new(connection()).unwrap();
    assert_eq!(client.complete_hello(), Ok(false));
    let reply = method_return(1, Some(&Variant::String(":1.42".into())));
    client.feed(&reply[..10]).unwrap();
    assert_eq!(client.complete_hello(), Ok(false));
    client.feed(&reply[10..]).unwrap();
    assert_eq!(client.complete_hello(), Ok(true));
    assert_eq!(client.name(), Some(&":1.42".to_string()));
}

#[test]
fn hello_reply_without_a_string_is_unexpected() {
    let mut client = Client::new(connection()).unwrap();
    client.feed(&method_return(1, None)).unwrap();
    assert_eq!(
        client.complete_hello(),
        Err(CreateClientError::Hello(MethodCallError::UnexpectedResponse(None)))
    );

    let mut client = Client::new(connection()).unwrap();
    client.feed(&method_return(1, Some(&Variant::U32(1)))).unwrap();
    assert!(matches!(
        client.complete_hello(),
        Err(CreateClientError::Hello(MethodCallError::UnexpectedResponse(Some(_))))
    ));
    assert_eq!(client.name(), None);
}

#[test]
fn hello_error_reply_is_the_error() {
    let mut client = Client::new(connection()).unwrap();
    let body = Variant::String("no".into());
    client
        .feed(&message(
            MessageType::Error { name: "org.freedesktop.DBus.Error.Failed".into(), reply_serial: 1 },
            9,
            Some(&body),
        ))
        .unwrap();
    assert_eq!(
        client.complete_hello(),
        Err(CreateClientError::Hello(MethodCallError::Error(
            "org.freedesktop.DBus.Error.Failed".into(),
            Some(body)
        )))
    );
}

#[test]
fn list_names_end_to_end() {
    let mut client = named_client();
    let serial = client
        .method_call(
            "org.freedesktop.DBus",
            ObjectPath("/org/freedesktop/DBus".into()),
            "org.freedesktop.DBus",
            "ListNames",
            None,
        )
        .unwrap();
    assert_eq!(serial, 2);
    let output = client.take_output();
    let (header, body, _) = deserialize_message(&output).unwrap();
    assert_eq!(body, None);
    assert_eq!(header.serial, 2);
    assert_eq!(
        header.message_type,
        MessageType::MethodCall {
            member: "ListNames".into(),
            path: ObjectPath("/org/freedesktop/DBus".into()),
        }
    );
    assert_eq!(
        header.fields,
        vec![
            MessageHeaderField::Destination("org.freedesktop.DBus".into()),
            MessageHeaderField::Interface("org.freedesktop.DBus".into()),
            MessageHeaderField::Sender(":1.42".into()),
        ]
    );

    assert_eq!(client.method_call_reply(serial), Ok(None));
    let names = vec!["org.freedesktop.DBus".to_string(), ":1.42".to_string()];
    let reply_body = Variant::Tuple { elements: vec![Variant::ArrayString(names.clone())] };
    client.feed(&method_return(serial, Some(&reply_body))).unwrap();
    let body = client.method_call_reply(serial).unwrap().unwrap().unwrap();
    assert_eq!(body.as_array_string(), Some(&names[..]));
}

#[test]
fn method_call_with_parameters_carries_their_signature() {
    let mut client = named_client();
    let parameters = Variant::Tuple {
        elements: vec![Variant::String("a".into()), Variant::U8(1)],
    };
    let serial = client
        .method_call("d", ObjectPath("/p".into()), "i", "m", Some(&parameters))
        .unwrap();
    assert_eq!(serial, 2);
    let (header, body, _) = deserialize_message(&client.take_output()).unwrap();
    assert_eq!(body, Some(parameters));
    assert_eq!(
        header.fields.last(),
        Some(&MessageHeaderField::Signature(Signature::parse("sy").unwrap()))
    );
}

#[test]
fn serials_start_at_one_and_increment() {
    let mut client = Client::new(connection()).unwrap();
    for expected in 2..10 {
        let mut header = MessageHeader {
            message_type: MessageType::MethodReturn { reply_serial: 0 },
            flags: MessageFlags(0),
            body_len: 0,
            serial: 0xDEAD,
            fields: vec![],
        };
        assert_eq!(client.send(&mut header, None), Ok(expected));
        assert_eq!(header.serial, expected);
    }
}

#[test]
fn a_message_that_cannot_be_written_is_not_sent() {
    let mut client = named_client();
    let body = Variant::Signature(Signature::Struct { fields: vec![Signature::U8; 300] });
    assert_eq!(
        client.method_call("d", ObjectPath("/p".into()), "i", "m", Some(&body)),
        Err(MethodCallError::SendRequest(SendError::Serialize(
            SerializeError::ExceedsNumericLimits
        )))
    );
    assert!(client.take_output().is_empty());
}

#[test]
fn a_reply_is_found_behind_other_messages_which_stay_in_order() {
    let mut client = named_client();
    let serial = client
        .method_call("d", ObjectPath("/p".into()), "i", "m", None)
        .unwrap();
    client.feed(&signal("First")).unwrap();
    client.feed(&signal("Second")).unwrap();
    client.feed(&method_return(serial, Some(&Variant::U32(5)))).unwrap();
    client.feed(&signal("Third")).unwrap();

    assert_eq!(client.method_call_reply(serial), Ok(Some(Some(Variant::U32(5)))));
    for member in ["First", "Second", "Third"] {
        let (header, _) = client.recv().unwrap().unwrap();
        assert!(
            matches!(header.message_type, MessageType::Signal { member: ref m, .. } if m == member)
        );
    }
    assert_eq!(client.recv(), Ok(None));
}

#[test]
fn recv_matching_returns_the_second_message_and_recv_the_first() {
    let mut client = named_client();
    client.feed(&signal("First")).unwrap();
    client.feed(&signal("Second")).unwrap();
    let is_second = |header: &MessageHeader, _: Option<&Variant>| {
        matches!(&header.message_type, MessageType::Signal { member, .. } if member == "Second")
    };
    let (header, _) = client.recv_matching(is_second).unwrap().unwrap();
    assert!(matches!(header.message_type, MessageType::Signal { member, .. } if member == "Second"));
    let (header, _) = client.recv().unwrap().unwrap();
    assert!(matches!(header.message_type, MessageType::Signal { member, .. } if member == "First"));
    assert_eq!(client.recv(), Ok(None));
}

#[test]
fn recv_matching_takes_the_first_held_message_that_matches() {
    let mut client = named_client();
    for member in ["A", "B", "C", "B"] {
        client.feed(&signal(member)).unwrap();
    }
    let never = |_: &MessageHeader, _: Option<&Variant>| false;
    assert_eq!(client.recv_matching(never), Ok(None));
    let is_b = |header: &MessageHeader, _: Option<&Variant>| {
        matches!(&header.message_type, MessageType::Signal { member, .. } if member == "B")
    };
    assert!(client.recv_matching(is_b).unwrap().is_some());
    let mut rest = vec![];
    while let Some((header, _)) = client.recv().unwrap() {
        if let MessageType::Signal { member, .. } = header.message_type {
            rest.push(member);
        }
    }
    assert_eq!(rest, ["A", "C", "B"]);
}

#[test]
fn error_reply_is_a_method_call_error() {
    let mut client = named_client();
    let serial = client.method_call("d", ObjectPath("/p".into()), "i", "m", None).unwrap();
    client
        .feed(&message(MessageType::Error { name: "E".into(), reply_serial: serial }, 3, None))
        .unwrap();
    assert_eq!(
        client.method_call_reply(serial),
        Err(MethodCallError::Error("E".into(), None))
    );
}

#[test]
fn bytes_that_are_no_message_are_a_receive_error() {
    let mut client = named_client();
    client.feed(b"xyz").unwrap();
    assert!(matches!(client.recv(), Err(RecvError::Deserialize(_))));
    assert!(matches!(
        client.method_call_reply(1),
        Err(MethodCallError::RecvResponse(RecvError::Deserialize(_)))
    ));
}

#[test]
fn a_read_of_no_bytes_is_an_unexpected_end() {
    let mut client = named_client();
    assert_eq!(client.feed(&[]), Err(RecvError::Io(IoError::UnexpectedEof)));
    let mut connection = connection();
    assert_eq!(connection.feed(&[]), Err(RecvError::Io(IoError::UnexpectedEof)));
}

#[test]
fn set_name_overrides_the_sender() {
    let mut client = named_client();
    client.set_name("other".into());
    client.method_call("d", ObjectPath("/p".into()), "i", "m", None).unwrap();
    let (header, _, _) = deserialize_message(&client.take_output()).unwrap();
    assert_eq!(header.fields.last(), Some(&MessageHeaderField::Sender("other".into())));
}

#[test]
fn connection_sends_and_receives() {
    let mut connection = connection();
    assert_eq!(connection.server_guid(), b"0123456789abcdef0123456789ABCDEF");
    connection.set_write_endianness(Endianness::Big);
    let mut header = MessageHeader {
        message_type: MessageType::MethodReturn { reply_serial: 3 },
        flags: MessageFlags(0),
        body_len: 0,
        serial: 4,
        fields: vec![],
    };
    connection.send(&mut header, Some(&Variant::U16(0x0102))).unwrap();
    let output = connection.take_output();
    assert_eq!(output[0], b'B');
    assert!(connection.take_output().is_empty());

    assert_eq!(connection.recv(), Ok(None));
    connection.feed(&output[..5]).unwrap();
    assert_eq!(connection.recv(), Ok(None));
    connection.feed(&output[5..]).unwrap();
    connection.feed(&output).unwrap();
    for _ in 0..2 {
        let (got, body) = connection.recv().unwrap().unwrap();
        assert_eq!(got.message_type, MessageType::MethodReturn { reply_serial: 3 });
        assert_eq!(body, Some(Variant::U16(0x0102)));
    }
    assert_eq!(connection.recv(), Ok(None));
}

#[test]
fn a_reply_that_is_not_an_acceptance_is_an_authentication_error() {
    let malformed = ConnectError::Authenticate(IoError::MalformedResponse);
    for line in [
        &b"REJECTED EXTERNAL\r\n"[..],
        b"OK 0123456789abcdef0123456789ABCDEF\n",
        b"OK 0123456789abcdef0123456789ABCDEF",
        b"OK 0123456789abcdef0123456789ABCDE\r\n",
        b"OK 0123456789abcdef0123456789ABCDEF0\r\n",
        b"OK 0123456789abcdef0123456789ABCDEG\r\n",
        b"ok 0123456789abcdef0123456789ABCDEF\r\n",
        b"",
    ] {
        assert_eq!(Connection::new(line, Endianness::Little).unwrap_err(), malformed);
    }
    assert!(Connection::new(b"OK 0123456789abcdef0123456789ABCDEF more\r\n", Endianness::Big).is_ok());
}

#[test]
fn client_error_sentences() {
    assert_eq!(IoError::UnexpectedEof.to_string(), "unexpected end of file");
    assert_eq!(IoError::Other("boom".into()).to_string(), "boom");
    assert_eq!(
        ConnectError::MissingSessionBusEnvVar.to_string(),
        "the DBUS_SESSION_BUS_ADDRESS env var is not set"
    );
    assert_eq!(
        ConnectError::Connect(vec![(b"/x".to_vec(), IoError::Other("no".into()))]).to_string(),
        "could not connect to any bus paths"
    );
    assert_eq!(
        ConnectError::UnsupportedTransport(b"tcp:".to_vec()).to_string(),
        "the bus path has an unsupported transport"
    );
    assert_eq!(SendError::Io(IoError::UnexpectedEof).to_string(), "could not send message");
    assert_eq!(RecvError::Io(IoError::UnexpectedEof).to_string(), "could not receive message");
    assert_eq!(
        MethodCallError::UnexpectedResponse(None).to_string(),
        "could not deserialize response body: response has empty body"
    );
    assert_eq!(
        CreateClientError::Hello(MethodCallError::UnexpectedResponse(None)).to_string(),
        "could not complete hello"
    );
}
