use dbus_pure::{
    deserialize_message, message_flags, serialize_message, DeserializeError, Endianness,
    MessageFlags, MessageHeader, MessageHeaderField, MessageType, ObjectPath, SerializeError,
    Signature, Variant,
};

fn hello_call() -> MessageHeader {
    MessageHeader {
        message_type: MessageType::MethodCall {
            member: "Hello".into(),
            path: ObjectPath("/org/freedesktop/DBus".into()),
        },
        flags: MessageFlags(message_flags::NONE),
        body_len: 0,
        serial: 1,
        fields: vec![
            MessageHeaderField::Destination("org.freedesktop.DBus".into()),
            MessageHeaderField::Interface("org.freedesktop.DBus".into()),
        ],
    }
}

fn hello_call_bytes() -> Vec<u8> {
    let mut expected = vec![b'l', 1, 0, 1, 0, 0, 0, 0, 1, 0, 0, 0, 0x6e, 0, 0, 0];
    expected.extend_from_slice(&[6, 1, b's', 0, 0x14, 0, 0, 0]);
    expected.extend_from_slice(b"org.freedesktop.DBus\0");
    expected.extend_from_slice(&[0, 0, 0]);
    expected.extend_from_slice(&[2, 1, b's', 0, 0x14, 0, 0, 0]);
    expected.extend_from_slice(b"org.freedesktop.DBus\0");
    expected.extend_from_slice(&[0, 0, 0]);
    expected.extend_from_slice(&[3, 1, b's', 0, 5, 0, 0, 0]);
    expected.extend_from_slice(b"Hello\0");
    expected.extend_from_slice(&[0, 0]);
    expected.extend_from_slice(&[1, 1, b'o', 0, 0x15, 0, 0, 0]);
    expected.extend_from_slice(b"/org/freedesktop/DBus\0");
    expected.extend_from_slice(&[0, 0]);
    expected
}

#[test]
fn method_call_without_body_is_written_bit_exactly() {
    let mut header = hello_call();
    let mut buf = vec![];
    serialize_message(&mut header, None, &mut buf, Endianness::Little).unwrap();
    assert_eq!(buf.len(), 128);
    assert_eq!(buf, hello_call_bytes());
}

#[test]
fn serializing_moves_the_mandatory_fields_into_the_field_list() {
    let mut header = hello_call();
    let mut buf = vec![];
    serialize_message(&mut header, None, &mut buf, Endianness::Little).unwrap();
    assert_eq!(
        header.fields,
        vec![
            MessageHeaderField::Destination("org.freedesktop.DBus".into()),
            MessageHeaderField::Interface("org.freedesktop.DBus".into()),
            MessageHeaderField::Member("Hello".into()),
            MessageHeaderField::Path(ObjectPath("/org/freedesktop/DBus".into())),
        ]
    );
    assert_eq!(
        header.message_type,
        MessageType::MethodCall { member: "".into(), path: ObjectPath("".into()) }
    );
    assert_eq!(header.body_len, 0);
}

#[test]
fn deserializing_moves_the_mandatory_fields_into_the_type() {
    let bytes = hello_call_bytes();
    let (header, body, read) = deserialize_message(&bytes).unwrap();
    assert_eq!(read, 128);
    assert_eq!(body, None);
    assert_eq!(header, hello_call());
    assert_eq!(header.clone().into_owned(), hello_call());
}

#[test]
fn message_is_appended_to_the_buffer() {
    let mut header = hello_call();
    let mut buf = vec![0xEE; 3];
    serialize_message(&mut header, None, &mut buf, Endianness::Little).unwrap();
    assert_eq!(&buf[..3], [0xEE; 3]);
    assert_eq!(&buf[3..], hello_call_bytes());
}

#[test]
fn message_with_body_round_trips_in_both_byte_orders() {
    for endianness in [Endianness::Little, Endianness::Big] {
        let body = Variant::Tuple {
            elements: vec![
                Variant::String("abc".into()),
                Variant::ArrayU32(vec![1, 2, 3]),
                Variant::Variant(Box::new(Variant::Bool(true))),
            ],
        };
        let mut header = MessageHeader {
            message_type: MessageType::Signal {
                interface: "a.b".into(),
                member: "C".into(),
                path: ObjectPath("/d".into()),
            },
            flags: MessageFlags(message_flags::NO_REPLY_EXPECTED) | MessageFlags(0x80),
            body_len: 0,
            serial: 0x0102_0304,
            fields: vec![
                MessageHeaderField::Sender(":1.1".into()),
                MessageHeaderField::UnixFds(0),
                MessageHeaderField::Unknown { code: 200, value: Variant::ArrayU8(vec![1, 2]) },
            ],
        };
        let mut buf = vec![];
        serialize_message(&mut header, Some(&body), &mut buf, endianness).unwrap();
        assert_eq!(buf[0], if endianness == Endianness::Little { b'l' } else { b'B' });
        assert_eq!(buf[2], 0x81);
        assert!(header.body_len > 0);
        assert_eq!(
            header.fields.last(),
            Some(&MessageHeaderField::Signature(Signature::parse("sauv").unwrap()))
        );

        let (got, got_body, read) = deserialize_message(&buf).unwrap();
        assert_eq!(read, buf.len());
        assert_eq!(got_body, Some(body));
        assert_eq!(
            got.message_type,
            MessageType::Signal {
                interface: "a.b".into(),
                member: "C".into(),
                path: ObjectPath("/d".into()),
            }
        );
        assert_eq!(got.flags, MessageFlags(0x81));
        assert_eq!(got.serial, 0x0102_0304);
        assert_eq!(got.body_len, header.body_len);
        assert_eq!(
            got.fields,
            vec![
                MessageHeaderField::Sender(":1.1".into()),
                MessageHeaderField::UnixFds(0),
                MessageHeaderField::Unknown { code: 200, value: Variant::ArrayU8(vec![1, 2]) },
                MessageHeaderField::Signature(Signature::parse("sauv").unwrap()),
            ]
        );
    }
}

#[test]
fn a_second_message_in_the_buffer_is_left_alone() {
    let mut buf = hello_call_bytes();
    buf.extend_from_slice(&hello_call_bytes()[..40]);
    let (_, _, read) = deserialize_message(&buf).unwrap();
    assert_eq!(read, 128);
    assert_eq!(deserialize_message(&buf[read..]).unwrap_err(), DeserializeError::EndOfInput);
}

#[test]
fn a_message_that_is_cut_short_is_end_of_input() {
    let bytes = hello_call_bytes();
    for len in [0, 1, 3, 15, 16, 60, 127] {
        assert_eq!(deserialize_message(&bytes[..len]).unwrap_err(), DeserializeError::EndOfInput);
    }
}

#[test]
fn a_wrong_marker_is_an_invalid_value() {
    let mut bytes = hello_call_bytes();
    bytes[0] = b'x';
    let err = deserialize_message(&bytes).unwrap_err();
    assert!(matches!(err, DeserializeError::InvalidValue { expected: "b'B' or b'l'", .. }));
}

#[test]
fn a_wrong_protocol_version_is_an_invalid_value() {
    let mut bytes = hello_call_bytes();
    bytes[3] = 2;
    let err = deserialize_message(&bytes).unwrap_err();
    assert!(matches!(err, DeserializeError::InvalidValue { expected: "0x01", .. }));
}

#[test]
fn an_unknown_message_type_is_an_invalid_value() {
    let mut bytes = hello_call_bytes();
    bytes[1] = 9;
    let err = deserialize_message(&bytes).unwrap_err();
    assert!(matches!(
        err,
        DeserializeError::InvalidValue { expected: "one of 0x01, 0x02, 0x03, 0x04", .. }
    ));
}

fn reply_with_fields(message_type: u8, fields: &[MessageHeaderField]) -> Vec<u8> {
    // A method return carries no field of its own making here: write it as a
    // method return with the reply serial among the given fields, then set
    // the type.
    let mut header = MessageHeader {
        message_type: MessageType::MethodReturn { reply_serial: 0 },
        flags: MessageFlags(0),
        body_len: 0,
        serial: 5,
        fields: fields.to_vec(),
    };
    let mut buf = vec![];
    serialize_message(&mut header, None, &mut buf, Endianness::Little).unwrap();
    buf[1] = message_type;
    buf
}

#[test]
fn a_missing_mandatory_field_is_an_error() {
    let cases: [(u8, Vec<MessageHeaderField>, &str, &str); 6] = [
        (1, vec![], "METHOD_CALL", "MEMBER"),
        (1, vec![MessageHeaderField::Member("m".into())], "METHOD_CALL", "PATH"),
        (3, vec![], "ERROR", "NAME"),
        (4, vec![], "SIGNAL", "INTERFACE"),
        (4, vec![MessageHeaderField::Interface("i".into())], "SIGNAL", "MEMBER"),
        (
            4,
            vec![MessageHeaderField::Interface("i".into()), MessageHeaderField::Member("m".into())],
            "SIGNAL",
            "PATH",
        ),
    ];
    for (message_type, fields, method_name, header_field_name) in cases {
        assert_eq!(
            deserialize_message(&reply_with_fields(message_type, &fields)).unwrap_err(),
            DeserializeError::MissingRequiredMessageHeaderField { method_name, header_field_name }
        );
    }
}

#[test]
fn the_last_field_of_a_kind_is_the_one_of_the_type() {
    let bytes = reply_with_fields(
        3,
        &[
            MessageHeaderField::ErrorName("first".into()),
            MessageHeaderField::Member("kept".into()),
            MessageHeaderField::ErrorName("second".into()),
        ],
    );
    let (header, _, _) = deserialize_message(&bytes).unwrap();
    assert_eq!(header.message_type, MessageType::Error { name: "second".into(), reply_serial: 0 });
    assert_eq!(header.fields, vec![MessageHeaderField::Member("kept".into())]);
}

#[test]
fn a_known_field_of_the_wrong_type_is_an_invalid_value() {
    let bytes = reply_with_fields(
        2,
        &[MessageHeaderField::Unknown { code: 6, value: Variant::U32(1) }],
    );
    let err = deserialize_message(&bytes).unwrap_err();
    assert!(matches!(err, DeserializeError::InvalidValue { expected: "a string", .. }));
    let bytes = reply_with_fields(
        2,
        &[MessageHeaderField::Unknown { code: 1, value: Variant::String("x".into()) }],
    );
    let err = deserialize_message(&bytes).unwrap_err();
    assert!(matches!(err, DeserializeError::InvalidValue { expected: "an object path", .. }));
}

#[test]
fn a_body_without_a_signature_field_is_an_error() {
    let mut bytes = reply_with_fields(2, &[]);
    bytes[4] = 4;
    bytes.extend_from_slice(&[1, 0, 0, 0]);
    assert_eq!(
        deserialize_message(&bytes).unwrap_err(),
        DeserializeError::MissingRequiredMessageHeaderField {
            method_name: "body-containing",
            header_field_name: "SIGNATURE"
        }
    );
}

#[test]
fn a_body_that_cannot_be_written_is_an_error_and_leaves_the_buffer() {
    let body = Variant::Signature(Signature::Struct { fields: vec![Signature::U8; 300] });
    let mut header = hello_call();
    let mut buf = vec![1, 2, 3];
    assert_eq!(
        serialize_message(&mut header, Some(&body), &mut buf, Endianness::Little).unwrap_err(),
        SerializeError::ExceedsNumericLimits
    );
    assert_eq!(buf, [1, 2, 3]);
}

#[test]
fn flags_are_combined_bit_wise() {
    let flags = MessageFlags(message_flags::NO_AUTO_START)
        | MessageFlags(message_flags::ALLOW_INTERACTIVE_AUTHORIZATION);
    assert_eq!(flags, MessageFlags(6));
    assert_eq!(MessageFlags(message_flags::NONE) | flags, flags);
}

#[test]
fn a_body_length_of_more_than_32_bits_cannot_be_written() {
    let mut header = hello_call();
    header.body_len = (u32::MAX as usize).saturating_add(1);
    if header.body_len > u32::MAX as usize {
        let mut buf = vec![];
        assert_eq!(
            serialize_message(&mut header, None, &mut buf, Endianness::Big).unwrap_err(),
            SerializeError::ExceedsNumericLimits
        );
        assert!(buf.is_empty());
    }
}

#[test]
fn a_body_length_without_a_body_is_written_as_it_is() {
    let mut header = hello_call();
    header.body_len = 5;
    let mut buf = vec![];
    serialize_message(&mut header, None, &mut buf, Endianness::Little).unwrap();
    assert_eq!(&buf[4..8], [5, 0, 0, 0]);
    assert_eq!(header.body_len, 5);
}
