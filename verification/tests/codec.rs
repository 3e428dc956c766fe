use dbus_pure::de::Deserializer;
use dbus_pure::ser::Serializer;
use dbus_pure::{DeserializeError, Endianness, ObjectPath, SerializeError, Signature, UnixFd, Variant};

fn decode(signature: &str, bytes: &[u8], endianness: Endianness) -> Result<Variant, DeserializeError> {
    let signature = Signature::parse(signature).unwrap();
    let mut deserializer = Deserializer::new(bytes, 0, endianness);
    Variant::deserialize(&mut deserializer, &signature)
}

fn encode(variant: &Variant, endianness: Endianness) -> Result<Vec<u8>, SerializeError> {
    let mut serializer = Serializer::new(vec![], endianness);
    variant.serialize(&mut serializer)?;
    Ok(serializer.into_inner())
}

#[test]
fn array_of_u64_has_padding_behind_its_count() {
    let bytes = encode(&Variant::ArrayU64(vec![0x0102_0304_0506_0708]), Endianness::Little).unwrap();
    assert_eq!(
        bytes,
        [0x08, 0, 0, 0, 0, 0, 0, 0, 0x08, 0x07, 0x06, 0x05, 0x04, 0x03, 0x02, 0x01]
    );
}

#[test]
fn tuple_of_u8_and_array_of_u64() {
    let value = Variant::Tuple {
        elements: vec![Variant::U8(0x05), Variant::ArrayU64(vec![0x0102_0304_0506_0708])],
    };
    let bytes = encode(&value, Endianness::Little).unwrap();
    assert_eq!(
        bytes,
        [0x05, 0, 0, 0, 0x08, 0, 0, 0, 0x08, 0x07, 0x06, 0x05, 0x04, 0x03, 0x02, 0x01]
    );
}

#[test]
fn array_of_dict_entries_layout() {
    let value = Variant::Array {
        element_signature: Signature::DictEntry {
            key: Box::new(Signature::U16),
            value: Box::new(Signature::String),
        },
        elements: vec![
            Variant::DictEntry {
                key: Box::new(Variant::U16(0x0102)),
                value: Box::new(Variant::String("/org/freedesktop/DBus".into())),
            },
            Variant::DictEntry {
                key: Box::new(Variant::U16(0x0304)),
                value: Box::new(Variant::String("org.freedesktop.DBus".into())),
            },
        ],
    };
    let bytes = encode(&value, Endianness::Little).unwrap();
    let mut expected = vec![0x3D, 0, 0, 0, 0, 0, 0, 0, 0x02, 0x01, 0, 0, 0x15, 0, 0, 0];
    expected.extend_from_slice(b"/org/freedesktop/DBus\0");
    expected.extend_from_slice(&[0, 0, 0x04, 0x03, 0, 0, 0x14, 0, 0, 0]);
    expected.extend_from_slice(b"org.freedesktop.DBus\0");
    assert_eq!(bytes, expected);
    assert_eq!(decode("a{qs}", &bytes, Endianness::Little).unwrap(), value);
}

#[test]
fn signature_of_a_string_is_three_bytes() {
    let bytes = encode(&Variant::Signature(Signature::String), Endianness::Little).unwrap();
    assert_eq!(bytes, [0x01, 0x73, 0x00]);
}

#[test]
fn bool_is_a_32_bit_zero_or_one() {
    assert_eq!(encode(&Variant::Bool(true), Endianness::Little).unwrap(), [1, 0, 0, 0]);
    assert_eq!(encode(&Variant::Bool(false), Endianness::Big).unwrap(), [0, 0, 0, 0]);
    assert_eq!(encode(&Variant::Bool(true), Endianness::Big).unwrap(), [0, 0, 0, 1]);
    let err = decode("b", &[2, 0, 0, 0], Endianness::Little).unwrap_err();
    assert!(matches!(err, DeserializeError::InvalidValue { expected: "0 or 1", .. }));
    if let DeserializeError::InvalidValue { actual, .. } = err {
        assert_eq!(actual, "2");
    }
}

#[test]
fn empty_array_still_pads_to_its_elements() {
    let value = Variant::Tuple {
        elements: vec![Variant::ArrayU64(vec![]), Variant::U8(3)],
    };
    let bytes = encode(&value, Endianness::Little).unwrap();
    assert_eq!(bytes, [0, 0, 0, 0, 0, 0, 0, 0, 3]);
    assert_eq!(decode("aty", &bytes, Endianness::Little).unwrap(), value);
}

#[test]
fn non_zero_padding_is_an_error() {
    let err = decode("yu", &[5, 0, 1, 0, 4, 3, 2, 1], Endianness::Little).unwrap_err();
    assert_eq!(err, DeserializeError::NonZeroPadding { start: 1, end: 4 });
    let err = decode("at", &[0, 0, 0, 0, 0, 9, 0, 0], Endianness::Little).unwrap_err();
    assert_eq!(err, DeserializeError::NonZeroPadding { start: 4, end: 8 });
    let err = decode("y(y)", &[5, 0, 0, 0, 0, 0, 0, 7, 1], Endianness::Little).unwrap_err();
    assert_eq!(err, DeserializeError::NonZeroPadding { start: 1, end: 8 });
}

#[test]
fn short_input_is_end_of_input() {
    assert_eq!(decode("u", &[1, 2, 3], Endianness::Little).unwrap_err(), DeserializeError::EndOfInput);
    assert_eq!(decode("y", &[], Endianness::Little).unwrap_err(), DeserializeError::EndOfInput);
    assert_eq!(
        decode("s", &[5, 0, 0, 0, b'a', b'b'], Endianness::Little).unwrap_err(),
        DeserializeError::EndOfInput
    );
    assert_eq!(
        decode("au", &[8, 0, 0, 0, 1, 0, 0, 0], Endianness::Little).unwrap_err(),
        DeserializeError::EndOfInput
    );
    assert_eq!(decode("yq", &[1], Endianness::Little).unwrap_err(), DeserializeError::EndOfInput);
}

#[test]
fn string_errors() {
    assert_eq!(
        decode("s", &[1, 0, 0, 0, b'a', 1], Endianness::Little).unwrap_err(),
        DeserializeError::StringMissingNulTerminator
    );
    assert_eq!(
        decode("s", &[2, 0, 0, 0, 0xC3, 0x28, 0], Endianness::Little).unwrap_err(),
        DeserializeError::InvalidUtf8
    );
    assert_eq!(
        decode("s", &[2, 0, 0, 0, 0xC3, 0xA9, 0], Endianness::Little).unwrap(),
        Variant::String("é".into())
    );
}

#[test]
fn signature_errors() {
    let err = decode("g", &[1, b's', 1], Endianness::Little).unwrap_err();
    assert!(matches!(err, DeserializeError::InvalidValue { expected: "0x00", .. }));
    let err = decode("g", &[1, b'z', 0], Endianness::Little).unwrap_err();
    assert!(matches!(err, DeserializeError::InvalidValue { expected: "a signature", .. }));
    let err = decode("v", &[4, b'{', b'y', b's', b'}', 0, 1], Endianness::Little).unwrap_err();
    assert!(matches!(err, DeserializeError::InvalidValue { expected: "a signature", .. }));
    assert_eq!(decode("g", &[3, b's'], Endianness::Little).unwrap_err(), DeserializeError::EndOfInput);
}

#[test]
fn big_endian_scalars() {
    let value = Variant::Tuple {
        elements: vec![
            Variant::U16(0x0102),
            Variant::U32(0x0304_0506),
            Variant::U64(0x0708_090a_0b0c_0d0e),
            Variant::I16(-2),
            Variant::I32(-3),
            Variant::I64(-4),
            Variant::F64(1.5_f64.to_bits()),
        ],
    };
    let bytes = encode(&value, Endianness::Big).unwrap();
    let mut expected = vec![0x01, 0x02, 0, 0, 0x03, 0x04, 0x05, 0x06];
    expected.extend_from_slice(&0x0708_090a_0b0c_0d0e_u64.to_be_bytes());
    expected.extend_from_slice(&(-2_i16).to_be_bytes());
    expected.extend_from_slice(&[0, 0]);
    expected.extend_from_slice(&(-3_i32).to_be_bytes());
    expected.extend_from_slice(&(-4_i64).to_be_bytes());
    expected.extend_from_slice(&1.5_f64.to_be_bytes());
    assert_eq!(bytes, expected);
    assert_eq!(decode("qutnixd", &bytes, Endianness::Big).unwrap(), value);
}

#[test]
fn little_endian_signed_extremes() {
    for value in [i64::MIN, -1, 0, 1, i64::MAX] {
        let bytes = encode(&Variant::I64(value), Endianness::Little).unwrap();
        assert_eq!(bytes, value.to_le_bytes());
        assert_eq!(decode("x", &bytes, Endianness::Little).unwrap(), Variant::I64(value));
    }
    for value in [i32::MIN, -1, 0, 1, i32::MAX] {
        let bytes = encode(&Variant::I32(value), Endianness::Little).unwrap();
        assert_eq!(bytes, value.to_le_bytes());
        assert_eq!(decode("i", &bytes, Endianness::Little).unwrap(), Variant::I32(value));
    }
    for value in [i16::MIN, -1, 0, 1, i16::MAX] {
        let bytes = encode(&Variant::I16(value), Endianness::Big).unwrap();
        assert_eq!(bytes, value.to_be_bytes());
        assert_eq!(decode("n", &bytes, Endianness::Big).unwrap(), Variant::I16(value));
    }
}

#[test]
fn specialized_arrays_round_trip() {
    let values = vec![
        ("ab", Variant::ArrayBool(vec![true, false, true])),
        ("ad", Variant::ArrayF64(vec![1.0_f64.to_bits(), f64::NAN.to_bits()])),
        ("an", Variant::ArrayI16(vec![-1, 2])),
        ("ai", Variant::ArrayI32(vec![-1, 2])),
        ("ax", Variant::ArrayI64(vec![-1, 2])),
        ("as", Variant::ArrayString(vec!["a".into(), "".into(), "héllo".into()])),
        ("ay", Variant::ArrayU8(vec![1, 2, 3])),
        ("aq", Variant::ArrayU16(vec![1, 2])),
        ("au", Variant::ArrayU32(vec![1, 2])),
        ("at", Variant::ArrayU64(vec![1, 2])),
        ("ah", Variant::ArrayUnixFd(vec![UnixFd(1), UnixFd(2)])),
    ];
    for endianness in [Endianness::Little, Endianness::Big] {
        for (signature, value) in &values {
            let bytes = encode(value, endianness).unwrap();
            assert_eq!(&decode(signature, &bytes, endianness).unwrap(), value);
            assert_eq!(value.inner_signature().to_string(), *signature);
        }
    }
}

#[test]
fn an_array_of_a_basic_type_is_read_as_the_specialized_array() {
    let generic = Variant::Array {
        element_signature: Signature::U32,
        elements: vec![Variant::U32(1), Variant::U32(2)],
    };
    let bytes = encode(&generic, Endianness::Little).unwrap();
    assert_eq!(bytes, [8, 0, 0, 0, 1, 0, 0, 0, 2, 0, 0, 0]);
    assert_eq!(decode("au", &bytes, Endianness::Little).unwrap(), Variant::ArrayU32(vec![1, 2]));
}

#[test]
fn an_array_element_of_no_bytes_is_an_error() {
    let err = decode("a()", &[8, 0, 0, 0, 0, 0, 0, 0, 0, 0, 0, 0, 0, 0, 0, 0], Endianness::Little)
        .unwrap_err();
    assert!(matches!(
        err,
        DeserializeError::InvalidValue { expected: "an array element of at least one byte", .. }
    ));
    assert_eq!(
        decode("a()", &[0, 0, 0, 0, 0, 0, 0, 0], Endianness::Little).unwrap(),
        Variant::Array { element_signature: Signature::Struct { fields: vec![] }, elements: vec![] }
    );
}

#[test]
fn variant_in_variant() {
    let value = Variant::Variant(Box::new(Variant::Struct {
        fields: vec![Variant::U8(1), Variant::Variant(Box::new(Variant::U32(7)))],
    }));
    let bytes = encode(&value, Endianness::Little).unwrap();
    assert_eq!(
        bytes,
        [4, b'(', b'y', b'v', b')', 0, 0, 0, 1, 1, b'u', 0, 7, 0, 0, 0]
    );
    assert_eq!(decode("v", &bytes, Endianness::Little).unwrap(), value);
}

#[test]
fn a_signature_of_more_than_255_bytes_cannot_be_written() {
    let long = Signature::Struct { fields: vec![Signature::U8; 300] };
    assert_eq!(
        encode(&Variant::Signature(long.clone()), Endianness::Little).unwrap_err(),
        SerializeError::ExceedsNumericLimits
    );
    let fits = Signature::Struct { fields: vec![Signature::U8; 253] };
    assert_eq!(encode(&Variant::Signature(fits), Endianness::Little).unwrap().len(), 257);
    let value = Variant::Variant(Box::new(Variant::Array {
        element_signature: long,
        elements: vec![],
    }));
    assert_eq!(encode(&value, Endianness::Little).unwrap_err(), SerializeError::ExceedsNumericLimits);
}

#[test]
fn positions_count_from_the_start_of_the_message() {
    let mut serializer = Serializer::new(vec![0xAA, 0xBB, 0xCC], Endianness::Little);
    serializer.serialize_u8(1);
    serializer.serialize_u32(2);
    assert_eq!(serializer.into_inner(), [0xAA, 0xBB, 0xCC, 1, 0, 0, 0, 2, 0, 0, 0]);

    let bytes = [0xFF, 0, 0, 0, 7, 0, 0, 0];
    let mut deserializer = Deserializer::new(&bytes, 1, Endianness::Little);
    assert_eq!(deserializer.deserialize_u32().unwrap(), 7);
    assert_eq!(deserializer.pos(), 8);
}

#[test]
fn deserializer_primitives() {
    let bytes = [1, 0, 2, 0, 3, 0, 0, 0, 4, 0, 0, 0, 0, 0, 0, 0, 1, 0, 0, 0, 2, 0, 0, 0, b'h', b'i', 0];
    let mut d = Deserializer::new(&bytes, 0, Endianness::Little);
    assert_eq!(d.deserialize_u8().unwrap(), 1);
    assert_eq!(d.deserialize_u16().unwrap(), 2);
    assert_eq!(d.deserialize_i32().unwrap(), 3);
    assert_eq!(d.deserialize_f64().unwrap(), 4);
    assert!(d.deserialize_bool().unwrap());
    assert_eq!(d.deserialize_string().unwrap(), "hi");
    assert!(d.at_end());
    assert_eq!(d.deserialize_u8().unwrap_err(), DeserializeError::EndOfInput);

    let mut d = Deserializer::new(&bytes, 0, Endianness::Big);
    assert_eq!(d.deserialize_u16().unwrap(), 0x0100);
    d.set_endianness(Endianness::Little);
    assert_eq!(d.deserialize_u16().unwrap(), 2);
    assert_eq!(d.deserialize_i32().unwrap(), 3);
    d.pad_to(8).unwrap();
    assert_eq!(d.pos(), 8);
    assert_eq!(d.deserialize_i64().unwrap(), 4);
    assert_eq!(d.deserialize_u32().unwrap(), 1);
    assert_eq!(d.deserialize_array_u8().unwrap(), b"hi");
    d.deserialize_struct().unwrap_err();
}

#[test]
fn serializer_primitives() {
    let mut s = Serializer::new(vec![], Endianness::Little);
    s.serialize_u8(1);
    s.serialize_i16(-2);
    s.serialize_bool(true);
    s.serialize_string("hi").unwrap();
    s.serialize_struct();
    s.serialize_u16(3);
    s.serialize_array_u8(&[9, 8]).unwrap();
    s.serialize_i64(-1);
    assert_eq!(s.len(), 40);
    assert_eq!(
        s.into_inner(),
        [
            1, 0, 0xFE, 0xFF, 1, 0, 0, 0, 2, 0, 0, 0, b'h', b'i', 0, 0, 3, 0, 0, 0, 2, 0, 0, 0, 9,
            8, 0, 0, 0, 0, 0, 0, 0xFF, 0xFF, 0xFF, 0xFF, 0xFF, 0xFF, 0xFF, 0xFF
        ]
    );
}

#[test]
fn object_path_and_unix_fd() {
    let mut s = Serializer::new(vec![], Endianness::Little);
    ObjectPath("/a".into()).serialize(&mut s).unwrap();
    UnixFd(5).serialize(&mut s);
    let bytes = s.into_inner();
    assert_eq!(bytes, [2, 0, 0, 0, b'/', b'a', 0, 0, 5, 0, 0, 0]);
    let mut d = Deserializer::new(&bytes, 0, Endianness::Little);
    assert_eq!(ObjectPath::deserialize(&mut d).unwrap(), ObjectPath("/a".into()));
    assert_eq!(UnixFd::deserialize(&mut d).unwrap(), UnixFd(5));
    assert_eq!(ObjectPath("/a".into()).into_owned(), ObjectPath("/a".into()));
}

#[test]
fn accessors() {
    let array = Variant::Array { element_signature: Signature::Variant, elements: vec![Variant::Variant(Box::new(Variant::U8(1)))] };
    assert_eq!(array.as_array(&Signature::Variant).unwrap().len(), 1);
    assert!(array.as_array(&Signature::U8).is_none());
    assert!(Variant::U8(1).as_array(&Signature::U8).is_none());
    assert_eq!(Variant::ArrayString(vec!["a".into()]).as_array_string().unwrap(), ["a".to_string()]);
    assert!(Variant::U8(1).as_array_string().is_none());
    assert_eq!(Variant::Bool(true).as_bool(), Some(true));
    assert_eq!(Variant::U8(1).as_bool(), None);
    assert_eq!(Variant::String("x".into()).as_string(), Some("x"));
    assert_eq!(Variant::U8(1).as_string(), None);
    assert_eq!(Variant::U32(7).as_u32(), Some(7));
    assert_eq!(Variant::U8(1).as_u32(), None);
    assert_eq!(Variant::Variant(Box::new(Variant::U8(1))).as_variant(), Some(&Variant::U8(1)));
    assert_eq!(Variant::U8(1).as_variant(), None);
    assert_eq!(Variant::U8(1).into_owned(), Variant::U8(1));
    assert_eq!(array.clone(), array);
}

#[test]
fn inner_signature_of_each_kind() {
    let value = Variant::Struct {
        fields: vec![
            Variant::DictEntry { key: Box::new(Variant::U8(1)), value: Box::new(Variant::Bool(true)) },
            Variant::Tuple { elements: vec![Variant::ObjectPath(ObjectPath("/".into())), Variant::UnixFd(UnixFd(0))] },
            Variant::Array { element_signature: Signature::Variant, elements: vec![] },
            Variant::Signature(Signature::U8),
            Variant::F64(0),
        ],
    };
    assert_eq!(value.inner_signature().to_string(), "({yb}ohavgd)");
}

#[test]
fn into_string() {
    assert_eq!(Variant::String("a".into()).into_string().unwrap(), "a");
    assert_eq!(Variant::ObjectPath(ObjectPath("/a".into())).into_string().unwrap(), "/a");
    assert_eq!(
        Variant::Signature(Signature::Array { element: Box::new(Signature::U8) }).into_string().unwrap(),
        "ay"
    );
    assert_eq!(
        Variant::Variant(Box::new(Variant::String("b".into()))).into_string().unwrap(),
        "b"
    );
    let err = Variant::U32(1).into_string().unwrap_err();
    assert!(matches!(
        err,
        dbus_pure::VariantDeserializeError::InvalidValue { expected: "a string", .. }
    ));
    assert!(err.to_string().starts_with("expected a string but got "));
}

#[test]
fn codec_error_sentences() {
    assert_eq!(DeserializeError::EndOfInput.to_string(), "end of input");
    assert_eq!(
        DeserializeError::NonZeroPadding { start: 1, end: 4 }.to_string(),
        "padding contains a byte other than 0x00 between positions 1 and 4"
    );
    assert_eq!(
        DeserializeError::InvalidValue { expected: "0 or 1", actual: "2".into() }.to_string(),
        "expected 0 or 1 but got 2"
    );
    assert_eq!(
        DeserializeError::MissingRequiredMessageHeaderField {
            method_name: "SIGNAL",
            header_field_name: "PATH"
        }
        .to_string(),
        "SIGNAL message is missing PATH required header field"
    );
    assert_eq!(SerializeError::ExceedsNumericLimits.to_string(), "value exceeds numeric limits");
}

#[test]
fn an_array_is_written_and_read_in_steps() {
    let mut s = Serializer::new(vec![], Endianness::Little);
    s.serialize_u8(1);
    let mark = s.serialize_array(8);
    assert_eq!(mark.count_at, 4);
    assert_eq!(mark.first_at, 8);
    s.serialize_u64(2);
    s.serialize_u64(3);
    s.finish_array(mark).unwrap();
    let bytes = s.into_inner();
    assert_eq!(&bytes[..8], [1, 0, 0, 0, 16, 0, 0, 0]);

    let mut d = Deserializer::new(&bytes, 0, Endianness::Little);
    assert_eq!(d.deserialize_u8().unwrap(), 1);
    let mut elements = d.deserialize_array(8).unwrap();
    assert_eq!(d.pos(), 24);
    assert_eq!(elements.pos(), 8);
    assert_eq!(elements.deserialize_u64().unwrap(), 2);
    assert!(!elements.at_end());
    assert_eq!(elements.deserialize_u64().unwrap(), 3);
    assert!(elements.at_end());
    assert_eq!(elements.deserialize_u8().unwrap_err(), DeserializeError::EndOfInput);
}

#[test]
fn a_failed_read_leaves_the_position() {
    let bytes = [5, 0, 0, 0, 2, 0, 0, 0, b'a'];
    let mut d = Deserializer::new(&bytes, 0, Endianness::Little);
    assert_eq!(d.deserialize_u8().unwrap(), 5);
    assert_eq!(d.deserialize_string().unwrap_err(), DeserializeError::EndOfInput);
    assert_eq!(d.pos(), 1);
    let signature = Signature::parse("(su)").unwrap();
    assert_eq!(
        Variant::deserialize(&mut d, &signature).unwrap_err(),
        DeserializeError::NonZeroPadding { start: 1, end: 8 }
    );
    assert_eq!(d.pos(), 1);
    let signature = Signature::parse("ub").unwrap();
    assert!(Variant::deserialize(&mut d, &signature).is_err());
    assert_eq!(d.pos(), 1);
    assert_eq!(d.deserialize_u32().unwrap(), 2);
    assert_eq!(d.pos(), 8);
    d.seek(0);
    assert_eq!(d.deserialize_u8().unwrap(), 5);
}

#[test]
fn a_failed_write_leaves_the_serializer() {
    let long = Signature::Struct { fields: vec![Signature::U8; 300] };
    let value = Variant::Struct {
        fields: vec![Variant::U64(1), Variant::Signature(long)],
    };
    let mut s = Serializer::new(vec![9], Endianness::Little);
    s.serialize_u8(1);
    assert_eq!(value.serialize(&mut s).unwrap_err(), SerializeError::ExceedsNumericLimits);
    assert_eq!(s.len(), 2);
    s.serialize_u16(2);
    s.truncate(2);
    assert_eq!(s.into_inner(), [9, 1]);
}
