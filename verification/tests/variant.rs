use dbus_pure::de::Deserializer;
use dbus_pure::ser::Serializer;
use dbus_pure::{Endianness, ObjectPath, Signature, UnixFd, Variant};

fn check(signature: &str, expected_serialized: &[u8], expected_variant: Variant) {
    let signature: Signature = signature.parse().unwrap();

    let mut deserializer = Deserializer::new(expected_serialized, 0, Endianness::Little);
    let actual_variant = Variant::deserialize(&mut deserializer, &signature).unwrap();
    assert_eq!(expected_variant, actual_variant);

    let mut serializer = Serializer::new(vec![], Endianness::Little);
    actual_variant.serialize(&mut serializer).unwrap();
    let actual_serialized = serializer.into_inner();
    assert_eq!(expected_serialized, &*actual_serialized);
}

fn check_with_position(signature: &str, expected_serialized: &[u8], expected_variant: Variant) {
    let parsed: Signature = signature.parse().unwrap();

    let mut deserializer = Deserializer::new(expected_serialized, 0, Endianness::Little);
    let actual_variant = Variant::deserialize(&mut deserializer, &parsed).unwrap();
    assert_eq!(expected_variant, actual_variant);

    assert_eq!(deserializer.pos(), expected_serialized.len());

    check(signature, expected_serialized, expected_variant);
}

#[test]
fn test_variant_serde() {
    check_with_position(
        "at",
        b"\
            \x08\x00\x00\x00\
            \x00\x00\x00\x00\
            \x08\x07\x06\x05\
            \x04\x03\x02\x01\
        ",
        Variant::ArrayU64((&[
            0x01020304_05060708_u64,
        ][..]).into()),
    );

    check_with_position(
        "yat",
        b"\
            \x05\
            \x00\x00\x00\
            \x08\x00\x00\x00\
            \x08\x07\x06\x05\
            \x04\x03\x02\x01\
        ",
        Variant::Tuple {
            elements: (&[
                Variant::U8(0x05),
                Variant::ArrayU64((&[
                    0x01020304_05060708_u64,
                ][..]).into()),
            ][..]).into(),
        },
    );

    check_with_position(
        "at",
        b"\
            \x00\x00\x00\x00\
            \x00\x00\x00\x00\
        ",
        Variant::ArrayU64((&[][..]).into()),
    );

    check_with_position(
        "yat",
        b"\
            \x05\
            \x00\x00\x00\
            \x00\x00\x00\x00\
        ",
        Variant::Tuple {
            elements: (&[
                Variant::U8(0x05),
                Variant::ArrayU64((&[][..]).into()),
            ][..]).into(),
        },
    );

    check_with_position(
        "au",
        b"\
            \x08\x00\x00\x00\
            \x04\x03\x02\x01\
            \x08\x07\x06\x05\
        ",
        Variant::ArrayU32((&[
            0x01020304_u32,
            0x05060708_u32,
        ][..]).into()),
    );

    check_with_position(
        "yau",
        b"\
            \x05\
            \x00\x00\x00\
            \x08\x00\x00\x00\
            \x04\x03\x02\x01\
            \x08\x07\x06\x05\
        ",
        Variant::Tuple {
            elements: (&[
                Variant::U8(0x05),
                Variant::ArrayU32((&[
                    0x01020304_u32,
                    0x05060708_u32,
                ][..]).into()),
            ][..]).into(),
        },
    );

    check_with_position(
        "ay",
        b"\
            \x08\x00\x00\x00\
            \x01\x02\x03\x04\
            \x05\x06\x07\x08\
        ",
        Variant::ArrayU8((&[
            0x01, 0x02, 0x03, 0x04,
            0x05, 0x06, 0x07, 0x08,
        ][..]).into()),
    );

    check_with_position(
        "yay",
        b"\
            \x05\
            \x00\x00\x00\
            \x08\x00\x00\x00\
            \x01\x02\x03\x04\
            \x05\x06\x07\x08\
        ",
        Variant::Tuple {
            elements: (&[
                Variant::U8(0x05),
                Variant::ArrayU8((&[
                    0x01, 0x02, 0x03, 0x04,
                    0x05, 0x06, 0x07, 0x08,
                ][..]).into()),
            ][..]).into(),
        },
    );

    check_with_position(
        "b",
        b"\x00\x00\x00\x00",
        Variant::Bool(false),
    );

    check_with_position(
        "b",
        b"\x01\x00\x00\x00",
        Variant::Bool(true),
    );

    check_with_position(
        "yb",
        b"\
            \x05\
            \x00\x00\x00\
            \x01\x00\x00\x00\
        ",
        Variant::Tuple {
            elements: (&[
                Variant::U8(0x05),
                Variant::Bool(true),
            ][..]).into(),
        },
    );

    check_with_position(
        "a{qs}",
        b"\
            \x3D\x00\x00\x00\
            \x00\x00\x00\x00\
            \x02\x01\
            \x00\x00\
            \x15\x00\x00\x00/org/freedesktop/DBus\0\
            \x00\x00\
            \x04\x03\
            \x00\x00\
            \x14\x00\x00\x00org.freedesktop.DBus\0\
        ",
        Variant::Array {
            element_signature: Signature::DictEntry {
                key: Box::new(Signature::U16),
                value: Box::new(Signature::String),
            },
            elements: (&[
                Variant::DictEntry {
                    key: Box::new(Variant::U16(0x0102)),
                    value: Box::new(Variant::String("/org/freedesktop/DBus".into())),
                },
                Variant::DictEntry {
                    key: Box::new(Variant::U16(0x0304)),
                    value: Box::new(Variant::String("org.freedesktop.DBus".into())),
                },
            ][..]).into(),
        },
    );

    check_with_position(
        "ya{qs}",
        b"\
            \x05\
            \x00\x00\x00\
            \x3D\x00\x00\x00\
            \x02\x01\
            \x00\x00\
            \x15\x00\x00\x00/org/freedesktop/DBus\0\
            \x00\x00\
            \x04\x03\
            \x00\x00\
            \x14\x00\x00\x00org.freedesktop.DBus\0\
        ",
        Variant::Tuple {
            elements: (&[
                Variant::U8(0x05),
                Variant::Array {
                    element_signature: Signature::DictEntry {
                        key: Box::new(Signature::U16),
                        value: Box::new(Signature::String),
                    },
                    elements: (&[
                        Variant::DictEntry {
                            key: Box::new(Variant::U16(0x0102)),
                            value: Box::new(Variant::String("/org/freedesktop/DBus".into())),
                        },
                        Variant::DictEntry {
                            key: Box::new(Variant::U16(0x0304)),
                            value: Box::new(Variant::String("org.freedesktop.DBus".into())),
                        },
                    ][..]).into(),
                },
            ][..]).into(),
        },
    );

    check_with_position(
        "d",
        b"\x58\x39\xB4\xC8\x76\xBE\xF3\x3F",
        Variant::F64(1.234_f64.to_bits()),
    );

    check_with_position(
        "yd",
        b"\
            \x05\
            \x00\x00\x00\x00\x00\x00\x00\
            \x58\x39\xB4\xC8\x76\xBE\xF3\x3F\
        ",
        Variant::Tuple {
            elements: (&[
                Variant::U8(0x05),
                Variant::F64(1.234_f64.to_bits()),
            ][..]).into(),
        },
    );

    check_with_position(
        "g",
        b"\0\0",
        Variant::Signature(Signature::Tuple { elements: vec![] }),
    );

    check_with_position(
        "g",
        b"\x01s\0",
        Variant::Signature(Signature::String),
    );

    check_with_position(
        "g",
        b"\x05(aus)\0",
        Variant::Signature(Signature::Struct {
            fields: (&[
                Signature::Array {
                    element: Box::new(Signature::U32),
                },
                Signature::String,
            ][..]).into(),
        }),
    );

    check_with_position(
        "g",
        b"\x05a{us}\0",
        Variant::Signature(
            Signature::Array {
                element: Box::new(Signature::DictEntry {
                    key: Box::new(Signature::U32),
                    value: Box::new(Signature::String),
                }),
            },
        ),
    );

    check_with_position(
        "yg",
        b"\
            \x05\
            \x01s\0\
        ",
        Variant::Tuple {
            elements: (&[
                Variant::U8(0x05),
                Variant::Signature(Signature::String),
            ][..]).into(),
        },
    );

    check_with_position(
        "h",
        b"\x04\x03\x02\x01",
        Variant::UnixFd(UnixFd(0x01020304)),
    );

    check_with_position(
        "yh",
        b"\
            \x05\
            \x00\x00\x00\
            \x04\x03\x02\x01\
        ",
        Variant::Tuple {
            elements: (&[
                Variant::U8(0x05),
                Variant::UnixFd(UnixFd(0x01020304)),
            ][..]).into(),
        },
    );

    check_with_position(
        "i",
        b"\x00\x00\x00\x01",
        Variant::I32(0x01000000),
    );

    check_with_position(
        "yi",
        b"\
            \x05\
            \x00\x00\x00\
            \x04\x03\x02\x01\
        ",
        Variant::Tuple {
            elements: (&[
                Variant::U8(0x05),
                Variant::I32(0x01020304),
            ][..]).into(),
        },
    );

    check_with_position(
        "n",
        b"\x02\x01",
        Variant::I16(0x0102),
    );

    check_with_position(
        "yn",
        b"\
            \x05\
            \x00\
            \x02\x01\
        ",
        Variant::Tuple {
            elements: (&[
                Variant::U8(0x05),
                Variant::I16(0x0102),
            ][..]).into(),
        },
    );

    check_with_position(
        "o",
        b"\x15\x00\x00\x00/org/freedesktop/DBus\0",
        Variant::ObjectPath(ObjectPath("/org/freedesktop/DBus".into())),
    );

    check_with_position(
        "yo",
        b"\
            \x05\
            \x00\x00\x00\
            \x15\x00\x00\x00/org/freedesktop/DBus\0\
        ",
        Variant::Tuple {
            elements: (&[
                Variant::U8(0x05),
                Variant::ObjectPath(ObjectPath("/org/freedesktop/DBus".into())),
            ][..]).into(),
        },
    );

    check_with_position(
        "q",
        b"\x02\x01",
        Variant::U16(0x0102),
    );

    check_with_position(
        "yq",
        b"\
            \x05\
            \x00\
            \x02\x01\
        ",
        Variant::Tuple {
            elements: (&[
                Variant::U8(0x05),
                Variant::U16(0x0102),
            ][..]).into(),
        },
    );

    check_with_position(
        "s",
        b"\x00\x00\x00\x00\0",
        Variant::String("".into()),
    );

    check_with_position(
        "s",
        b"\x14\x00\x00\x00org.freedesktop.DBus\0",
        Variant::String("org.freedesktop.DBus".into()),
    );

    check_with_position(
        "ys",
        b"\
            \x05\
            \x00\x00\x00\
            \x14\x00\x00\x00org.freedesktop.DBus\0\
        ",
        Variant::Tuple {
            elements: (&[
                Variant::U8(0x05),
                Variant::String("org.freedesktop.DBus".into()),
            ][..]).into(),
        },
    );

    check_with_position(
        "t",
        b"\x08\x07\x06\x05\x04\x03\x02\x01",
        Variant::U64(0x01020304_05060708),
    );

    check_with_position(
        "yt",
        b"\
            \x05\
            \x00\x00\x00\x00\x00\x00\x00\
            \x08\x07\x06\x05\x04\x03\x02\x01\
        ",
        Variant::Tuple {
            elements: (&[
                Variant::U8(0x05),
                Variant::U64(0x01020304_05060708),
            ][..]).into(),
        },
    );

    check_with_position(
        "u",
        b"\x04\x03\x02\x01",
        Variant::U32(0x01020304),
    );

    check_with_position(
        "yu",
        b"\
            \x05\
            \x00\x00\x00\
            \x04\x03\x02\x01\
        ",
        Variant::Tuple {
            elements: (&[
                Variant::U8(0x05),
                Variant::U32(0x01020304),
            ][..]).into(),
        },
    );

    check_with_position(
        "v",
        b"\x01s\0\x00\x14\x00\x00\x00org.freedesktop.DBus\0",
        Variant::Variant(Box::new(Variant::String("org.freedesktop.DBus".into()))),
    );

    check_with_position(
        "v",
        b"\
            \x01g\0\
            \0\0\
        ",
        Variant::Variant(Box::new(Variant::Signature(Signature::Tuple { elements: vec![] }))),
    );

    check_with_position(
        "yv",
        b"\
            \x05\
            \x01s\0\x14\x00\x00\x00org.freedesktop.DBus\0\
        ",
        Variant::Tuple {
            elements: (&[
                Variant::U8(0x05),
                Variant::Variant(Box::new(Variant::String("org.freedesktop.DBus".into()))),
            ][..]).into(),
        },
    );

    check_with_position(
        "x",
        b"\x08\x07\x06\x05\x04\x03\x02\x01",
        Variant::I64(0x01020304_05060708),
    );

    check_with_position(
        "yx",
        b"\
            \x05\
            \x00\x00\x00\x00\x00\x00\x00\
            \x08\x07\x06\x05\x04\x03\x02\x01\
        ",
        Variant::Tuple {
            elements: (&[
                Variant::U8(0x05),
                Variant::I64(0x01020304_05060708),
            ][..]).into(),
        },
    );

    check_with_position(
        "y",
        b"\x01",
        Variant::U8(0x01),
    );

    check_with_position(
        "yy",
        b"\
            \x05\
            \x01\
        ",
        Variant::Tuple {
            elements: (&[
                Variant::U8(0x05),
                Variant::U8(0x01),
            ][..]).into(),
        },
    );

    check_with_position(
        "(uos)",
        b"\
            \x04\x03\x02\x01\
            \x15\x00\x00\x00/org/freedesktop/DBus\0\
            \x00\x00\
            \x14\x00\x00\x00org.freedesktop.DBus\0\
        ",
        Variant::Struct {
            fields: (&[
                Variant::U32(0x01020304),
                Variant::ObjectPath(ObjectPath("/org/freedesktop/DBus".into())),
                Variant::String("org.freedesktop.DBus".into()),
            ][..]).into(),
        },
    );

    check_with_position(
        "(uuo(sou)s)",
        b"\
            \x04\x03\x02\x01\
            \x08\x07\x06\x05\
            \x15\x00\x00\x00/org/freedesktop/DBus\0\
            \x00\x00\x00\x00\x00\x00\
                \x14\x00\x00\x00org.freedesktop.DBus\0\
                \x00\x00\x00\
                \x15\x00\x00\x00/org/freedesktop/DBus\0\
                \x00\x00\
                \x04\x03\x02\x01\
            \x14\x00\x00\x00org.freedesktop.DBus\0\
        ",
        Variant::Struct {
            fields: (&[
                Variant::U32(0x01020304),
                Variant::U32(0x05060708),
                Variant::ObjectPath(ObjectPath("/org/freedesktop/DBus".into())),
                Variant::Struct {
                    fields: (&[
                        Variant::String("org.freedesktop.DBus".into()),
                        Variant::ObjectPath(ObjectPath("/org/freedesktop/DBus".into())),
                        Variant::U32(0x01020304),
                    ][..]).into(),
                },
                Variant::String("org.freedesktop.DBus".into()),
            ][..]).into(),
        },
    );

    check_with_position(
        "y(uos)",
        b"\
            \x05\
            \x00\x00\x00\x00\x00\x00\x00\
            \x04\x03\x02\x01\
            \x15\x00\x00\x00/org/freedesktop/DBus\0\
            \x00\x00\
            \x14\x00\x00\x00org.freedesktop.DBus\0\
        ",
        Variant::Tuple {
            elements: (&[
                Variant::U8(0x05),
                Variant::Struct {
                    fields: (&[
                        Variant::U32(0x01020304),
                        Variant::ObjectPath(ObjectPath("/org/freedesktop/DBus".into())),
                        Variant::String("org.freedesktop.DBus".into()),
                    ][..]).into(),
                },
            ][..]).into(),
        },
    );

    check_with_position(
        "uos",
        b"\
            \x04\x03\x02\x01\
            \x15\x00\x00\x00/org/freedesktop/DBus\0\
            \x00\x00\
            \x14\x00\x00\x00org.freedesktop.DBus\0\
        ",
        Variant::Tuple {
            elements: (&[
                Variant::U32(0x01020304),
                Variant::ObjectPath(ObjectPath("/org/freedesktop/DBus".into())),
                Variant::String("org.freedesktop.DBus".into()),
            ][..]).into(),
        },
    );

    check_with_position(
        "a(u)y",
        b"\
            \x00\x00\x00\x00\
            \x00\x00\x00\x00\
            \x03\
        ",
        Variant::Tuple {
            elements: (&[
                Variant::Array {
                    element_signature: Signature::Struct {
                        fields: vec![
                            Signature::U32,
                        ],
                    },
                    elements: (&[][..]).into(),
                },
                Variant::U8(3),
            ][..]).into(),
        },
    );

    check_with_position(
        "ya(u)y",
        b"\
            \x05\
            \x00\x00\x00\
            \x00\x00\x00\x00\
            \x03\
        ",
        Variant::Tuple {
            elements: (&[
                Variant::U8(5),
                Variant::Array {
                    element_signature: Signature::Struct {
                        fields: vec![
                            Signature::U32,
                        ],
                    },
                    elements: (&[][..]).into(),
                },
                Variant::U8(3),
            ][..]).into(),
        },
    );
}

#[test]
fn variant_test_variant_serde() {
    check(
        "at",
        b"\
            \x08\x00\x00\x00\
            \x00\x00\x00\x00\
            \x08\x07\x06\x05\
            \x04\x03\x02\x01\
        ",
        Variant::ArrayU64((&[
            0x01020304_05060708_u64,
        ][..]).into()),
    );

    check(
        "yat",
        b"\
            \x05\
            \x00\x00\x00\
            \x08\x00\x00\x00\
            \x08\x07\x06\x05\
            \x04\x03\x02\x01\
        ",
        Variant::Tuple {
            elements: (&[
                Variant::U8(0x05),
                Variant::ArrayU64((&[
                    0x01020304_05060708_u64,
                ][..]).into()),
            ][..]).into(),
        },
    );

    check(
        "at",
        b"\
            \x00\x00\x00\x00\
            \x00\x00\x00\x00\
        ",
        Variant::ArrayU64((&[][..]).into()),
    );

    check(
        "yat",
        b"\
            \x05\
            \x00\x00\x00\
            \x00\x00\x00\x00\
        ",
        Variant::Tuple {
            elements: (&[
                Variant::U8(0x05),
                Variant::ArrayU64((&[][..]).into()),
            ][..]).into(),
        },
    );

    check(
        "au",
        b"\
            \x08\x00\x00\x00\
            \x04\x03\x02\x01\
            \x08\x07\x06\x05\
        ",
        Variant::ArrayU32((&[
            0x01020304_u32,
            0x05060708_u32,
        ][..]).into()),
    );

    check(
        "yau",
        b"\
            \x05\
            \x00\x00\x00\
            \x08\x00\x00\x00\
            \x04\x03\x02\x01\
            \x08\x07\x06\x05\
        ",
        Variant::Tuple {
            elements: (&[
                Variant::U8(0x05),
                Variant::ArrayU32((&[
                    0x01020304_u32,
                    0x05060708_u32,
                ][..]).into()),
            ][..]).into(),
        },
    );

    check(
        "b",
        b"\x00\x00\x00\x00",
        Variant::Bool(false),
    );

    check(
        "b",
        b"\x01\x00\x00\x00",
        Variant::Bool(true),
    );

    check(
        "yb",
        b"\
            \x05\
            \x00\x00\x00\
            \x01\x00\x00\x00\
        ",
        Variant::Tuple {
            elements: (&[
                Variant::U8(0x05),
                Variant::Bool(true),
            ][..]).into(),
        },
    );

    check(
        "a{qs}",
        b"\
            \x3D\x00\x00\x00\
            \x00\x00\x00\x00\
            \x02\x01\
            \x00\x00\
            \x15\x00\x00\x00/org/freedesktop/DBus\0\
            \x00\x00\
            \x04\x03\
            \x00\x00\
            \x14\x00\x00\x00org.freedesktop.DBus\0\
        ",
        Variant::Array {
            element_signature: Signature::DictEntry {
                key: Box::new(Signature::U16),
                value: Box::new(Signature::String),
            },
            elements: (&[
                Variant::DictEntry {
                    key: Box::new(Variant::U16(0x0102)),
                    value: Box::new(Variant::String("/org/freedesktop/DBus".into())),
                },
                Variant::DictEntry {
                    key: Box::new(Variant::U16(0x0304)),
                    value: Box::new(Variant::String("org.freedesktop.DBus".into())),
                },
            ][..]).into(),
        },
    );

    check(
        "ya{qs}",
        b"\
            \x05\
            \x00\x00\x00\
            \x3D\x00\x00\x00\
            \x02\x01\
            \x00\x00\
            \x15\x00\x00\x00/org/freedesktop/DBus\0\
            \x00\x00\
            \x04\x03\
            \x00\x00\
            \x14\x00\x00\x00org.freedesktop.DBus\0\
        ",
        Variant::Tuple {
            elements: (&[
                Variant::U8(0x05),
                Variant::Array {
                    element_signature: Signature::DictEntry {
                        key: Box::new(Signature::U16),
                        value: Box::new(Signature::String),
                    },
                    elements: (&[
                        Variant::DictEntry {
                            key: Box::new(Variant::U16(0x0102)),
                            value: Box::new(Variant::String("/org/freedesktop/DBus".into())),
                        },
                        Variant::DictEntry {
                            key: Box::new(Variant::U16(0x0304)),
                            value: Box::new(Variant::String("org.freedesktop.DBus".into())),
                        },
                    ][..]).into(),
                },
            ][..]).into(),
        },
    );

    check(
        "d",
        b"\x58\x39\xB4\xC8\x76\xBE\xF3\x3F",
        Variant::F64(1.234_f64.to_bits()),
    );

    check(
        "yd",
        b"\
            \x05\
            \x00\x00\x00\x00\x00\x00\x00\
            \x58\x39\xB4\xC8\x76\xBE\xF3\x3F\
        ",
        Variant::Tuple {
            elements: (&[
                Variant::U8(0x05),
                Variant::F64(1.234_f64.to_bits()),
            ][..]).into(),
        },
    );

    check(
        "g",
        b"\x01s\0",
        Variant::Signature(Signature::String),
    );

    check(
        "g",
        b"\x05(aus)\0",
        Variant::Signature(Signature::Struct {
            fields: (&[
                Signature::Array {
                    element: Box::new(Signature::U32),
                },
                Signature::String,
            ][..]).into(),
        }),
    );

    check(
        "g",
        b"\x05a{us}\0",
        Variant::Signature(
            Signature::Array {
                element: Box::new(Signature::DictEntry {
                    key: Box::new(Signature::U32),
                    value: Box::new(Signature::String),
                }),
            },
        ),
    );

    check(
        "yg",
        b"\
            \x05\
            \x01s\0\
        ",
        Variant::Tuple {
            elements: (&[
                Variant::U8(0x05),
                Variant::Signature(Signature::String),
            ][..]).into(),
        },
    );

    check(
        "h",
        b"\x04\x03\x02\x01",
        Variant::UnixFd(UnixFd(0x01020304)),
    );

    check(
        "yh",
        b"\
            \x05\
            \x00\x00\x00\
            \x04\x03\x02\x01\
        ",
        Variant::Tuple {
            elements: (&[
                Variant::U8(0x05),
                Variant::UnixFd(UnixFd(0x01020304)),
            ][..]).into(),
        },
    );

    check(
        "i",
        b"\x00\x00\x00\x01",
        Variant::I32(0x01000000),
    );

    check(
        "yi",
        b"\
            \x05\
            \x00\x00\x00\
            \x04\x03\x02\x01\
        ",
        Variant::Tuple {
            elements: (&[
                Variant::U8(0x05),
                Variant::I32(0x01020304),
            ][..]).into(),
        },
    );

    check(
        "n",
        b"\x02\x01",
        Variant::I16(0x0102),
    );

    check(
        "yn",
        b"\
            \x05\
            \x00\
            \x02\x01\
        ",
        Variant::Tuple {
            elements: (&[
                Variant::U8(0x05),
                Variant::I16(0x0102),
            ][..]).into(),
        },
    );

    check(
        "o",
        b"\x15\x00\x00\x00/org/freedesktop/DBus\0",
        Variant::ObjectPath(ObjectPath("/org/freedesktop/DBus".into())),
    );

    check(
        "yo",
        b"\
            \x05\
            \x00\x00\x00\
            \x15\x00\x00\x00/org/freedesktop/DBus\0\
        ",
        Variant::Tuple {
            elements: (&[
                Variant::U8(0x05),
                Variant::ObjectPath(ObjectPath("/org/freedesktop/DBus".into())),
            ][..]).into(),
        },
    );

    check(
        "q",
        b"\x02\x01",
        Variant::U16(0x0102),
    );

    check(
        "yq",
        b"\
            \x05\
            \x00\
            \x02\x01\
        ",
        Variant::Tuple {
            elements: (&[
                Variant::U8(0x05),
                Variant::U16(0x0102),
            ][..]).into(),
        },
    );

    check(
        "s",
        b"\x00\x00\x00\x00\0",
        Variant::String("".into()),
    );

    check(
        "s",
        b"\x14\x00\x00\x00org.freedesktop.DBus\0",
        Variant::String("org.freedesktop.DBus".into()),
    );

    check(
        "ys",
        b"\
            \x05\
            \x00\x00\x00\
            \x14\x00\x00\x00org.freedesktop.DBus\0\
        ",
        Variant::Tuple {
            elements: (&[
                Variant::U8(0x05),
                Variant::String("org.freedesktop.DBus".into()),
            ][..]).into(),
        },
    );

    check(
        "t",
        b"\x08\x07\x06\x05\x04\x03\x02\x01",
        Variant::U64(0x01020304_05060708),
    );

    check(
        "yt",
        b"\
            \x05\
            \x00\x00\x00\x00\x00\x00\x00\
            \x08\x07\x06\x05\x04\x03\x02\x01\
        ",
        Variant::Tuple {
            elements: (&[
                Variant::U8(0x05),
                Variant::U64(0x01020304_05060708),
            ][..]).into(),
        },
    );

    check(
        "u",
        b"\x04\x03\x02\x01",
        Variant::U32(0x01020304),
    );

    check(
        "yu",
        b"\
            \x05\
            \x00\x00\x00\
            \x04\x03\x02\x01\
        ",
        Variant::Tuple {
            elements: (&[
                Variant::U8(0x05),
                Variant::U32(0x01020304),
            ][..]).into(),
        },
    );

    check(
        "v",
        b"\x01s\0\x00\x14\x00\x00\x00org.freedesktop.DBus\0",
        Variant::Variant(Box::new(Variant::String("org.freedesktop.DBus".into()))),
    );

    check(
        "yv",
        b"\
            \x05\
            \x01s\0\x14\x00\x00\x00org.freedesktop.DBus\0\
        ",
        Variant::Tuple {
            elements: (&[
                Variant::U8(0x05),
                Variant::Variant(Box::new(Variant::String("org.freedesktop.DBus".into()))),
            ][..]).into(),
        },
    );

    check(
        "x",
        b"\x08\x07\x06\x05\x04\x03\x02\x01",
        Variant::I64(0x01020304_05060708),
    );

    check(
        "yx",
        b"\
            \x05\
            \x00\x00\x00\x00\x00\x00\x00\
            \x08\x07\x06\x05\x04\x03\x02\x01\
        ",
        Variant::Tuple {
            elements: (&[
                Variant::U8(0x05),
                Variant::I64(0x01020304_05060708),
            ][..]).into(),
        },
    );

    check(
        "y",
        b"\x01",
        Variant::U8(0x01),
    );

    check(
        "yy",
        b"\
            \x05\
            \x01\
        ",
        Variant::Tuple {
            elements: (&[
                Variant::U8(0x05),
                Variant::U8(0x01),
            ][..]).into(),
        },
    );

    check(
        "(uos)",
        b"\
            \x04\x03\x02\x01\
            \x15\x00\x00\x00/org/freedesktop/DBus\0\
            \x00\x00\
            \x14\x00\x00\x00org.freedesktop.DBus\0\
        ",
        Variant::Struct {
            fields: (&[
                Variant::U32(0x01020304),
                Variant::ObjectPath(ObjectPath("/org/freedesktop/DBus".into())),
                Variant::String("org.freedesktop.DBus".into()),
            ][..]).into(),
        },
    );

    check(
        "(uuo(sou)s)",
        b"\
            \x04\x03\x02\x01\
            \x08\x07\x06\x05\
            \x15\x00\x00\x00/org/freedesktop/DBus\0\
            \x00\x00\x00\x00\x00\x00\
                \x14\x00\x00\x00org.freedesktop.DBus\0\
                \x00\x00\x00\
                \x15\x00\x00\x00/org/freedesktop/DBus\0\
                \x00\x00\
                \x04\x03\x02\x01\
            \x14\x00\x00\x00org.freedesktop.DBus\0\
        ",
        Variant::Struct {
            fields: (&[
                Variant::U32(0x01020304),
                Variant::U32(0x05060708),
                Variant::ObjectPath(ObjectPath("/org/freedesktop/DBus".into())),
                Variant::Struct {
                    fields: (&[
                        Variant::String("org.freedesktop.DBus".into()),
                        Variant::ObjectPath(ObjectPath("/org/freedesktop/DBus".into())),
                        Variant::U32(0x01020304),
                    ][..]).into(),
                },
                Variant::String("org.freedesktop.DBus".into()),
            ][..]).into(),
        },
    );

    check(
        "y(uos)",
        b"\
            \x05\
            \x00\x00\x00\x00\x00\x00\x00\
            \x04\x03\x02\x01\
            \x15\x00\x00\x00/org/freedesktop/DBus\0\
            \x00\x00\
            \x14\x00\x00\x00org.freedesktop.DBus\0\
        ",
        Variant::Tuple {
            elements: (&[
                Variant::U8(0x05),
                Variant::Struct {
                    fields: (&[
                        Variant::U32(0x01020304),
                        Variant::ObjectPath(ObjectPath("/org/freedesktop/DBus".into())),
                        Variant::String("org.freedesktop.DBus".into()),
                    ][..]).into(),
                },
            ][..]).into(),
        },
    );

    check(
        "uos",
        b"\
            \x04\x03\x02\x01\
            \x15\x00\x00\x00/org/freedesktop/DBus\0\
            \x00\x00\
            \x14\x00\x00\x00org.freedesktop.DBus\0\
        ",
        Variant::Tuple {
            elements: (&[
                Variant::U32(0x01020304),
                Variant::ObjectPath(ObjectPath("/org/freedesktop/DBus".into())),
                Variant::String("org.freedesktop.DBus".into()),
            ][..]).into(),
        },
    );
}
