//! Reading and writing whole messages.

use crate::de::{DeserializeError, Deserializer};
use crate::element::{array_first, encode_array, read_then, written_then};
use crate::endian::{lemma_uint_bytes_len, Endianness};
use crate::message::{
    field_views, MessageFlags, MessageHeader, MessageHeaderField, MessageType,
    SpecMessageHeaderField,
};
use crate::message_wire::{
    decode_field, decode_fixed_header, decode_header, decode_header_fields, decode_message,
    encode_body, encode_field, encode_fields, encode_fixed_header, encode_header,
    encode_message, endianness_of, field_of, first_signature, header_as_written, is_mandatory,
    last_error_name, last_interface, last_member, last_path, last_reply_serial, marker_of,
    message_type_of, other_fields, MARKER_BIG, MARKER_LITTLE, PROTOCOL_VERSION,
};
use crate::ser::{SerializeError, Serializer};
use crate::signature::Signature;
use crate::text::{debug_text, decimal_string};
use crate::types::{ObjectPath, UsizeAsU32};
use crate::variant::Variant;
use crate::variant_ser::{lemma_extends, lemma_extends_self, lemma_with};
use crate::variant_wire::encode;
use crate::wire::{aligned, decode_u8, encode_signature, encode_uint, padding_len, zeros};
use vstd::prelude::*;
use vstd::slice::slice_subrange;

verus! {

/// The mathematical value of a string that may be there.
pub open spec fn text_of(s: Option<String>) -> Option<Seq<char>> {
    match s {
        Some(s) => Some(s@),
        None => None,
    }
}

/// The mathematical value of an object path that may be there.
pub open spec fn path_of(p: Option<ObjectPath>) -> Option<Seq<char>> {
    match p {
        Some(p) => Some(p@),
        None => None,
    }
}

impl MessageHeaderField {
    /// The code of this header field on the wire.
    pub fn code(&self) -> (c: u8)
        ensures
            c == self@.code(),
    {
        match self {
            MessageHeaderField::Path(_) => 1,
            MessageHeaderField::Interface(_) => 2,
            MessageHeaderField::Member(_) => 3,
            MessageHeaderField::ErrorName(_) => 4,
            MessageHeaderField::ReplySerial(_) => 5,
            MessageHeaderField::Destination(_) => 6,
            MessageHeaderField::Sender(_) => 7,
            MessageHeaderField::Signature(_) => 8,
            MessageHeaderField::UnixFds(_) => 9,
            MessageHeaderField::Unknown { code, value: _ } => *code,
        }
    }

    /// The value of this header field on the wire.
    pub fn value(&self) -> (v: Variant)
        ensures
            v@ == self@.value(),
    {
        match self {
            MessageHeaderField::Path(v) => Variant::ObjectPath(v.clone()),
            MessageHeaderField::Interface(v) => Variant::String(v.clone()),
            MessageHeaderField::Member(v) => Variant::String(v.clone()),
            MessageHeaderField::ErrorName(v) => Variant::String(v.clone()),
            MessageHeaderField::ReplySerial(v) => Variant::U32(*v),
            MessageHeaderField::Destination(v) => Variant::String(v.clone()),
            MessageHeaderField::Sender(v) => Variant::String(v.clone()),
            MessageHeaderField::Signature(v) => Variant::Signature(v.clone()),
            MessageHeaderField::UnixFds(v) => Variant::U32(*v),
            MessageHeaderField::Unknown { code: _, value } => value.clone(),
        }
    }

    /// The header field with the code `code` and the value `value`.
    pub fn from_code_and_value(code: u8, value: Variant) -> (r: Result<Self, DeserializeError>)
        ensures
            match field_of(code, value@) {
                Ok(f) => r matches Ok(x) && x@ == f,
                Err(e) => r matches Err(err) && err@ == e,
            },
    {
        if code == 1 {
            match value {
                Variant::ObjectPath(v) => Ok(MessageHeaderField::Path(v)),
                other => Err(
                    DeserializeError::InvalidValue {
                        expected: "an object path",
                        actual: debug_text(&other),
                    },
                ),
            }
        } else if code == 2 {
            match value {
                Variant::String(v) => Ok(MessageHeaderField::Interface(v)),
                other => Err(
                    DeserializeError::InvalidValue {
                        expected: "a string",
                        actual: debug_text(&other),
                    },
                ),
            }
        } else if code == 3 {
            match value {
                Variant::String(v) => Ok(MessageHeaderField::Member(v)),
                other => Err(
                    DeserializeError::InvalidValue {
                        expected: "a string",
                        actual: debug_text(&other),
                    },
                ),
            }
        } else if code == 4 {
            match value {
                Variant::String(v) => Ok(MessageHeaderField::ErrorName(v)),
                other => Err(
                    DeserializeError::InvalidValue {
                        expected: "a string",
                        actual: debug_text(&other),
                    },
                ),
            }
        } else if code == 5 {
            match value {
                Variant::U32(v) => Ok(MessageHeaderField::ReplySerial(v)),
                other => Err(
                    DeserializeError::InvalidValue { expected: "a u32", actual: debug_text(&other) },
                ),
            }
        } else if code == 6 {
            match value {
                Variant::String(v) => Ok(MessageHeaderField::Destination(v)),
                other => Err(
                    DeserializeError::InvalidValue {
                        expected: "a string",
                        actual: debug_text(&other),
                    },
                ),
            }
        } else if code == 7 {
            match value {
                Variant::String(v) => Ok(MessageHeaderField::Sender(v)),
                other => Err(
                    DeserializeError::InvalidValue {
                        expected: "a string",
                        actual: debug_text(&other),
                    },
                ),
            }
        } else if code == 8 {
            match value {
                Variant::Signature(v) => Ok(MessageHeaderField::Signature(v)),
                other => Err(
                    DeserializeError::InvalidValue {
                        expected: "a signature",
                        actual: debug_text(&other),
                    },
                ),
            }
        } else if code == 9 {
            match value {
                Variant::U32(v) => Ok(MessageHeaderField::UnixFds(v)),
                other => Err(
                    DeserializeError::InvalidValue { expected: "a u32", actual: debug_text(&other) },
                ),
            }
        } else {
            Ok(MessageHeaderField::Unknown { code, value })
        }
    }

    /// Reads a header field: a struct of a code of one byte and a variant.
    pub fn deserialize(deserializer: &mut Deserializer<'_>) -> (r: Result<Self, DeserializeError>)
        ensures
            final(deserializer)@.buf == old(deserializer)@.buf,
            final(deserializer)@.endianness == old(deserializer)@.endianness,
            match decode_field(
                old(deserializer)@.buf,
                old(deserializer)@.pos,
                old(deserializer)@.endianness,
            ) {
                Ok((f, p)) => r matches Ok(x) && x@ == f && final(deserializer)@.pos == p && old(
                    deserializer,
                )@.pos < p <= old(deserializer)@.buf.len(),
                Err(e) => r matches Err(err) && err@ == e && final(deserializer)@.pos == old(deserializer)@.pos,
            },
    {
        let start = deserializer.pos();
        let r = MessageHeaderField::read(deserializer);
        if r.is_err() {
            deserializer.seek(start);
        }
        r
    }

    /// Reads a header field. Where it fails, the position is where the read
    /// ended.
    fn read(deserializer: &mut Deserializer<'_>) -> (r: Result<Self, DeserializeError>)
        ensures
            final(deserializer)@.buf == old(deserializer)@.buf,
            final(deserializer)@.endianness == old(deserializer)@.endianness,
            match decode_field(
                old(deserializer)@.buf,
                old(deserializer)@.pos,
                old(deserializer)@.endianness,
            ) {
                Ok((f, p)) => r matches Ok(x) && x@ == f && final(deserializer)@.pos == p && old(
                    deserializer,
                )@.pos < p <= old(deserializer)@.buf.len(),
                Err(e) => r matches Err(err) && err@ == e,
            },
    {
        proof {
            deserializer.lemma_view();
        }
        match deserializer.deserialize_struct() {
            Ok(()) => {},
            Err(err) => {
                return Err(err);
            },
        }
        let code = match deserializer.deserialize_u8() {
            Ok(code) => code,
            Err(err) => {
                return Err(err);
            },
        };
        let signature = match Signature::deserialize(deserializer) {
            Ok(signature) => signature,
            Err(err) => {
                return Err(err);
            },
        };
        let value = match Variant::deserialize(deserializer, &signature) {
            Ok(value) => value,
            Err(err) => {
                return Err(err);
            },
        };
        MessageHeaderField::from_code_and_value(code, value)
    }

    /// Writes this header field: a struct of its code and of its value as a
    /// variant.
    ///
    /// Where it fails, the serializer is as it was.
    pub fn serialize(&self, serializer: &mut Serializer) -> (r: Result<(), SerializeError>)
        requires
            old(serializer)@.wf(),
        ensures
            final(serializer)@.extends(old(serializer)@),
            match encode_field(self@, old(serializer)@.pos(), old(serializer)@.endianness) {
                Some(bytes) => r is Ok && final(serializer)@ == old(serializer)@.with(bytes),
                None => r is Err && final(serializer)@ == old(serializer)@,
            },
    {
        let len = serializer.len();
        let r = self.write(serializer);
        if r.is_err() {
            serializer.truncate(len);
            assert(serializer@.buf =~= old(serializer)@.buf);
        }
        proof {
            lemma_extends_self(old(serializer)@);
        }
        r
    }

    /// Writes this header field. Where it fails, the serializer holds what
    /// was written until then.
    fn write(&self, serializer: &mut Serializer) -> (r: Result<(), SerializeError>)
        requires
            old(serializer)@.wf(),
        ensures
            final(serializer)@.extends(old(serializer)@),
            match encode_field(self@, old(serializer)@.pos(), old(serializer)@.endianness) {
                Some(bytes) => r is Ok && final(serializer)@ == old(serializer)@.with(bytes),
                None => r is Err,
            },
    {
        let ghost before = serializer@;
        let ghost e = before.endianness;
        let code = self.code();
        let value = self.value();
        serializer.serialize_struct();
        let ghost padded = serializer@;
        serializer.serialize_u8(code);
        let ghost coded = serializer@;
        proof {
            lemma_with(before, zeros(padding_len(before.pos(), 8)), seq![code]);
            lemma_with(padded, seq![code], Seq::empty());
            lemma_extends(before, padded, coded);
        }
        let signature = value.inner_signature();
        match signature.serialize(serializer) {
            Ok(()) => {},
            Err(err) => {
                return Err(err);
            },
        }
        let ghost s = encode_signature(self@.value().inner_signature())->0;
        let ghost signed = serializer@;
        proof {
            lemma_with(before, zeros(padding_len(before.pos(), 8)) + seq![code], s);
            lemma_with(coded, s, Seq::empty());
            lemma_extends(before, coded, signed);
        }
        match value.serialize(serializer) {
            Ok(()) => {},
            Err(err) => {
                proof {
                    lemma_extends(before, signed, serializer@);
                }
                return Err(err);
            },
        }
        proof {
            let v = encode(self@.value(), signed.pos(), e)->0;
            lemma_with(before, zeros(padding_len(before.pos(), 8)) + seq![code] + s, v);
            lemma_with(before, zeros(padding_len(before.pos(), 8)) + seq![code] + s + v, Seq::empty());
        }
        Ok(())
    }
}

impl MessageFlags {
    pub fn deserialize(deserializer: &mut Deserializer<'_>) -> (r: Result<Self, DeserializeError>)
        ensures
            final(deserializer)@.buf == old(deserializer)@.buf,
            final(deserializer)@.endianness == old(deserializer)@.endianness,
            match decode_u8(old(deserializer)@.buf, old(deserializer)@.pos) {
                Ok((v, p)) => r == Ok::<MessageFlags, DeserializeError>(MessageFlags(v))
                    && final(deserializer)@.pos == p,
                Err(e) => r matches Err(err) && err@ == e && final(deserializer)@.pos == old(deserializer)@.pos,
            },
    {
        match deserializer.deserialize_u8() {
            Ok(v) => Ok(MessageFlags(v)),
            Err(err) => Err(err),
        }
    }

    pub fn serialize(self, serializer: &mut Serializer)
        requires
            old(serializer)@.wf(),
        ensures
            final(serializer)@ == old(serializer)@.with(seq![self.0]),
    {
        serializer.serialize_u8(self.0);
    }
}

/// The first byte of a message, which tells its byte order.
#[derive(Clone, Copy, Debug)]
pub struct EndiannessMarker(pub Endianness);

impl EndiannessMarker {
    pub fn deserialize(deserializer: &mut Deserializer<'_>) -> (r: Result<Self, DeserializeError>)
        ensures
            final(deserializer)@.buf == old(deserializer)@.buf,
            final(deserializer)@.endianness == old(deserializer)@.endianness,
            match decode_u8(old(deserializer)@.buf, old(deserializer)@.pos) {
                Ok((marker, p)) => match endianness_of(marker) {
                    Some(e) => r matches Ok(m) && m.0 == e && final(deserializer)@.pos == p,
                    None => r matches Err(err) && err@ == crate::message_wire::invalid(
                        "b'B' or b'l'"@,
                        crate::text::decimal_text(marker as nat),
                    ) && final(deserializer)@.pos == old(deserializer)@.pos,
                },
                Err(e) => r matches Err(err) && err@ == e && final(deserializer)@.pos == old(deserializer)@.pos,
            },
    {
        let start = deserializer.pos();
        let marker = match deserializer.deserialize_u8() {
            Ok(marker) => marker,
            Err(err) => {
                return Err(err);
            },
        };
        if marker == MARKER_BIG {
            Ok(EndiannessMarker(Endianness::Big))
        } else if marker == MARKER_LITTLE {
            Ok(EndiannessMarker(Endianness::Little))
        } else {
            deserializer.seek(start);
            Err(
                DeserializeError::InvalidValue {
                    expected: "b'B' or b'l'",
                    actual: decimal_string(marker as u32),
                },
            )
        }
    }

    pub fn serialize(self, serializer: &mut Serializer)
        requires
            old(serializer)@.wf(),
        ensures
            final(serializer)@ == old(serializer)@.with(seq![marker_of(self.0)]),
    {
        let marker = match self.0 {
            Endianness::Big => MARKER_BIG,
            Endianness::Little => MARKER_LITTLE,
        };
        serializer.serialize_u8(marker);
    }
}

impl MessageType {
    /// The message type with the code `message_type` of a message with the
    /// header fields `fields`, and the fields that the type need not have.
    ///
    /// Each field that the type must have is taken from the last field of
    /// its kind; a message that lacks one is an error, and so is a code
    /// that is none of 1, 2, 3 and 4.
    pub fn from(message_type: u8, fields: Vec<MessageHeaderField>) -> (r: Result<
        (Self, Vec<MessageHeaderField>),
        DeserializeError,
    >)
        ensures
            match message_type_of(message_type, field_views(fields@)) {
                Ok(t) => r matches Ok((found, others)) && found@ == t && field_views(others@)
                    == other_fields(message_type, field_views(fields@)),
                Err(e) => r matches Err(err) && err@ == e,
            },
    {
        let ghost views = field_views(fields@);
        let mut other: Vec<MessageHeaderField> = Vec::new();
        let mut error_name_field: Option<String> = None;
        let mut interface_field: Option<String> = None;
        let mut member_field: Option<String> = None;
        let mut path_field: Option<ObjectPath> = None;
        let mut reply_serial_field: Option<u32> = None;
        let mut i: usize = 0;
        proof {
            assert(views.take(0) =~= Seq::<SpecMessageHeaderField>::empty());
            assert(field_views(other@) =~= Seq::<SpecMessageHeaderField>::empty());
        }
        while i < fields.len()
            invariant
                i <= fields@.len(),
                views == field_views(fields@),
                field_views(other@) == other_fields(message_type, views.take(i as int)),
                message_type == 3 ==> text_of(error_name_field) == last_error_name(
                    views.take(i as int),
                ),
                message_type == 4 ==> text_of(interface_field) == last_interface(
                    views.take(i as int),
                ),
                message_type == 1 || message_type == 4 ==> text_of(member_field) == last_member(
                    views.take(i as int),
                ),
                message_type == 1 || message_type == 4 ==> path_of(path_field) == last_path(
                    views.take(i as int),
                ),
                message_type == 2 || message_type == 3 ==> reply_serial_field == last_reply_serial(
                    views.take(i as int),
                ),
            decreases fields.len() - i,
        {
            let ghost before = field_views(other@);
            proof {
                assert(views.take(i + 1).drop_last() =~= views.take(i as int));
                assert(views.take(i + 1).last() == fields@[i as int]@);
            }
            match &fields[i] {
                MessageHeaderField::ErrorName(name) => {
                    if message_type == 3 {
                        error_name_field = Some(name.clone());
                    } else {
                        other.push(MessageHeaderField::ErrorName(name.clone()));
                    }
                },
                MessageHeaderField::Interface(name) => {
                    if message_type == 4 {
                        interface_field = Some(name.clone());
                    } else {
                        other.push(MessageHeaderField::Interface(name.clone()));
                    }
                },
                MessageHeaderField::Member(name) => {
                    if message_type == 1 || message_type == 4 {
                        member_field = Some(name.clone());
                    } else {
                        other.push(MessageHeaderField::Member(name.clone()));
                    }
                },
                MessageHeaderField::Path(path) => {
                    if message_type == 1 || message_type == 4 {
                        path_field = Some(path.clone());
                    } else {
                        other.push(MessageHeaderField::Path(path.clone()));
                    }
                },
                MessageHeaderField::ReplySerial(serial) => {
                    if message_type == 2 || message_type == 3 {
                        reply_serial_field = Some(*serial);
                    } else {
                        other.push(MessageHeaderField::ReplySerial(*serial));
                    }
                },
                field => {
                    other.push(field.clone());
                },
            }
            proof {
                if !is_mandatory(message_type, fields@[i as int]@) {
                    assert(field_views(other@) =~= before.push(fields@[i as int]@));
                }
            }
            i += 1;
        }
        assert(views.take(fields@.len() as int) =~= views);
        if message_type == 1 {
            let member = match member_field {
                Some(member) => member,
                None => {
                    return Err(
                        DeserializeError::MissingRequiredMessageHeaderField {
                            method_name: "METHOD_CALL",
                            header_field_name: "MEMBER",
                        },
                    );
                },
            };
            let path = match path_field {
                Some(path) => path,
                None => {
                    return Err(
                        DeserializeError::MissingRequiredMessageHeaderField {
                            method_name: "METHOD_CALL",
                            header_field_name: "PATH",
                        },
                    );
                },
            };
            Ok((MessageType::MethodCall { member, path }, other))
        } else if message_type == 2 {
            let reply_serial = match reply_serial_field {
                Some(reply_serial) => reply_serial,
                None => {
                    return Err(
                        DeserializeError::MissingRequiredMessageHeaderField {
                            method_name: "METHOD_RETURN",
                            header_field_name: "REPLY_SERIAL",
                        },
                    );
                },
            };
            Ok((MessageType::MethodReturn { reply_serial }, other))
        } else if message_type == 3 {
            let name = match error_name_field {
                Some(name) => name,
                None => {
                    return Err(
                        DeserializeError::MissingRequiredMessageHeaderField {
                            method_name: "ERROR",
                            header_field_name: "NAME",
                        },
                    );
                },
            };
            let reply_serial = match reply_serial_field {
                Some(reply_serial) => reply_serial,
                None => {
                    return Err(
                        DeserializeError::MissingRequiredMessageHeaderField {
                            method_name: "ERROR",
                            header_field_name: "REPLY_SERIAL",
                        },
                    );
                },
            };
            Ok((MessageType::Error { name, reply_serial }, other))
        } else if message_type == 4 {
            let interface = match interface_field {
                Some(interface) => interface,
                None => {
                    return Err(
                        DeserializeError::MissingRequiredMessageHeaderField {
                            method_name: "SIGNAL",
                            header_field_name: "INTERFACE",
                        },
                    );
                },
            };
            let member = match member_field {
                Some(member) => member,
                None => {
                    return Err(
                        DeserializeError::MissingRequiredMessageHeaderField {
                            method_name: "SIGNAL",
                            header_field_name: "MEMBER",
                        },
                    );
                },
            };
            let path = match path_field {
                Some(path) => path,
                None => {
                    return Err(
                        DeserializeError::MissingRequiredMessageHeaderField {
                            method_name: "SIGNAL",
                            header_field_name: "PATH",
                        },
                    );
                },
            };
            Ok((MessageType::Signal { interface, member, path }, other))
        } else {
            Err(
                DeserializeError::InvalidValue {
                    expected: "one of 0x01, 0x02, 0x03, 0x04",
                    actual: decimal_string(message_type as u32),
                },
            )
        }
    }

    /// Writes the code of this message type.
    pub fn serialize(&self, serializer: &mut Serializer)
        requires
            old(serializer)@.wf(),
        ensures
            final(serializer)@ == old(serializer)@.with(seq![self@.code()]),
    {
        let code: u8 = match self {
            MessageType::Error { .. } => 3,
            MessageType::MethodCall { .. } => 1,
            MessageType::MethodReturn { .. } => 2,
            MessageType::Signal { .. } => 4,
        };
        serializer.serialize_u8(code);
    }

    /// The header fields that a message of this type must have, in the
    /// order in which they are written.
    pub fn mandatory_fields(&self) -> (r: Vec<MessageHeaderField>)
        ensures
            field_views(r@) == self@.mandatory_fields(),
    {
        let mut out: Vec<MessageHeaderField> = Vec::new();
        match self {
            MessageType::Error { name, reply_serial } => {
                out.push(MessageHeaderField::ErrorName(name.clone()));
                out.push(MessageHeaderField::ReplySerial(*reply_serial));
            },
            MessageType::MethodCall { member, path } => {
                out.push(MessageHeaderField::Member(member.clone()));
                out.push(MessageHeaderField::Path(path.clone()));
            },
            MessageType::MethodReturn { reply_serial } => {
                out.push(MessageHeaderField::ReplySerial(*reply_serial));
            },
            MessageType::Signal { interface, member, path } => {
                out.push(MessageHeaderField::Interface(interface.clone()));
                out.push(MessageHeaderField::Member(member.clone()));
                out.push(MessageHeaderField::Path(path.clone()));
            },
        }
        assert(field_views(out@) =~= self@.mandatory_fields());
        out
    }

    /// This message type with its strings emptied.
    pub fn emptied(&self) -> (r: MessageType)
        ensures
            r@ == self@.emptied(),
    {
        match self {
            MessageType::Error { name: _, reply_serial } => MessageType::Error {
                name: String::new(),
                reply_serial: *reply_serial,
            },
            MessageType::MethodCall { .. } => MessageType::MethodCall {
                member: String::new(),
                path: ObjectPath(String::new()),
            },
            MessageType::MethodReturn { reply_serial } => MessageType::MethodReturn {
                reply_serial: *reply_serial,
            },
            MessageType::Signal { .. } => MessageType::Signal {
                interface: String::new(),
                member: String::new(),
                path: ObjectPath(String::new()),
            },
        }
    }
}

impl MessageHeader {
    /// Reads the header fields up to the end of the buffer.
    fn deserialize_fields(deserializer: &mut Deserializer<'_>) -> (r: Result<
        Vec<MessageHeaderField>,
        DeserializeError,
    >)
        requires
            old(deserializer)@.pos <= old(deserializer)@.buf.len(),
        ensures
            final(deserializer)@.buf == old(deserializer)@.buf,
            final(deserializer)@.endianness == old(deserializer)@.endianness,
            match decode_header_fields(
                old(deserializer)@.buf,
                old(deserializer)@.pos,
                old(deserializer)@.endianness,
            ) {
                Ok(fields) => r matches Ok(v) && field_views(v@) == fields,
                Err(e) => r matches Err(err) && err@ == e,
            },
    {
        let ghost buf = deserializer@.buf;
        let ghost first = deserializer@.pos;
        let ghost e = deserializer@.endianness;
        let mut fields: Vec<MessageHeaderField> = Vec::new();
        proof {
            match decode_header_fields(buf, first, e) {
                Ok(rest) => {
                    assert(field_views(fields@) + rest =~= rest);
                },
                Err(_) => {},
            }
        }
        while !deserializer.at_end()
            invariant
                buf == old(deserializer)@.buf,
                first == old(deserializer)@.pos,
                e == old(deserializer)@.endianness,
                deserializer@.buf == buf,
                deserializer@.endianness == e,
                first <= deserializer@.pos <= buf.len(),
                decode_header_fields(buf, first, e) == read_then(
                    field_views(fields@),
                    decode_header_fields(buf, deserializer@.pos, e),
                ),
            decreases buf.len() - deserializer@.pos,
        {
            let ghost done = field_views(fields@);
            let field = match MessageHeaderField::deserialize(deserializer) {
                Ok(field) => field,
                Err(err) => {
                    return Err(err);
                },
            };
            fields.push(field);
            proof {
                assert(field_views(fields@) =~= done.push(field@));
                match decode_header_fields(buf, deserializer@.pos, e) {
                    Ok(rest) => {
                        assert(done + (seq![field@] + rest) =~= done.push(field@) + rest);
                    },
                    Err(_) => {},
                }
            }
        }
        assert(field_views(fields@) + Seq::<SpecMessageHeaderField>::empty() =~= field_views(
            fields@,
        ));
        Ok(fields)
    }

    /// Reads the fixed part of a header: the code of the type, the flags,
    /// the version, which must be 1, the count of the bytes of the body,
    /// and the serial.
    fn deserialize_fixed(deserializer: &mut Deserializer<'_>) -> (r: Result<
        (u8, MessageFlags, u32, u32),
        DeserializeError,
    >)
        ensures
            final(deserializer)@.buf == old(deserializer)@.buf,
            final(deserializer)@.endianness == old(deserializer)@.endianness,
            match decode_fixed_header(
                old(deserializer)@.buf,
                old(deserializer)@.pos,
                old(deserializer)@.endianness,
            ) {
                Ok(((type_code, flags, body_len, serial), p)) => r == Ok::<
                    (u8, MessageFlags, u32, u32),
                    DeserializeError,
                >((type_code, MessageFlags(flags), body_len, serial)) && final(deserializer)@.pos
                    == p,
                Err(e) => r matches Err(err) && err@ == e,
            },
    {
        let type_code = match deserializer.deserialize_u8() {
            Ok(v) => v,
            Err(err) => {
                return Err(err);
            },
        };
        let flags = match MessageFlags::deserialize(deserializer) {
            Ok(v) => v,
            Err(err) => {
                return Err(err);
            },
        };
        let protocol_version = match deserializer.deserialize_u8() {
            Ok(v) => v,
            Err(err) => {
                return Err(err);
            },
        };
        if protocol_version != PROTOCOL_VERSION {
            return Err(
                DeserializeError::InvalidValue {
                    expected: "0x01",
                    actual: decimal_string(protocol_version as u32),
                },
            );
        }
        let body_len = match deserializer.deserialize_u32() {
            Ok(v) => v,
            Err(err) => {
                return Err(err);
            },
        };
        let serial = match deserializer.deserialize_u32() {
            Ok(v) => v,
            Err(err) => {
                return Err(err);
            },
        };
        Ok((type_code, flags, body_len, serial))
    }

    /// Reads a header: the fixed part and the array of the header fields.
    /// The fields that the message type must have are put in the type; the
    /// others stay among the fields.
    pub fn deserialize(deserializer: &mut Deserializer<'_>) -> (r: Result<Self, DeserializeError>)
        ensures
            final(deserializer)@.buf == old(deserializer)@.buf,
            final(deserializer)@.endianness == old(deserializer)@.endianness,
            match decode_header(
                old(deserializer)@.buf,
                old(deserializer)@.pos,
                old(deserializer)@.endianness,
            ) {
                Ok((h, p)) => r matches Ok(x) && x@ == h && final(deserializer)@.pos == p,
                Err(e) => r matches Err(err) && err@ == e && final(deserializer)@.pos == old(deserializer)@.pos,
            },
    {
        let start = deserializer.pos();
        let r = MessageHeader::read(deserializer);
        if r.is_err() {
            deserializer.seek(start);
        }
        r
    }

    /// Reads a header. Where it fails, the position is where the read ended.
    fn read(deserializer: &mut Deserializer<'_>) -> (r: Result<Self, DeserializeError>)
        ensures
            final(deserializer)@.buf == old(deserializer)@.buf,
            final(deserializer)@.endianness == old(deserializer)@.endianness,
            match decode_header(
                old(deserializer)@.buf,
                old(deserializer)@.pos,
                old(deserializer)@.endianness,
            ) {
                Ok((h, p)) => r matches Ok(x) && x@ == h && final(deserializer)@.pos == p,
                Err(e) => r matches Err(err) && err@ == e,
            },
    {
        let (type_code, flags, body_len, serial) = match MessageHeader::deserialize_fixed(
            deserializer,
        ) {
            Ok(fixed) => fixed,
            Err(err) => {
                return Err(err);
            },
        };
        let mut inner = match deserializer.deserialize_array(8) {
            Ok(inner) => inner,
            Err(err) => {
                return Err(err);
            },
        };
        let fields = match MessageHeader::deserialize_fields(&mut inner) {
            Ok(fields) => fields,
            Err(err) => {
                return Err(err);
            },
        };
        let (message_type, fields) = match MessageType::from(type_code, fields) {
            Ok(found) => found,
            Err(err) => {
                return Err(err);
            },
        };
        Ok(MessageHeader { message_type, flags, body_len: body_len as usize, serial, fields })
    }

    /// Writes the header fields `fields` one after the other.
    fn serialize_fields(fields: &Vec<MessageHeaderField>, serializer: &mut Serializer) -> (r: Result<
        (),
        SerializeError,
    >)
        requires
            old(serializer)@.wf(),
        ensures
            final(serializer)@.extends(old(serializer)@),
            match encode_fields(
                field_views(fields@),
                old(serializer)@.pos(),
                old(serializer)@.endianness,
            ) {
                Some(bytes) => r is Ok && final(serializer)@ == old(serializer)@.with(bytes),
                None => r is Err,
            },
    {
        let ghost before = serializer@;
        let ghost e = before.endianness;
        let ghost fs = field_views(fields@);
        proof {
            lemma_with(before, Seq::empty(), Seq::empty());
            lemma_extends_self(before);
            assert(fs.skip(0) =~= fs);
            assert(before.buf.skip(before.buf.len() as int) =~= Seq::<u8>::empty());
        }
        let mut i: usize = 0;
        while i < fields.len()
            invariant
                i <= fields@.len(),
                fs == field_views(fields@),
                before == old(serializer)@,
                before.wf(),
                e == before.endianness,
                serializer@.extends(before),
                encode_fields(fs, before.pos(), e) == written_then(
                    serializer@.buf.skip(before.buf.len() as int),
                    encode_fields(fs.skip(i as int), serializer@.pos(), e),
                ),
            decreases fields.len() - i,
        {
            let ghost here = serializer@;
            let ghost done = here.buf.skip(before.buf.len() as int);
            proof {
                lemma_extends_self(before);
                lemma_extends(before, before, here);
                assert(fs.skip(i as int)[0] == fields@[i as int]@);
                assert(fs.skip(i as int).drop_first() =~= fs.skip(i + 1));
            }
            match fields[i].serialize(serializer) {
                Ok(()) => {},
                Err(err) => {
                    proof {
                        lemma_extends(before, here, serializer@);
                    }
                    return Err(err);
                },
            }
            proof {
                let bytes = encode_field(fields@[i as int]@, here.pos(), e)->0;
                lemma_with(here, bytes, Seq::empty());
                lemma_extends(before, here, serializer@);
                assert(serializer@.buf.skip(before.buf.len() as int) =~= done + bytes);
                match encode_fields(fs.skip(i + 1), serializer@.pos(), e) {
                    Some(rest) => {
                        assert(done + (bytes + rest) =~= (done + bytes) + rest);
                    },
                    None => {},
                }
            }
            i += 1;
        }
        proof {
            let body = serializer@.buf.skip(before.buf.len() as int);
            assert(fs.skip(fields@.len() as int) =~= Seq::<SpecMessageHeaderField>::empty());
            assert(body + Seq::<u8>::empty() =~= body);
            assert(serializer@.buf =~= before.buf + body);
        }
        Ok(())
    }

    /// Writes the fixed part of this header: the code of the type, the flags,
    /// the version, the count of the bytes of the body, where it fits in 32
    /// bits, and the serial.
    fn serialize_fixed(&self, serializer: &mut Serializer) -> (r: Result<(), SerializeError>)
        requires
            old(serializer)@.wf(),
        ensures
            final(serializer)@.extends(old(serializer)@),
            self@.body_len <= u32::MAX ==> r is Ok && final(serializer)@ == old(serializer)@.with(
                encode_fixed_header(self@, old(serializer)@.pos(), old(serializer)@.endianness),
            ),
            self@.body_len > u32::MAX ==> r is Err,
    {
        let ghost before = serializer@;
        let ghost e = before.endianness;
        let ghost start = seq![self@.message_type.code(), self@.flags, PROTOCOL_VERSION];
        proof {
            lemma_extends_self(before);
        }
        self.message_type.serialize(serializer);
        self.flags.serialize(serializer);
        serializer.serialize_u8(PROTOCOL_VERSION);
        let ghost s3 = serializer@;
        proof {
            lemma_with(before, seq![self@.message_type.code()], seq![self@.flags]);
            lemma_with(before, seq![self@.message_type.code()] + seq![self@.flags], seq![
                PROTOCOL_VERSION,
            ]);
            assert(seq![self@.message_type.code()] + seq![self@.flags] + seq![PROTOCOL_VERSION]
                =~= start);
            lemma_with(before, start, Seq::empty());
        }
        match UsizeAsU32(self.body_len).serialize(serializer) {
            Ok(()) => {},
            Err(err) => {
                return Err(err);
            },
        }
        serializer.serialize_u32(self.serial);
        proof {
            let count = encode_uint(self@.body_len, 4, before.pos() + 3, e);
            lemma_with(before, start, count);
            lemma_with(before, start + count, Seq::empty());
            lemma_with(
                before,
                start + count,
                encode_uint(self@.serial as nat, 4, before.pos() + 3 + count.len(), e),
            );
            lemma_with(before, encode_fixed_header(self@, before.pos(), e), Seq::empty());
        }
        Ok(())
    }

    /// Writes the array of the header fields `fields`.
    fn serialize_field_array(
        fields: &Vec<MessageHeaderField>,
        serializer: &mut Serializer,
    ) -> (r: Result<(), SerializeError>)
        requires
            old(serializer)@.wf(),
        ensures
            final(serializer)@.extends(old(serializer)@),
            match encode_array(
                encode_fields(field_views(fields@), array_first(old(serializer)@.pos(), 8), old(
                    serializer,
                )@.endianness),
                old(serializer)@.pos(),
                8,
                old(serializer)@.endianness,
            ) {
                Some(bytes) => r is Ok && final(serializer)@ == old(serializer)@.with(bytes),
                None => r is Err,
            },
    {
        let ghost before = serializer@;
        let ghost e = before.endianness;
        proof {
            lemma_extends_self(before);
        }
        let mark = serializer.serialize_array(8);
        let ghost header = serializer@;
        let ghost first = array_first(before.pos(), 8);
        proof {
            lemma_uint_bytes_len(0, 4, e);
            lemma_with(
                before,
                encode_uint(0, 4, before.pos(), e) + zeros(
                    padding_len(before.pos() + padding_len(before.pos(), 4) + 4, 8),
                ),
                Seq::empty(),
            );
            assert(header.pos() == first);
        }
        match MessageHeader::serialize_fields(fields, serializer) {
            Ok(()) => {},
            Err(err) => {
                proof {
                    lemma_extends(before, header, serializer@);
                }
                return Err(err);
            },
        }
        let ghost body = encode_fields(field_views(fields@), first, e)->0;
        let ghost full = serializer@;
        proof {
            lemma_with(header, body, Seq::empty());
            lemma_extends(before, header, full);
        }
        match serializer.finish_array(mark) {
            Ok(()) => {},
            Err(err) => {
                return Err(err);
            },
        }
        proof {
            lemma_uint_bytes_len(body.len(), 4, e);
            assert(serializer@.buf =~= before.buf + (encode_uint(body.len(), 4, before.pos(), e)
                + zeros(padding_len(aligned(before.pos(), 4) + 4, 8)) + body));
            assert(serializer@.buf.take(before.buf.len() as int) =~= before.buf);
        }
        Ok(())
    }

    /// Writes this header, all of whose fields are among `self.fields`: the
    /// fixed part and the array of the header fields.
    ///
    /// Where it fails, the serializer is as it was.
    pub fn serialize(&self, serializer: &mut Serializer) -> (r: Result<(), SerializeError>)
        requires
            old(serializer)@.wf(),
        ensures
            final(serializer)@.extends(old(serializer)@),
            match encode_header(self@, old(serializer)@.pos(), old(serializer)@.endianness) {
                Some(bytes) => r is Ok && final(serializer)@ == old(serializer)@.with(bytes),
                None => r is Err && final(serializer)@ == old(serializer)@,
            },
    {
        let len = serializer.len();
        let r = self.write(serializer);
        if r.is_err() {
            serializer.truncate(len);
            assert(serializer@.buf =~= old(serializer)@.buf);
        }
        proof {
            lemma_extends_self(old(serializer)@);
        }
        r
    }

    /// Writes this header. Where it fails, the serializer holds what was
    /// written until then.
    fn write(&self, serializer: &mut Serializer) -> (r: Result<(), SerializeError>)
        requires
            old(serializer)@.wf(),
        ensures
            final(serializer)@.extends(old(serializer)@),
            match encode_header(self@, old(serializer)@.pos(), old(serializer)@.endianness) {
                Some(bytes) => r is Ok && final(serializer)@ == old(serializer)@.with(bytes),
                None => r is Err,
            },
    {
        let ghost before = serializer@;
        let ghost e = before.endianness;
        let ghost fixed = encode_fixed_header(self@, before.pos(), e);
        match self.serialize_fixed(serializer) {
            Ok(()) => {},
            Err(err) => {
                return Err(err);
            },
        }
        let ghost middle = serializer@;
        proof {
            lemma_with(before, fixed, Seq::empty());
        }
        match MessageHeader::serialize_field_array(&self.fields, serializer) {
            Ok(()) => {},
            Err(err) => {
                proof {
                    lemma_extends(before, middle, serializer@);
                }
                return Err(err);
            },
        }
        proof {
            let fields = encode_array(
                encode_fields(field_views(self.fields@), array_first(middle.pos(), 8), e),
                middle.pos(),
                8,
                e,
            )->0;
            lemma_with(before, fixed, fields);
            lemma_with(before, fixed + fields, Seq::empty());
        }
        Ok(())
    }

    /// The signature of the first signature field among the header fields.
    pub fn body_signature(&self) -> (r: Option<&Signature>)
        ensures
            match first_signature(self@.fields) {
                Some(s) => r matches Some(found) && found@ == s,
                None => r is None,
            },
    {
        let ghost fs = field_views(self.fields@);
        let mut i: usize = 0;
        proof {
            assert(fs.skip(0) =~= fs);
        }
        while i < self.fields.len()
            invariant
                i <= self.fields@.len(),
                fs == field_views(self.fields@),
                first_signature(fs) == first_signature(fs.skip(i as int)),
            decreases self.fields.len() - i,
        {
            proof {
                assert(fs.skip(i as int)[0] == self.fields@[i as int]@);
                assert(fs.skip(i as int).drop_first() =~= fs.skip(i + 1));
            }
            match &self.fields[i] {
                MessageHeaderField::Signature(signature) => {
                    return Some(signature);
                },
                _ => {},
            }
            i += 1;
        }
        assert(fs.skip(self.fields@.len() as int) =~= Seq::<SpecMessageHeaderField>::empty());
        None
    }
}

/// Reads the message that `buf` starts with: its header, its body if it has
/// one, and the count of its bytes.
///
/// `EndOfInput` says that `buf` ends before the message does.
pub fn deserialize_message(buf: &[u8]) -> (r: Result<
    (MessageHeader, Option<Variant>, usize),
    DeserializeError,
>)
    ensures
        match decode_message(buf@) {
            Ok((header, body, read)) => r matches Ok((h, b, n)) && h@ == header && match body {
                Some(v) => b matches Some(x) && x@ == v,
                None => b is None,
            } && n == read && n <= buf@.len(),
            Err(e) => r matches Err(err) && err@ == e,
        },
{
    proof {
        reveal(decode_message);
    }
    // The byte order is set as soon as the marker is read.
    let mut deserializer = Deserializer::new(buf, 0, Endianness::Little);
    let endianness = match EndiannessMarker::deserialize(&mut deserializer) {
        Ok(marker) => marker.0,
        Err(err) => {
            return Err(err);
        },
    };
    deserializer.set_endianness(endianness);
    let header = match MessageHeader::deserialize(&mut deserializer) {
        Ok(header) => header,
        Err(err) => {
            return Err(err);
        },
    };
    match deserializer.pad_to(8) {
        Ok(()) => {},
        Err(err) => {
            return Err(err);
        },
    }
    let body_start = deserializer.pos();
    if header.body_len > 0 {
        if buf.len() - body_start < header.body_len {
            return Err(DeserializeError::EndOfInput);
        }
        let body_end = body_start + header.body_len;
        let signature = match header.body_signature() {
            Some(signature) => signature,
            None => {
                return Err(
                    DeserializeError::MissingRequiredMessageHeaderField {
                        method_name: "body-containing",
                        header_field_name: "SIGNATURE",
                    },
                );
            },
        };
        let mut body_deserializer = Deserializer::new(
            slice_subrange(buf, 0, body_end),
            body_start,
            endianness,
        );
        let body = match Variant::deserialize(&mut body_deserializer, signature) {
            Ok(body) => body,
            Err(err) => {
                return Err(err);
            },
        };
        Ok((header, Some(body), body_end))
    } else {
        Ok((header, None, body_start))
    }
}

/// Appends `bytes` to `buf`.
fn append(buf: &mut Vec<u8>, bytes: &Vec<u8>)
    ensures
        final(buf)@ == old(buf)@ + bytes@,
{
    let ghost before = buf@;
    let mut i: usize = 0;
    assert(bytes@.take(0) =~= Seq::<u8>::empty());
    assert(before + Seq::<u8>::empty() =~= before);
    while i < bytes.len()
        invariant
            i <= bytes@.len(),
            buf@ == before + bytes@.take(i as int),
        decreases bytes.len() - i,
    {
        buf.push(bytes[i]);
        i += 1;
        assert(buf@ =~= before + bytes@.take(i as int));
    }
    assert(bytes@.take(bytes@.len() as int) =~= bytes@);
}

/// Appends copies of the header fields `more` to `fields`.
fn append_fields(fields: &mut Vec<MessageHeaderField>, more: &Vec<MessageHeaderField>)
    ensures
        field_views(final(fields)@) == field_views(old(fields)@) + field_views(more@),
{
    let ghost before = field_views(fields@);
    let mut i: usize = 0;
    assert(before + field_views(more@).take(0) =~= before);
    while i < more.len()
        invariant
            i <= more@.len(),
            field_views(fields@) == before + field_views(more@).take(i as int),
        decreases more.len() - i,
    {
        let ghost so_far = field_views(fields@);
        let field = more[i].clone();
        fields.push(field);
        assert(field_views(fields@) =~= so_far.push(field@));
        assert(so_far.push(field@) =~= before + field_views(more@).take(i + 1));
        i += 1;
    }
    assert(field_views(more@).take(more@.len() as int) =~= field_views(more@));
}

/// The mathematical value of a variant that may be there.
pub open spec fn body_of(body: Option<&Variant>) -> Option<crate::variant::SpecVariant> {
    match body {
        Some(v) => Some(v@),
        None => None,
    }
}

/// Writes to `buf` the message with the header `header` and the body
/// `body`, in the byte order `endianness`.
///
/// The fields that the message type must have are put behind the fields of
/// `header`, and their strings leave the message type; with a body, the
/// count of its bytes is set in `header` and the field of its signature
/// follows. The caller gives none of these fields.
///
/// Where it fails, `buf` is as it was.
pub fn serialize_message(
    header: &mut MessageHeader,
    body: Option<&Variant>,
    buf: &mut Vec<u8>,
    endianness: Endianness,
) -> (r: Result<(), SerializeError>)
    ensures
        final(header)@ == header_as_written(
            old(header)@,
            body_of(body),
            encode_body(body_of(body), endianness),
        ),
        match encode_message(old(header)@, body_of(body), endianness) {
            Some(bytes) => r is Ok && final(buf)@ == old(buf)@ + bytes,
            None => r is Err && final(buf)@ == old(buf)@,
        },
{
    let ghost given = header@;
    let mandatory = header.message_type.mandatory_fields();
    header.message_type = header.message_type.emptied();
    append_fields(&mut header.fields, &mandatory);
    let body_bytes: Vec<u8> = match body {
        Some(body) => {
            let mut body_serializer = Serializer::new(Vec::new(), endianness);
            match body.serialize(&mut body_serializer) {
                Ok(()) => {},
                Err(err) => {
                    return Err(err);
                },
            }
            let bytes = body_serializer.into_inner();
            assert(bytes@ =~= encode(body@, 0, endianness)->0);
            let ghost so_far = field_views(header.fields@);
            header.body_len = bytes.len();
            header.fields.push(MessageHeaderField::Signature(body.inner_signature()));
            assert(field_views(header.fields@) =~= so_far.push(
                SpecMessageHeaderField::Signature(body@.inner_signature()),
            ));
            bytes
        },
        None => Vec::new(),
    };
    assert(body_bytes@ =~= encode_body(body_of(body), endianness)->0);
    assert(header@ == header_as_written(given, body_of(body), Some(body_bytes@)));
    let mut serializer = Serializer::new(Vec::new(), endianness);
    let ghost empty = serializer@;
    EndiannessMarker(endianness).serialize(&mut serializer);
    let ghost marked = serializer@;
    proof {
        lemma_with(empty, seq![marker_of(endianness)], Seq::empty());
    }
    match header.serialize(&mut serializer) {
        Ok(()) => {},
        Err(err) => {
            return Err(err);
        },
    }
    let ghost header_bytes = encode_header(header@, 1, endianness)->0;
    let ghost headed = serializer@;
    proof {
        lemma_with(empty, seq![marker_of(endianness)], header_bytes);
        lemma_with(empty, seq![marker_of(endianness)] + header_bytes, Seq::empty());
    }
    serializer.pad_to(8);
    let message = serializer.into_inner();
    append(buf, &message);
    append(buf, &body_bytes);
    assert(buf@ =~= old(buf)@ + (seq![marker_of(endianness)] + header_bytes + zeros(
        padding_len(1 + header_bytes.len() as int, 8),
    ) + body_bytes@));
    Ok(())
}

} // verus!
