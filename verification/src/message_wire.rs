//! The wire format of a message, as mathematics.

use crate::element::{array_first, encode_array, no_bytes};
use crate::text::{debug_text_of, decimal_text};
use crate::endian::Endianness;
use crate::message::{SpecMessageHeader, SpecMessageHeaderField, SpecMessageType};
use crate::signature::SpecSignature;
use crate::variant::SpecVariant;
use crate::variant_wire::{decode, encode, remaining};
use crate::wire::{
    aligned, decode_array_header, decode_padding, decode_signature, decode_u32, decode_u8,
    encode_signature, encode_uint, lemma_decode_uint_bounds, padding_len, zeros, DecodeError,
};
use vstd::prelude::*;

verus! {

/// The first byte of a message in big-endian byte order, `B`.
pub const MARKER_BIG: u8 = 0x42;

/// The first byte of a message in little-endian byte order, `l`.
pub const MARKER_LITTLE: u8 = 0x6c;

/// The version of the protocol, the fourth byte of a message.
pub const PROTOCOL_VERSION: u8 = 0x01;

impl SpecMessageHeaderField {
    /// The code of this header field on the wire.
    pub open spec fn code(self) -> u8 {
        match self {
            SpecMessageHeaderField::Path(_) => 1,
            SpecMessageHeaderField::Interface(_) => 2,
            SpecMessageHeaderField::Member(_) => 3,
            SpecMessageHeaderField::ErrorName(_) => 4,
            SpecMessageHeaderField::ReplySerial(_) => 5,
            SpecMessageHeaderField::Destination(_) => 6,
            SpecMessageHeaderField::Sender(_) => 7,
            SpecMessageHeaderField::Signature(_) => 8,
            SpecMessageHeaderField::UnixFds(_) => 9,
            SpecMessageHeaderField::Unknown { code, value } => code,
        }
    }

    /// The value of this header field on the wire.
    pub open spec fn value(self) -> SpecVariant {
        match self {
            SpecMessageHeaderField::Path(v) => SpecVariant::ObjectPath(v),
            SpecMessageHeaderField::Interface(v) => SpecVariant::String(v),
            SpecMessageHeaderField::Member(v) => SpecVariant::String(v),
            SpecMessageHeaderField::ErrorName(v) => SpecVariant::String(v),
            SpecMessageHeaderField::ReplySerial(v) => SpecVariant::U32(v),
            SpecMessageHeaderField::Destination(v) => SpecVariant::String(v),
            SpecMessageHeaderField::Sender(v) => SpecVariant::String(v),
            SpecMessageHeaderField::Signature(v) => SpecVariant::Signature(v),
            SpecMessageHeaderField::UnixFds(v) => SpecVariant::U32(v),
            SpecMessageHeaderField::Unknown { code, value } => value,
        }
    }
}

/// The error of a value that is not what was expected.
pub open spec fn invalid(expected: Seq<char>, actual: Seq<char>) -> DecodeError {
    DecodeError::InvalidValue { expected, actual }
}

/// The header field with the code `code` and the value `value`: one of the
/// known fields where the code is known and the value is of its type, an
/// unknown field where the code is not known.
pub open spec fn field_of(code: u8, value: SpecVariant) -> Result<
    SpecMessageHeaderField,
    DecodeError,
> {
    if code == 1 {
        match value {
            SpecVariant::ObjectPath(v) => Ok(SpecMessageHeaderField::Path(v)),
            _ => Err(invalid("an object path"@, debug_text_of(value))),
        }
    } else if code == 2 {
        match value {
            SpecVariant::String(v) => Ok(SpecMessageHeaderField::Interface(v)),
            _ => Err(invalid("a string"@, debug_text_of(value))),
        }
    } else if code == 3 {
        match value {
            SpecVariant::String(v) => Ok(SpecMessageHeaderField::Member(v)),
            _ => Err(invalid("a string"@, debug_text_of(value))),
        }
    } else if code == 4 {
        match value {
            SpecVariant::String(v) => Ok(SpecMessageHeaderField::ErrorName(v)),
            _ => Err(invalid("a string"@, debug_text_of(value))),
        }
    } else if code == 5 {
        match value {
            SpecVariant::U32(v) => Ok(SpecMessageHeaderField::ReplySerial(v)),
            _ => Err(invalid("a u32"@, debug_text_of(value))),
        }
    } else if code == 6 {
        match value {
            SpecVariant::String(v) => Ok(SpecMessageHeaderField::Destination(v)),
            _ => Err(invalid("a string"@, debug_text_of(value))),
        }
    } else if code == 7 {
        match value {
            SpecVariant::String(v) => Ok(SpecMessageHeaderField::Sender(v)),
            _ => Err(invalid("a string"@, debug_text_of(value))),
        }
    } else if code == 8 {
        match value {
            SpecVariant::Signature(v) => Ok(SpecMessageHeaderField::Signature(v)),
            _ => Err(invalid("a signature"@, debug_text_of(value))),
        }
    } else if code == 9 {
        match value {
            SpecVariant::U32(v) => Ok(SpecMessageHeaderField::UnixFds(v)),
            _ => Err(invalid("a u32"@, debug_text_of(value))),
        }
    } else {
        Ok(SpecMessageHeaderField::Unknown { code, value })
    }
}

/// The header field that `buf` holds at `pos`: a struct of a code of one
/// byte and a variant.
pub open spec fn decode_field(buf: Seq<u8>, pos: int, e: Endianness) -> Result<
    (SpecMessageHeaderField, int),
    DecodeError,
> {
    match decode_padding(buf, pos, 8) {
        Err(err) => Err(err),
        Ok(p) => match decode_u8(buf, p) {
            Err(err) => Err(err),
            Ok((code, p1)) => match decode_signature(buf, p1) {
                Err(err) => Err(err),
                Ok((signature, p2)) => match decode(buf, p2, signature, e) {
                    Err(err) => Err(err),
                    Ok((value, p3)) => match field_of(code, value) {
                        Err(err) => Err(err),
                        Ok(field) => Ok((field, p3)),
                    },
                },
            },
        },
    }
}

/// The header fields that `buf` holds from `pos` to its end.
pub open spec fn decode_header_fields(buf: Seq<u8>, pos: int, e: Endianness) -> Result<
    Seq<SpecMessageHeaderField>,
    DecodeError,
>
    decreases remaining(buf, pos),
{
    if pos >= buf.len() {
        Ok(Seq::empty())
    } else {
        match decode_field(buf, pos, e) {
            Err(err) => Err(err),
            Ok((field, p)) => if p <= pos || p > buf.len() {
                Err(no_bytes())
            } else {
                match decode_header_fields(buf, p, e) {
                    Err(err) => Err(err),
                    Ok(rest) => Ok(seq![field] + rest),
                }
            },
        }
    }
}

/// Whether a message of the type with the code `type_code` must have the
/// header field `f`, which is then held in the message type and not among
/// the header fields.
pub open spec fn is_mandatory(type_code: u8, f: SpecMessageHeaderField) -> bool {
    match f {
        SpecMessageHeaderField::ErrorName(_) => type_code == 3,
        SpecMessageHeaderField::Interface(_) => type_code == 4,
        SpecMessageHeaderField::Member(_) => type_code == 1 || type_code == 4,
        SpecMessageHeaderField::Path(_) => type_code == 1 || type_code == 4,
        SpecMessageHeaderField::ReplySerial(_) => type_code == 2 || type_code == 3,
        _ => false,
    }
}

/// The header fields among `fields` that a message of the type with the
/// code `type_code` need not have, in their order.
pub open spec fn other_fields(type_code: u8, fields: Seq<SpecMessageHeaderField>) -> Seq<
    SpecMessageHeaderField,
>
    decreases fields.len(),
{
    if fields.len() == 0 {
        Seq::empty()
    } else if is_mandatory(type_code, fields.last()) {
        other_fields(type_code, fields.drop_last())
    } else {
        other_fields(type_code, fields.drop_last()).push(fields.last())
    }
}

/// The name of the last error name field among `fields`.
pub open spec fn last_error_name(fields: Seq<SpecMessageHeaderField>) -> Option<Seq<char>>
    decreases fields.len(),
{
    if fields.len() == 0 {
        None
    } else {
        match fields.last() {
            SpecMessageHeaderField::ErrorName(v) => Some(v),
            _ => last_error_name(fields.drop_last()),
        }
    }
}

/// The name of the last interface field among `fields`.
pub open spec fn last_interface(fields: Seq<SpecMessageHeaderField>) -> Option<Seq<char>>
    decreases fields.len(),
{
    if fields.len() == 0 {
        None
    } else {
        match fields.last() {
            SpecMessageHeaderField::Interface(v) => Some(v),
            _ => last_interface(fields.drop_last()),
        }
    }
}

/// The name of the last member field among `fields`.
pub open spec fn last_member(fields: Seq<SpecMessageHeaderField>) -> Option<Seq<char>>
    decreases fields.len(),
{
    if fields.len() == 0 {
        None
    } else {
        match fields.last() {
            SpecMessageHeaderField::Member(v) => Some(v),
            _ => last_member(fields.drop_last()),
        }
    }
}

/// The path of the last path field among `fields`.
pub open spec fn last_path(fields: Seq<SpecMessageHeaderField>) -> Option<Seq<char>>
    decreases fields.len(),
{
    if fields.len() == 0 {
        None
    } else {
        match fields.last() {
            SpecMessageHeaderField::Path(v) => Some(v),
            _ => last_path(fields.drop_last()),
        }
    }
}

/// The serial of the last reply serial field among `fields`.
pub open spec fn last_reply_serial(fields: Seq<SpecMessageHeaderField>) -> Option<u32>
    decreases fields.len(),
{
    if fields.len() == 0 {
        None
    } else {
        match fields.last() {
            SpecMessageHeaderField::ReplySerial(v) => Some(v),
            _ => last_reply_serial(fields.drop_last()),
        }
    }
}

/// The error of a message that lacks a header field it must have.
pub open spec fn missing(method_name: Seq<char>, header_field_name: Seq<char>) -> DecodeError {
    DecodeError::MissingRequiredMessageHeaderField { method_name, header_field_name }
}

/// The message type with the code `type_code` of a message with the header
/// fields `fields`: each field that the type must have is taken from the
/// last field of its kind.
pub open spec fn message_type_of(type_code: u8, fields: Seq<SpecMessageHeaderField>) -> Result<
    SpecMessageType,
    DecodeError,
> {
    if type_code == 1 {
        match last_member(fields) {
            None => Err(missing("METHOD_CALL"@, "MEMBER"@)),
            Some(member) => match last_path(fields) {
                None => Err(missing("METHOD_CALL"@, "PATH"@)),
                Some(path) => Ok(SpecMessageType::MethodCall { member, path }),
            },
        }
    } else if type_code == 2 {
        match last_reply_serial(fields) {
            None => Err(missing("METHOD_RETURN"@, "REPLY_SERIAL"@)),
            Some(reply_serial) => Ok(SpecMessageType::MethodReturn { reply_serial }),
        }
    } else if type_code == 3 {
        match last_error_name(fields) {
            None => Err(missing("ERROR"@, "NAME"@)),
            Some(name) => match last_reply_serial(fields) {
                None => Err(missing("ERROR"@, "REPLY_SERIAL"@)),
                Some(reply_serial) => Ok(SpecMessageType::Error { name, reply_serial }),
            },
        }
    } else if type_code == 4 {
        match last_interface(fields) {
            None => Err(missing("SIGNAL"@, "INTERFACE"@)),
            Some(interface) => match last_member(fields) {
                None => Err(missing("SIGNAL"@, "MEMBER"@)),
                Some(member) => match last_path(fields) {
                    None => Err(missing("SIGNAL"@, "PATH"@)),
                    Some(path) => Ok(SpecMessageType::Signal { interface, member, path }),
                },
            },
        }
    } else {
        Err(invalid("one of 0x01, 0x02, 0x03, 0x04"@, decimal_text(type_code as nat)))
    }
}

/// The fixed part of a header at `pos`, with the position behind it: the
/// code of the type, the flags, the count of the bytes of the body, and the
/// serial. The version between the flags and the count must be 1.
pub open spec fn decode_fixed_header(buf: Seq<u8>, pos: int, e: Endianness) -> Result<
    ((u8, u8, u32, u32), int),
    DecodeError,
> {
    match decode_u8(buf, pos) {
        Err(err) => Err(err),
        Ok((type_code, p1)) => match decode_u8(buf, p1) {
            Err(err) => Err(err),
            Ok((flags, p2)) => match decode_u8(buf, p2) {
                Err(err) => Err(err),
                Ok((version, p3)) => if version != PROTOCOL_VERSION {
                    Err(invalid("0x01"@, decimal_text(version as nat)))
                } else {
                    match decode_u32(buf, p3, e) {
                        Err(err) => Err(err),
                        Ok((body_len, p4)) => match decode_u32(buf, p4, e) {
                            Err(err) => Err(err),
                            Ok((serial, p5)) => Ok(((type_code, flags, body_len, serial), p5)),
                        },
                    }
                },
            },
        },
    }
}

/// The header that `buf` holds at `pos`, with the position behind it: the
/// fixed part and the array of the header fields. The fields that the
/// message type must have are held in the type; the others stay among the
/// fields.
pub open spec fn decode_header(buf: Seq<u8>, pos: int, e: Endianness) -> Result<
    (SpecMessageHeader, int),
    DecodeError,
> {
    match decode_fixed_header(buf, pos, e) {
        Err(err) => Err(err),
        Ok(((type_code, flags, body_len, serial), p)) => match decode_array_header(buf, p, 8, e) {
            Err(err) => Err(err),
            Ok((first, end)) => match decode_header_fields(buf.take(end), first, e) {
                Err(err) => Err(err),
                Ok(fields) => match message_type_of(type_code, fields) {
                    Err(err) => Err(err),
                    Ok(message_type) => Ok(
                        (
                            SpecMessageHeader {
                                message_type,
                                flags,
                                body_len: body_len as nat,
                                serial,
                                fields: other_fields(type_code, fields),
                            },
                            end,
                        ),
                    ),
                },
            },
        },
    }
}

/// The signature of the first signature field among `fields`.
pub open spec fn first_signature(fields: Seq<SpecMessageHeaderField>) -> Option<SpecSignature>
    decreases fields.len(),
{
    if fields.len() == 0 {
        None
    } else {
        match fields[0] {
            SpecMessageHeaderField::Signature(s) => Some(s),
            _ => first_signature(fields.drop_first()),
        }
    }
}

/// The byte order that the first byte of a message stands for.
pub open spec fn endianness_of(marker: u8) -> Option<Endianness> {
    if marker == MARKER_BIG {
        Some(Endianness::Big)
    } else if marker == MARKER_LITTLE {
        Some(Endianness::Little)
    } else {
        None
    }
}

/// The first byte of a message in the byte order `e`.
pub open spec fn marker_of(e: Endianness) -> u8 {
    match e {
        Endianness::Big => MARKER_BIG,
        Endianness::Little => MARKER_LITTLE,
    }
}

/// The body that `buf` holds from `pos` on for the header `header`, with the
/// position behind the message: none where the header counts no bytes for
/// it, else the value of the signature of the first signature field, read
/// from the bytes that the header counts.
pub open spec fn decode_body(
    buf: Seq<u8>,
    pos: int,
    header: SpecMessageHeader,
    e: Endianness,
) -> Result<(Option<SpecVariant>, int), DecodeError> {
    if header.body_len > 0 {
        let end = pos + header.body_len;
        if buf.len() < end {
            Err(DecodeError::EndOfInput)
        } else {
            match first_signature(header.fields) {
                None => Err(missing("body-containing"@, "SIGNATURE"@)),
                Some(signature) => match decode(buf.take(end), pos, signature, e) {
                    Err(err) => Err(err),
                    Ok((body, p)) => Ok((Some(body), end)),
                },
            }
        }
    } else {
        Ok((None, pos))
    }
}

/// The message that `buf` starts with: its header, its body, and the count
/// of its bytes.
#[verifier::opaque]
pub open spec fn decode_message(buf: Seq<u8>) -> Result<
    (SpecMessageHeader, Option<SpecVariant>, int),
    DecodeError,
> {
    match decode_u8(buf, 0) {
        Err(err) => Err(err),
        Ok((marker, p0)) => match endianness_of(marker) {
            None => Err(invalid("b'B' or b'l'"@, decimal_text(marker as nat))),
            Some(e) => match decode_header(buf, p0, e) {
                Err(err) => Err(err),
                Ok((header, p1)) => match decode_padding(buf, p1, 8) {
                    Err(err) => Err(err),
                    Ok(p2) => match decode_body(buf, p2, header, e) {
                        Err(err) => Err(err),
                        Ok((body, read)) => Ok((header, body, read)),
                    },
                },
            },
        },
    }
}

/// The count of the bytes of the message that `buf` starts with, and 0
/// where it starts with none.
pub open spec fn message_len(buf: Seq<u8>) -> int {
    match decode_message(buf) {
        Ok((header, body, read)) => read,
        Err(_) => 0,
    }
}

/// A message has at least one byte, and no more than the buffer that it was
/// read from.
pub proof fn lemma_message_not_empty(buf: Seq<u8>)
    ensures
        decode_message(buf) matches Ok((header, body, read)) ==> 1 <= read <= buf.len(),
{
    reveal(decode_message);
    if decode_message(buf) is Ok {
        let e = endianness_of(buf[0])->0;
        let p3 = 4;
        lemma_decode_uint_bounds(buf, p3, 4, e);
        let first = decode_u32(buf, p3, e)->Ok_0;
        let p4 = first.1;
        lemma_decode_uint_bounds(buf, p4, 4, e);
        let second = decode_u32(buf, p4, e)->Ok_0;
        let p5 = second.1;
        lemma_decode_uint_bounds(buf, p5, 4, e);
    }
}

/// The bytes written at `pos` for the header field `f`.
pub open spec fn encode_field(f: SpecMessageHeaderField, pos: int, e: Endianness) -> Option<
    Seq<u8>,
> {
    match encode_signature(f.value().inner_signature()) {
        None => None,
        Some(s) => match encode(f.value(), aligned(pos, 8) + 1 + s.len(), e) {
            None => None,
            Some(v) => Some(zeros(padding_len(pos, 8)) + seq![f.code()] + s + v),
        },
    }
}

/// The bytes written from `pos` on for the header fields `fs`.
pub open spec fn encode_fields(fs: Seq<SpecMessageHeaderField>, pos: int, e: Endianness) -> Option<
    Seq<u8>,
>
    decreases fs.len(),
{
    if fs.len() == 0 {
        Some(Seq::empty())
    } else {
        match encode_field(fs[0], pos, e) {
            None => None,
            Some(first) => match encode_fields(fs.drop_first(), pos + first.len(), e) {
                None => None,
                Some(rest) => Some(first + rest),
            },
        }
    }
}

/// The bytes written at `pos` for the fixed part of the header `h`.
pub open spec fn encode_fixed_header(h: SpecMessageHeader, pos: int, e: Endianness) -> Seq<u8> {
    let start = seq![h.message_type.code(), h.flags, PROTOCOL_VERSION];
    let count = encode_uint(h.body_len, 4, pos + 3, e);
    start + count + encode_uint(h.serial as nat, 4, pos + 3 + count.len(), e)
}

/// The bytes written at `pos` for the header `h` with all its fields among
/// `h.fields`, where the count of the bytes of the body fits in 32 bits.
pub open spec fn encode_header(h: SpecMessageHeader, pos: int, e: Endianness) -> Option<Seq<u8>> {
    if h.body_len > u32::MAX {
        None
    } else {
        let fixed = encode_fixed_header(h, pos, e);
        let p = pos + fixed.len();
        match encode_array(encode_fields(h.fields, array_first(p, 8), e), p, 8, e) {
            None => None,
            Some(fields) => Some(fixed + fields),
        }
    }
}

/// The header that is written for the header `h` that a caller gives with
/// the body `body`, whose bytes are `body_bytes` where it can be written:
/// the fields that the message type must have are put behind the fields,
/// their strings leave the message type, and with a body that can be written
/// the count of its bytes is set and the field of its signature follows.
pub open spec fn header_as_written(
    h: SpecMessageHeader,
    body: Option<SpecVariant>,
    body_bytes: Option<Seq<u8>>,
) -> SpecMessageHeader {
    let fields = h.fields + h.message_type.mandatory_fields();
    let message_type = h.message_type.emptied();
    match (body, body_bytes) {
        (Some(b), Some(bytes)) => SpecMessageHeader {
            message_type,
            body_len: bytes.len(),
            fields: fields.push(SpecMessageHeaderField::Signature(b.inner_signature())),
            ..h
        },
        _ => SpecMessageHeader { message_type, fields, ..h },
    }
}

/// The bytes of the body `body`, which starts a count of its own of the
/// positions: none for no body.
pub open spec fn encode_body(body: Option<SpecVariant>, e: Endianness) -> Option<Seq<u8>> {
    match body {
        None => Some(Seq::empty()),
        Some(b) => encode(b, 0, e),
    }
}

/// The bytes of the message with the header `h`, as a caller gives it, and
/// the body `body`: the marker of the byte order, the header as it is
/// written, padding to a multiple of 8, and the body.
pub open spec fn encode_message(h: SpecMessageHeader, body: Option<SpecVariant>, e: Endianness) -> Option<
    Seq<u8>,
> {
    match encode_body(body, e) {
        None => None,
        Some(body_bytes) => match encode_header(
            header_as_written(h, body, Some(body_bytes)),
            1,
            e,
        ) {
            None => None,
            Some(header_bytes) => Some(
                seq![marker_of(e)] + header_bytes + zeros(padding_len(1 + header_bytes.len() as int, 8))
                    + body_bytes,
            ),
        },
    }
}

} // verus!
