//! The wire format of a value of any signature, as mathematics.

use crate::element::{
    array_first, decode_typed_array, encode_array, encode_typed_array, no_bytes,
};
use crate::endian::Endianness;
use crate::signature::SpecSignature;
use crate::types::UnixFd;
use crate::variant::SpecVariant;
use crate::wire::{
    aligned, decode_array_header, decode_bool, decode_byte_array, decode_i16, decode_i32,
    decode_i64, decode_padding, decode_signature, decode_string, decode_u16, decode_u32,
    decode_u64, decode_u8, encode_bool, encode_byte_array, encode_int, encode_signature,
    encode_string, encode_uint, padding_len, zeros, DecodeError,
};
use vstd::prelude::*;

verus! {

/// What was decoded, made into a value by `f`.
pub open spec fn decoded_as<A>(r: Result<(A, int), DecodeError>, f: spec_fn(A) -> SpecVariant) -> Result<
    (SpecVariant, int),
    DecodeError,
> {
    match r {
        Err(err) => Err(err),
        Ok((a, p)) => Ok((f(a), p)),
    }
}

/// How much of `buf` lies behind `pos`.
pub open spec fn remaining(buf: Seq<u8>, pos: int) -> nat {
    if pos <= buf.len() {
        (buf.len() - pos) as nat
    } else {
        0
    }
}

/// Whether an array of elements of signature `sig` is held as one of the
/// specialized arrays.
pub open spec fn is_specialized(sig: SpecSignature) -> bool {
    match sig {
        SpecSignature::Bool | SpecSignature::F64 | SpecSignature::I16 | SpecSignature::I32
        | SpecSignature::I64 | SpecSignature::String | SpecSignature::U8 | SpecSignature::U16
        | SpecSignature::U32 | SpecSignature::U64 | SpecSignature::UnixFd => true,
        _ => false,
    }
}

/// The specialized array of elements of signature `element` that `buf`
/// holds at `pos`, with the position behind it.
#[verifier::opaque]
pub open spec fn decode_specialized_array(
    buf: Seq<u8>,
    pos: int,
    element: SpecSignature,
    e: Endianness,
) -> Result<(SpecVariant, int), DecodeError> {
    match element {
        SpecSignature::Bool => decoded_as(
            decode_typed_array::<bool>(buf, pos, e),
            |x: Seq<bool>| SpecVariant::ArrayBool(x),
        ),
        SpecSignature::F64 => decoded_as(
            decode_typed_array::<u64>(buf, pos, e),
            |x: Seq<u64>| SpecVariant::ArrayF64(x),
        ),
        SpecSignature::I16 => decoded_as(
            decode_typed_array::<i16>(buf, pos, e),
            |x: Seq<i16>| SpecVariant::ArrayI16(x),
        ),
        SpecSignature::I32 => decoded_as(
            decode_typed_array::<i32>(buf, pos, e),
            |x: Seq<i32>| SpecVariant::ArrayI32(x),
        ),
        SpecSignature::I64 => decoded_as(
            decode_typed_array::<i64>(buf, pos, e),
            |x: Seq<i64>| SpecVariant::ArrayI64(x),
        ),
        SpecSignature::String => decoded_as(
            decode_typed_array::<String>(buf, pos, e),
            |x: Seq<Seq<char>>| SpecVariant::ArrayString(x),
        ),
        SpecSignature::U8 => decoded_as(
            decode_byte_array(buf, pos, e),
            |x: Seq<u8>| SpecVariant::ArrayU8(x),
        ),
        SpecSignature::U16 => decoded_as(
            decode_typed_array::<u16>(buf, pos, e),
            |x: Seq<u16>| SpecVariant::ArrayU16(x),
        ),
        SpecSignature::U32 => decoded_as(
            decode_typed_array::<u32>(buf, pos, e),
            |x: Seq<u32>| SpecVariant::ArrayU32(x),
        ),
        SpecSignature::U64 => decoded_as(
            decode_typed_array::<u64>(buf, pos, e),
            |x: Seq<u64>| SpecVariant::ArrayU64(x),
        ),
        _ => decoded_as(
            decode_typed_array::<UnixFd>(buf, pos, e),
            |x: Seq<UnixFd>| SpecVariant::ArrayUnixFd(x),
        ),
    }
}

/// The value without parts of signature `sig` that `buf` holds at `pos`,
/// with the position behind it.
#[verifier::opaque]
pub open spec fn decode_basic(buf: Seq<u8>, pos: int, sig: SpecSignature, e: Endianness) -> Result<
    (SpecVariant, int),
    DecodeError,
> {
    match sig {
        SpecSignature::Bool => decoded_as(decode_bool(buf, pos, e), |x: bool| SpecVariant::Bool(x)),
        SpecSignature::F64 => decoded_as(decode_u64(buf, pos, e), |x: u64| SpecVariant::F64(x)),
        SpecSignature::I16 => decoded_as(decode_i16(buf, pos, e), |x: i16| SpecVariant::I16(x)),
        SpecSignature::I32 => decoded_as(decode_i32(buf, pos, e), |x: i32| SpecVariant::I32(x)),
        SpecSignature::I64 => decoded_as(decode_i64(buf, pos, e), |x: i64| SpecVariant::I64(x)),
        SpecSignature::ObjectPath => decoded_as(
            decode_string(buf, pos, e),
            |x: Seq<char>| SpecVariant::ObjectPath(x),
        ),
        SpecSignature::Signature => decoded_as(
            decode_signature(buf, pos),
            |x: SpecSignature| SpecVariant::Signature(x),
        ),
        SpecSignature::String => decoded_as(
            decode_string(buf, pos, e),
            |x: Seq<char>| SpecVariant::String(x),
        ),
        SpecSignature::U8 => decoded_as(decode_u8(buf, pos), |x: u8| SpecVariant::U8(x)),
        SpecSignature::U16 => decoded_as(decode_u16(buf, pos, e), |x: u16| SpecVariant::U16(x)),
        SpecSignature::U32 => decoded_as(decode_u32(buf, pos, e), |x: u32| SpecVariant::U32(x)),
        SpecSignature::U64 => decoded_as(decode_u64(buf, pos, e), |x: u64| SpecVariant::U64(x)),
        _ => decoded_as(decode_u32(buf, pos, e), |x: u32| SpecVariant::UnixFd(UnixFd(x))),
    }
}

/// The value of signature `sig` that `buf` holds at `pos`, with the position
/// behind it.
///
/// A decoder never moves backwards; the tests on the positions between two
/// parts are there so that the definitions are well-founded.
pub open spec fn decode(buf: Seq<u8>, pos: int, sig: SpecSignature, e: Endianness) -> Result<
    (SpecVariant, int),
    DecodeError,
>
    decreases remaining(buf, pos), sig, 1nat,
{
    match sig {
        SpecSignature::Array { element } => if is_specialized(*element) {
            decode_specialized_array(buf, pos, *element, e)
        } else {
            decode_array(buf, pos, *element, e)
        },
        SpecSignature::DictEntry { .. } => decode_dict_entry(buf, pos, sig, e),
        SpecSignature::Struct { fields } => decode_struct(buf, pos, fields, e),
        SpecSignature::Tuple { elements } => match decode_fields(buf, pos, elements, e) {
            Err(err) => Err(err),
            Ok((values, end)) => Ok((SpecVariant::Tuple { elements: values }, end)),
        },
        SpecSignature::Variant => decode_variant(buf, pos, e),
        _ => decode_basic(buf, pos, sig, e),
    }
}

/// The array of variants of the signature `element` that `buf` holds at
/// `pos`, with the position behind it.
pub open spec fn decode_array(buf: Seq<u8>, pos: int, element: SpecSignature, e: Endianness) -> Result<
    (SpecVariant, int),
    DecodeError,
>
    decreases remaining(buf, pos), element, 3nat,
{
    match decode_array_header(buf, pos, element.alignment(), e) {
        Err(err) => Err(err),
        Ok((first, end)) => if !(0 <= pos < first <= end <= buf.len()) {
            Err(DecodeError::EndOfInput)
        } else {
            match decode_elements(buf.take(end), first, element, e) {
                Err(err) => Err(err),
                Ok(elements) => Ok(
                    (SpecVariant::Array { element_signature: element, elements }, end),
                ),
            }
        },
    }
}

/// The dict entry of the signature `sig` that `buf` holds at `pos`, with the
/// position behind it.
pub open spec fn decode_dict_entry(buf: Seq<u8>, pos: int, sig: SpecSignature, e: Endianness) -> Result<
    (SpecVariant, int),
    DecodeError,
>
    decreases remaining(buf, pos), sig, 0nat,
{
    match sig {
        SpecSignature::DictEntry { key, value } => match decode_padding(buf, pos, 8) {
            Err(err) => Err(err),
            Ok(p) => if p < pos {
                Err(DecodeError::EndOfInput)
            } else {
                match decode(buf, p, *key, e) {
                    Err(err) => Err(err),
                    Ok((k, p1)) => if p1 < p {
                        Err(DecodeError::EndOfInput)
                    } else {
                        match decode(buf, p1, *value, e) {
                            Err(err) => Err(err),
                            Ok((v, p2)) => Ok(
                                (
                                    SpecVariant::DictEntry { key: Box::new(k), value: Box::new(v) },
                                    p2,
                                ),
                            ),
                        }
                    },
                }
            },
        },
        _ => Err(DecodeError::EndOfInput),
    }
}

/// The struct with fields of the signatures `fields` that `buf` holds at
/// `pos`, with the position behind it.
pub open spec fn decode_struct(
    buf: Seq<u8>,
    pos: int,
    fields: Seq<SpecSignature>,
    e: Endianness,
) -> Result<(SpecVariant, int), DecodeError>
    decreases remaining(buf, pos), fields, 3nat,
{
    match decode_padding(buf, pos, 8) {
        Err(err) => Err(err),
        Ok(p) => if p < pos {
            Err(DecodeError::EndOfInput)
        } else {
            match decode_fields(buf, p, fields, e) {
                Err(err) => Err(err),
                Ok((values, end)) => Ok((SpecVariant::Struct { fields: values }, end)),
            }
        },
    }
}

/// The variant in a variant that `buf` holds at `pos`, with the position
/// behind it: a signature, and a value of it.
pub open spec fn decode_variant(buf: Seq<u8>, pos: int, e: Endianness) -> Result<
    (SpecVariant, int),
    DecodeError,
>
    decreases remaining(buf, pos), SpecSignature::Variant, 0nat,
{
    match decode_signature(buf, pos) {
        Err(err) => Err(err),
        Ok((inner, p)) => if !(pos < p <= buf.len()) {
            Err(DecodeError::EndOfInput)
        } else {
            match decode(buf, p, inner, e) {
                Err(err) => Err(err),
                Ok((v, end)) => Ok((SpecVariant::Variant(Box::new(v)), end)),
            }
        },
    }
}

/// The values of the signatures `sigs` that `buf` holds one after the other
/// from `pos` on, with the position behind them.
pub open spec fn decode_fields(
    buf: Seq<u8>,
    pos: int,
    sigs: Seq<SpecSignature>,
    e: Endianness,
) -> Result<(Seq<SpecVariant>, int), DecodeError>
    decreases remaining(buf, pos), sigs, 2nat,
{
    if sigs.len() == 0 {
        Ok((Seq::empty(), pos))
    } else {
        match decode(buf, pos, sigs[0], e) {
            Err(err) => Err(err),
            Ok((first, p)) => if p < pos {
                Err(DecodeError::EndOfInput)
            } else {
                match decode_fields(buf, p, sigs.drop_first(), e) {
                    Err(err) => Err(err),
                    Ok((rest, end)) => Ok((seq![first] + rest, end)),
                }
            },
        }
    }
}

/// The values of signature `sig` that `buf` holds from `pos` to its end.
///
/// An element that takes no byte would never let the end be reached: it is
/// an error.
pub open spec fn decode_elements(buf: Seq<u8>, pos: int, sig: SpecSignature, e: Endianness) -> Result<
    Seq<SpecVariant>,
    DecodeError,
>
    decreases remaining(buf, pos), sig, 2nat,
{
    if pos >= buf.len() {
        Ok(Seq::empty())
    } else {
        match decode(buf, pos, sig, e) {
            Err(err) => Err(err),
            Ok((first, p)) => if p <= pos || p > buf.len() {
                Err(no_bytes())
            } else {
                match decode_elements(buf, p, sig, e) {
                    Err(err) => Err(err),
                    Ok(rest) => Ok(seq![first] + rest),
                }
            },
        }
    }
}

/// The bytes written at `pos` for the specialized array `v`.
#[verifier::opaque]
pub open spec fn encode_specialized_array(v: SpecVariant, pos: int, e: Endianness) -> Option<
    Seq<u8>,
> {
    match v {
        SpecVariant::ArrayBool(xs) => encode_typed_array::<bool>(xs, pos, e),
        SpecVariant::ArrayF64(xs) => encode_typed_array::<u64>(xs, pos, e),
        SpecVariant::ArrayI16(xs) => encode_typed_array::<i16>(xs, pos, e),
        SpecVariant::ArrayI32(xs) => encode_typed_array::<i32>(xs, pos, e),
        SpecVariant::ArrayI64(xs) => encode_typed_array::<i64>(xs, pos, e),
        SpecVariant::ArrayString(xs) => encode_typed_array::<String>(xs, pos, e),
        SpecVariant::ArrayU8(xs) => encode_byte_array(xs, pos, e),
        SpecVariant::ArrayU16(xs) => encode_typed_array::<u16>(xs, pos, e),
        SpecVariant::ArrayU32(xs) => encode_typed_array::<u32>(xs, pos, e),
        SpecVariant::ArrayU64(xs) => encode_typed_array::<u64>(xs, pos, e),
        SpecVariant::ArrayUnixFd(xs) => encode_typed_array::<UnixFd>(xs, pos, e),
        _ => None,
    }
}

/// The bytes written at `pos` for the value without parts `v`.
#[verifier::opaque]
pub open spec fn encode_basic(v: SpecVariant, pos: int, e: Endianness) -> Option<Seq<u8>> {
    match v {
        SpecVariant::Bool(x) => Some(encode_bool(x, pos, e)),
        SpecVariant::F64(x) => Some(encode_uint(x as nat, 8, pos, e)),
        SpecVariant::I16(x) => Some(encode_int(x as int, 2, 0x1_0000, pos, e)),
        SpecVariant::I32(x) => Some(encode_int(x as int, 4, 0x1_0000_0000, pos, e)),
        SpecVariant::I64(x) => Some(encode_int(x as int, 8, 0x1_0000_0000_0000_0000, pos, e)),
        SpecVariant::ObjectPath(x) => encode_string(x, pos, e),
        SpecVariant::Signature(x) => encode_signature(x),
        SpecVariant::String(x) => encode_string(x, pos, e),
        SpecVariant::U8(x) => Some(seq![x]),
        SpecVariant::U16(x) => Some(encode_uint(x as nat, 2, pos, e)),
        SpecVariant::U32(x) => Some(encode_uint(x as nat, 4, pos, e)),
        SpecVariant::U64(x) => Some(encode_uint(x as nat, 8, pos, e)),
        SpecVariant::UnixFd(x) => Some(encode_uint(x.0 as nat, 4, pos, e)),
        _ => None,
    }
}

/// The bytes written at `pos` for the value `v`, where it can be written:
/// where each count fits in the bits that the wire format gives it.
pub open spec fn encode(v: SpecVariant, pos: int, e: Endianness) -> Option<Seq<u8>>
    decreases v, 0nat,
{
    match v {
        SpecVariant::Array { element_signature, elements } => encode_array(
            encode_all(elements, array_first(pos, element_signature.alignment()), e),
            pos,
            element_signature.alignment(),
            e,
        ),
        SpecVariant::ArrayBool(_)
        | SpecVariant::ArrayF64(_)
        | SpecVariant::ArrayI16(_)
        | SpecVariant::ArrayI32(_)
        | SpecVariant::ArrayI64(_)
        | SpecVariant::ArrayString(_)
        | SpecVariant::ArrayU8(_)
        | SpecVariant::ArrayU16(_)
        | SpecVariant::ArrayU32(_)
        | SpecVariant::ArrayU64(_)
        | SpecVariant::ArrayUnixFd(_) => encode_specialized_array(v, pos, e),
        SpecVariant::DictEntry { key, value } => match encode(*key, aligned(pos, 8), e) {
            None => None,
            Some(k) => match encode(*value, aligned(pos, 8) + k.len(), e) {
                None => None,
                Some(v) => Some(zeros(padding_len(pos, 8)) + k + v),
            },
        },
        SpecVariant::Struct { fields } => match encode_all(fields, aligned(pos, 8), e) {
            None => None,
            Some(bytes) => Some(zeros(padding_len(pos, 8)) + bytes),
        },
        SpecVariant::Tuple { elements } => encode_all(elements, pos, e),
        SpecVariant::Variant(inner) => match encode_signature(inner.inner_signature()) {
            None => None,
            Some(s) => match encode(*inner, pos + s.len(), e) {
                None => None,
                Some(bytes) => Some(s + bytes),
            },
        },
        _ => encode_basic(v, pos, e),
    }
}

/// The bytes written from `pos` on for the values `vs`, one after the other.
pub open spec fn encode_all(vs: Seq<SpecVariant>, pos: int, e: Endianness) -> Option<Seq<u8>>
    decreases vs, 1nat,
{
    if vs.len() == 0 {
        Some(Seq::empty())
    } else {
        match encode(vs[0], pos, e) {
            None => None,
            Some(first) => match encode_all(vs.drop_first(), pos + first.len(), e) {
                None => None,
                Some(rest) => Some(first + rest),
            },
        }
    }
}

} // verus!
