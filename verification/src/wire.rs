//! The wire format of the scalar and string-like values, as mathematics:
//! what a buffer holds at a position, and which bytes a value is written as.
//!
//! Positions count from the start of the enclosing message. A decoder takes
//! the buffer and a position, and gives the value with the position behind
//! it, or the error that the read ends in.

use crate::endian::{
    lemma_uint_bytes_of_value, pow256, to_signed, to_unsigned, uint_bytes, uint_value, Endianness,
};
use crate::signature::SpecSignature;
use crate::signature_text::{parse_text, signature_text};
use crate::text::{decimal_text, lossy_text_of};
use vstd::prelude::*;
use vstd::utf8::{decode_utf8, encode_utf8, valid_utf8};

verus! {

/// The mathematical value of a [`crate::DeserializeError`].
pub enum DecodeError {
    EndOfInput,
    ExceedsNumericLimits,
    InvalidUtf8,
    InvalidValue { expected: Seq<char>, actual: Seq<char> },
    MissingRequiredMessageHeaderField { method_name: Seq<char>, header_field_name: Seq<char> },
    NonZeroPadding { start: int, end: int },
    StringMissingNulTerminator,
}

/// The number of padding bytes between `pos` and the next multiple of
/// `alignment`.
pub open spec fn padding_len(pos: int, alignment: int) -> int {
    if pos % alignment == 0 {
        0
    } else {
        alignment - pos % alignment
    }
}

/// The first multiple of `alignment` that is not before `pos`.
pub open spec fn aligned(pos: int, alignment: int) -> int {
    pos + padding_len(pos, alignment)
}

/// `n` zero bytes.
pub open spec fn zeros(n: int) -> Seq<u8> {
    Seq::new(n as nat, |i: int| 0u8)
}

/// Whether the bytes of `buf` from `from` up to `to` are all zero.
pub open spec fn all_zero(buf: Seq<u8>, from: int, to: int) -> bool {
    forall|i: int| from <= i < to ==> #[trigger] buf[i] == 0
}

/// The position behind the padding that leads from `pos` to the next
/// multiple of `alignment`.
pub open spec fn decode_padding(buf: Seq<u8>, pos: int, alignment: int) -> Result<
    int,
    DecodeError,
> {
    let end = aligned(pos, alignment);
    if buf.len() < end {
        Err(DecodeError::EndOfInput)
    } else if !all_zero(buf, pos, end) {
        Err(DecodeError::NonZeroPadding { start: pos, end })
    } else {
        Ok(end)
    }
}

/// The byte at `pos`.
pub open spec fn decode_u8(buf: Seq<u8>, pos: int) -> Result<(u8, int), DecodeError> {
    if pos < 0 || buf.len() < pos + 1 {
        Err(DecodeError::EndOfInput)
    } else {
        Ok((buf[pos], pos + 1))
    }
}

/// The unsigned number of `width` bytes at the next multiple of `width`.
pub open spec fn decode_uint(buf: Seq<u8>, pos: int, width: int, e: Endianness) -> Result<
    (nat, int),
    DecodeError,
> {
    match decode_padding(buf, pos, width) {
        Err(err) => Err(err),
        Ok(p) => if buf.len() < p + width {
            Err(DecodeError::EndOfInput)
        } else {
            Ok((uint_value(buf.subrange(p, p + width), e), p + width))
        },
    }
}

/// A number read from `width` bytes is below `256` to the power `width`, and
/// stands behind the position it was asked for at.
pub proof fn lemma_decode_uint_bounds(buf: Seq<u8>, pos: int, width: int, e: Endianness)
    requires
        width > 0,
        pos >= 0,
    ensures
        decode_uint(buf, pos, width, e) matches Ok((v, p)) ==> v < pow256(width as nat) && pos
            + width <= p <= buf.len(),
{
    if decode_uint(buf, pos, width, e) is Ok {
        let start = aligned(pos, width);
        lemma_uint_bytes_of_value(buf.subrange(start, start + width), e);
    }
}

pub open spec fn decode_u16(buf: Seq<u8>, pos: int, e: Endianness) -> Result<
    (u16, int),
    DecodeError,
> {
    match decode_uint(buf, pos, 2, e) {
        Err(err) => Err(err),
        Ok((v, p)) => Ok((v as u16, p)),
    }
}

pub open spec fn decode_u32(buf: Seq<u8>, pos: int, e: Endianness) -> Result<
    (u32, int),
    DecodeError,
> {
    match decode_uint(buf, pos, 4, e) {
        Err(err) => Err(err),
        Ok((v, p)) => Ok((v as u32, p)),
    }
}

pub open spec fn decode_u64(buf: Seq<u8>, pos: int, e: Endianness) -> Result<
    (u64, int),
    DecodeError,
> {
    match decode_uint(buf, pos, 8, e) {
        Err(err) => Err(err),
        Ok((v, p)) => Ok((v as u64, p)),
    }
}

pub open spec fn decode_i16(buf: Seq<u8>, pos: int, e: Endianness) -> Result<
    (i16, int),
    DecodeError,
> {
    match decode_uint(buf, pos, 2, e) {
        Err(err) => Err(err),
        Ok((v, p)) => Ok((to_signed(v, 0x1_0000) as i16, p)),
    }
}

pub open spec fn decode_i32(buf: Seq<u8>, pos: int, e: Endianness) -> Result<
    (i32, int),
    DecodeError,
> {
    match decode_uint(buf, pos, 4, e) {
        Err(err) => Err(err),
        Ok((v, p)) => Ok((to_signed(v, 0x1_0000_0000) as i32, p)),
    }
}

pub open spec fn decode_i64(buf: Seq<u8>, pos: int, e: Endianness) -> Result<
    (i64, int),
    DecodeError,
> {
    match decode_uint(buf, pos, 8, e) {
        Err(err) => Err(err),
        Ok((v, p)) => Ok((to_signed(v, 0x1_0000_0000_0000_0000) as i64, p)),
    }
}

/// The boolean at the next multiple of 4: a 32-bit number that is 0 or 1.
pub open spec fn decode_bool(buf: Seq<u8>, pos: int, e: Endianness) -> Result<
    (bool, int),
    DecodeError,
> {
    match decode_uint(buf, pos, 4, e) {
        Err(err) => Err(err),
        Ok((v, p)) => if v == 0 {
            Ok((false, p))
        } else if v == 1 {
            Ok((true, p))
        } else {
            Err(DecodeError::InvalidValue { expected: "0 or 1"@, actual: decimal_text(v) })
        },
    }
}

/// The bytes behind a 32-bit count of them.
pub open spec fn decode_byte_array(buf: Seq<u8>, pos: int, e: Endianness) -> Result<
    (Seq<u8>, int),
    DecodeError,
> {
    match decode_uint(buf, pos, 4, e) {
        Err(err) => Err(err),
        Ok((len, p)) => if buf.len() < p + len {
            Err(DecodeError::EndOfInput)
        } else {
            Ok((buf.subrange(p, p + len), p + len))
        },
    }
}

/// The string at the next multiple of 4: a 32-bit count, that many bytes of
/// UTF-8, and a zero byte.
pub open spec fn decode_string(buf: Seq<u8>, pos: int, e: Endianness) -> Result<
    (Seq<char>, int),
    DecodeError,
> {
    match decode_byte_array(buf, pos, e) {
        Err(err) => Err(err),
        Ok((data, p)) => match decode_u8(buf, p) {
            Err(err) => Err(err),
            Ok((nul, end)) => if nul != 0 {
                Err(DecodeError::StringMissingNulTerminator)
            } else if !valid_utf8(data) {
                Err(DecodeError::InvalidUtf8)
            } else {
                Ok((decode_utf8(data), end))
            },
        },
    }
}

/// The signature at `pos`: a count of one byte, that many bytes of text, and
/// a zero byte.
pub open spec fn decode_signature(buf: Seq<u8>, pos: int) -> Result<
    (SpecSignature, int),
    DecodeError,
> {
    match decode_u8(buf, pos) {
        Err(err) => Err(err),
        Ok((len, p)) => if buf.len() < p + len + 1 {
            Err(DecodeError::EndOfInput)
        } else if buf[p + len] != 0 {
            Err(
                DecodeError::InvalidValue {
                    expected: "0x00"@,
                    actual: decimal_text(buf[p + len] as nat),
                },
            )
        } else {
            match parse_text(buf.subrange(p, p + len)) {
                None => Err(
                    DecodeError::InvalidValue {
                        expected: "a signature"@,
                        actual: lossy_text_of(buf.subrange(p, p + len)),
                    },
                ),
                Some(s) => Ok((s, p + len + 1)),
            }
        },
    }
}

/// The start of the first element and the end of the last one of the array
/// at the next multiple of 4: a 32-bit count of the bytes of the elements,
/// then padding to the alignment of an element, which the count leaves out.
pub open spec fn decode_array_header(
    buf: Seq<u8>,
    pos: int,
    alignment: int,
    e: Endianness,
) -> Result<(int, int), DecodeError> {
    match decode_uint(buf, pos, 4, e) {
        Err(err) => Err(err),
        Ok((len, p)) => match decode_padding(buf, p, alignment) {
            Err(err) => Err(err),
            Ok(first) => if buf.len() < first + len {
                Err(DecodeError::EndOfInput)
            } else {
                Ok((first, first + len))
            },
        },
    }
}

/// The bytes written at `pos` for the unsigned number `v` of `width` bytes:
/// zero bytes up to the next multiple of `width`, then the number.
pub open spec fn encode_uint(v: nat, width: int, pos: int, e: Endianness) -> Seq<u8> {
    zeros(padding_len(pos, width)) + uint_bytes(v, width as nat, e)
}

/// The bytes written at `pos` for the signed number `v` of `width` bytes.
pub open spec fn encode_int(v: int, width: int, modulus: int, pos: int, e: Endianness) -> Seq<u8> {
    encode_uint(to_unsigned(v, modulus), width, pos, e)
}

/// The bytes written at `pos` for a boolean.
pub open spec fn encode_bool(v: bool, pos: int, e: Endianness) -> Seq<u8> {
    encode_uint(
        if v {
            1
        } else {
            0
        },
        4,
        pos,
        e,
    )
}

/// The bytes written at `pos` for the bytes `data` behind their count, where
/// the count fits in 32 bits.
pub open spec fn encode_byte_array(data: Seq<u8>, pos: int, e: Endianness) -> Option<Seq<u8>> {
    if data.len() > u32::MAX {
        None
    } else {
        Some(encode_uint(data.len(), 4, pos, e) + data)
    }
}

/// The bytes written at `pos` for a string, where the count of the bytes of
/// its UTF-8 encoding fits in 32 bits.
pub open spec fn encode_string(v: Seq<char>, pos: int, e: Endianness) -> Option<Seq<u8>> {
    match encode_byte_array(encode_utf8(v), pos, e) {
        None => None,
        Some(bytes) => Some(bytes + seq![0u8]),
    }
}

/// The bytes written for a signature, where the count of the bytes of its
/// text fits in 8 bits.
pub open spec fn encode_signature(s: SpecSignature) -> Option<Seq<u8>> {
    let text = signature_text(s);
    if text.len() > u8::MAX {
        None
    } else {
        Some(seq![text.len() as u8] + text + seq![0u8])
    }
}

} // verus!
