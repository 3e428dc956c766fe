//! Reading the scalar and string-like values from a buffer.

use crate::endian::{lemma_pow256_values, Endianness};
use crate::wire::lemma_decode_uint_bounds;
use crate::text::{
    decimal_string, describe_invalid_value, describe_missing_field, describe_padding, invalid_value_sentence,
    missing_field_sentence, padding_sentence,
};
use crate::utf8::string_from_utf8;
use crate::wire::{
    aligned, all_zero, decode_array_header, decode_bool, decode_byte_array, decode_i16,
    decode_i32, decode_i64, decode_padding, decode_string, decode_u16, decode_u32, decode_u64,
    decode_u8, decode_uint, DecodeError,
};
use vstd::prelude::*;
use vstd::slice::{slice_subrange, slice_to_vec};

verus! {

/// An error from deserializing a value.
#[derive(Debug, PartialEq, Eq)]
pub enum DeserializeError {
    EndOfInput,
    ExceedsNumericLimits,
    InvalidUtf8,
    InvalidValue { expected: &'static str, actual: String },
    MissingRequiredMessageHeaderField {
        method_name: &'static str,
        header_field_name: &'static str,
    },
    NonZeroPadding { start: usize, end: usize },
    StringMissingNulTerminator,
}

impl View for DeserializeError {
    type V = DecodeError;

    open spec fn view(&self) -> DecodeError {
        match self {
            DeserializeError::EndOfInput => DecodeError::EndOfInput,
            DeserializeError::ExceedsNumericLimits => DecodeError::ExceedsNumericLimits,
            DeserializeError::InvalidUtf8 => DecodeError::InvalidUtf8,
            DeserializeError::InvalidValue { expected, actual } => DecodeError::InvalidValue {
                expected: expected@,
                actual: actual@,
            },
            DeserializeError::MissingRequiredMessageHeaderField {
                method_name,
                header_field_name,
            } => DecodeError::MissingRequiredMessageHeaderField {
                method_name: method_name@,
                header_field_name: header_field_name@,
            },
            DeserializeError::NonZeroPadding { start, end } => DecodeError::NonZeroPadding {
                start: *start as int,
                end: *end as int,
            },
            DeserializeError::StringMissingNulTerminator => DecodeError::StringMissingNulTerminator,
        }
    }
}

impl DeserializeError {
    /// The sentence that says what went wrong.
    pub open spec fn sentence(&self) -> Seq<char> {
        match self {
            DeserializeError::EndOfInput => "end of input"@,
            DeserializeError::ExceedsNumericLimits => "value exceeds numeric limits"@,
            DeserializeError::InvalidUtf8 => "deserialized string is not valid UTF-8"@,
            DeserializeError::InvalidValue { expected, actual } => invalid_value_sentence(
                expected@,
                actual@,
            ),
            DeserializeError::MissingRequiredMessageHeaderField {
                method_name,
                header_field_name,
            } => missing_field_sentence(method_name@, header_field_name@),
            DeserializeError::NonZeroPadding { start, end } => padding_sentence(
                *start as nat,
                *end as nat,
            ),
            DeserializeError::StringMissingNulTerminator => {
                "deserialized string is not nul-terminated"@
            },
        }
    }

    /// A sentence that says what went wrong.
    pub fn to_string(&self) -> (r: String)
        ensures
            r@ == self.sentence(),
    {
        match self {
            DeserializeError::EndOfInput => "end of input".to_owned(),
            DeserializeError::ExceedsNumericLimits => "value exceeds numeric limits".to_owned(),
            DeserializeError::InvalidUtf8 => "deserialized string is not valid UTF-8".to_owned(),
            DeserializeError::InvalidValue { expected, actual } => describe_invalid_value(
                expected,
                actual,
            ),
            DeserializeError::MissingRequiredMessageHeaderField {
                method_name,
                header_field_name,
            } => describe_missing_field(method_name, header_field_name),
            DeserializeError::NonZeroPadding { start, end } => describe_padding(*start, *end),
            DeserializeError::StringMissingNulTerminator => {
                "deserialized string is not nul-terminated".to_owned()
            },
        }
    }
}

/// The mathematical value of a [`Deserializer`].
pub struct DeserializerView {
    /// The bytes of the message, from its start.
    pub buf: Seq<u8>,
    /// The position of the next byte to read.
    pub pos: int,
    /// The byte order of the scalars.
    pub endianness: Endianness,
}

/// Whether a read that took a deserializer from `before` to `after` and
/// returned `r` did what the decoder `expected` says: on success the value
/// and the new position, on failure the error. A read never changes the
/// buffer or the byte order, and a read that fails leaves the position as
/// it was.
pub open spec fn reads<T>(
    before: DeserializerView,
    after: DeserializerView,
    r: Result<T, DeserializeError>,
    expected: Result<(T, int), DecodeError>,
) -> bool {
    &&& after.buf == before.buf
    &&& after.endianness == before.endianness
    &&& match expected {
        Ok((v, p)) => r == Ok::<T, DeserializeError>(v) && after.pos == p,
        Err(e) => r matches Err(err) && err@ == e && after.pos == before.pos,
    }
}

/// A cursor over the bytes of a message.
#[derive(Debug)]
pub struct Deserializer<'de> {
    buf: &'de [u8],
    pos: usize,
    endianness: Endianness,
}

impl<'de> View for Deserializer<'de> {
    type V = DeserializerView;

    closed spec fn view(&self) -> DeserializerView {
        DeserializerView { buf: self.buf@, pos: self.pos as int, endianness: self.endianness }
    }
}

impl<'de> Deserializer<'de> {
    /// A deserializer that reads `buf`, whose first byte is the first byte
    /// of a message, from `pos` on.
    pub fn new(buf: &'de [u8], pos: usize, endianness: Endianness) -> (d: Self)
        ensures
            d@ == (DeserializerView { buf: buf@, pos: pos as int, endianness }),
    {
        Deserializer { buf, pos, endianness }
    }

    /// Skips the padding up to the next multiple of `alignment`, which must
    /// be zero bytes.
    pub fn pad_to(&mut self, alignment: usize) -> (r: Result<(), DeserializeError>)
        requires
            alignment > 0,
        ensures
            final(self)@.buf == old(self)@.buf,
            final(self)@.endianness == old(self)@.endianness,
            match decode_padding(old(self)@.buf, old(self)@.pos, alignment as int) {
                Ok(p) => r is Ok && final(self)@.pos == p,
                Err(e) => r matches Err(err) && err@ == e && final(self)@.pos == old(self)@.pos,
            },
            r is Ok ==> old(self)@.pos <= final(self)@.pos <= old(self)@.buf.len()
                && final(self)@.pos % (alignment as int) == 0,
    {
        let len = self.buf.len();
        if self.pos > len {
            return Err(DeserializeError::EndOfInput);
        }
        let rem = self.pos % alignment;
        let pad = if rem == 0 {
            0
        } else {
            alignment - rem
        };
        if len - self.pos < pad {
            return Err(DeserializeError::EndOfInput);
        }
        let new_pos = self.pos + pad;
        assert(new_pos == aligned(self.pos as int, alignment as int));
        assert(new_pos as int % (alignment as int) == 0) by (nonlinear_arith)
            requires
                alignment > 0,
                rem == self.pos as int % (alignment as int),
                new_pos == self.pos + if rem == 0 {
                    0
                } else {
                    alignment - rem
                },
        ;
        let mut i = self.pos;
        while i < new_pos
            invariant
                self.pos <= i <= new_pos <= len == self.buf@.len(),
                *self == *old(self),
                new_pos == aligned(self.pos as int, alignment as int),
                all_zero(self.buf@, self.pos as int, i as int),
            decreases new_pos - i,
        {
            if self.buf[i] != 0 {
                assert(self.buf@[i as int] != 0);
                return Err(DeserializeError::NonZeroPadding { start: self.pos, end: new_pos });
            }
            i += 1;
        }
        self.pos = new_pos;
        Ok(())
    }

    /// The position of a deserializer is a natural number.
    pub proof fn lemma_view(&self)
        ensures
            0 <= self@.pos <= usize::MAX,
    {
    }

    /// Moves to the position `pos`.
    pub fn seek(&mut self, pos: usize)
        ensures
            final(self)@ == (DeserializerView { pos: pos as int, ..old(self)@ }),
    {
        self.pos = pos;
    }

    /// The position of the next byte to read.
    pub fn pos(&self) -> (p: usize)
        ensures
            p == self@.pos,
    {
        self.pos
    }

    /// Sets the byte order of the scalars read from now on.
    pub fn set_endianness(&mut self, endianness: Endianness)
        ensures
            final(self)@ == (DeserializerView { endianness, ..old(self)@ }),
    {
        self.endianness = endianness;
    }

    /// Whether every byte of the buffer has been read.
    pub fn at_end(&self) -> (r: bool)
        ensures
            r == (self@.pos >= self@.buf.len()),
    {
        self.pos >= self.buf.len()
    }

    /// Reads the header of an array whose elements have the alignment
    /// `element_alignment`: the count of the bytes of its elements, and the
    /// padding before the first one.
    ///
    /// Returns a deserializer that stands at the first element and ends
    /// with the last one; this one is moved behind the array.
    pub fn deserialize_array(&mut self, element_alignment: usize) -> (r: Result<
        Deserializer<'de>,
        DeserializeError,
    >)
        requires
            element_alignment > 0,
        ensures
            final(self)@.buf == old(self)@.buf,
            final(self)@.endianness == old(self)@.endianness,
            match decode_array_header(
                old(self)@.buf,
                old(self)@.pos,
                element_alignment as int,
                old(self)@.endianness,
            ) {
                Ok((first, end)) => r matches Ok(elements) && final(self)@.pos == end
                    && elements@ == (DeserializerView {
                    buf: old(self)@.buf.take(end),
                    pos: first,
                    endianness: old(self)@.endianness,
                }) && old(self)@.pos + 4 <= first <= end <= old(self)@.buf.len(),
                Err(e) => r matches Err(err) && err@ == e && final(self)@.pos == old(self)@.pos,
            },
    {
        proof {
            lemma_decode_uint_bounds(self@.buf, self@.pos, 4, self@.endianness);
            lemma_pow256_values();
        }
        let start = self.pos;
        let data_len = match self.deserialize_u32() {
            Ok(v) => v as usize,
            Err(err) => {
                return Err(err);
            },
        };
        match self.pad_to(element_alignment) {
            Ok(()) => {},
            Err(err) => {
                self.pos = start;
                return Err(err);
            },
        }
        if self.buf.len() - self.pos < data_len {
            self.pos = start;
            return Err(DeserializeError::EndOfInput);
        }
        let first = self.pos;
        let end = first + data_len;
        let inner = Deserializer {
            buf: slice_subrange(self.buf, 0, end),
            pos: first,
            endianness: self.endianness,
        };
        self.pos = end;
        Ok(inner)
    }

    /// Reads an array of bytes: a 32-bit count and that many bytes.
    pub fn deserialize_array_u8(&mut self) -> (r: Result<&'de [u8], DeserializeError>)
        ensures
            final(self)@.buf == old(self)@.buf,
            final(self)@.endianness == old(self)@.endianness,
            match decode_byte_array(old(self)@.buf, old(self)@.pos, old(self)@.endianness) {
                Ok((data, p)) => r matches Ok(bytes) && bytes@ == data && final(self)@.pos == p,
                Err(e) => r matches Err(err) && err@ == e && final(self)@.pos == old(self)@.pos,
            },
    {
        proof {
            lemma_decode_uint_bounds(self@.buf, self@.pos, 4, self@.endianness);
            lemma_pow256_values();
        }
        let start = self.pos;
        let data_len = match self.deserialize_u32() {
            Ok(v) => v as usize,
            Err(err) => {
                return Err(err);
            },
        };
        if self.buf.len() - self.pos < data_len {
            self.pos = start;
            return Err(DeserializeError::EndOfInput);
        }
        let end = self.pos + data_len;
        let result = slice_subrange(self.buf, self.pos, end);
        self.pos = end;
        Ok(result)
    }

    /// Reads a boolean: a 32-bit number that is 0 or 1.
    pub fn deserialize_bool(&mut self) -> (r: Result<bool, DeserializeError>)
        ensures
            reads(
                old(self)@,
                final(self)@,
                r,
                decode_bool(old(self)@.buf, old(self)@.pos, old(self)@.endianness),
            ),
    {
        proof {
            lemma_decode_uint_bounds(self@.buf, self@.pos, 4, self@.endianness);
            lemma_pow256_values();
        }
        let start = self.pos;
        match self.deserialize_u32() {
            Err(err) => Err(err),
            Ok(0) => Ok(false),
            Ok(1) => Ok(true),
            Ok(value) => {
                self.pos = start;
                Err(
                    DeserializeError::InvalidValue {
                        expected: "0 or 1",
                        actual: decimal_string(value),
                    },
                )
            },
        }
    }

    /// Reads the bits of a 64-bit floating-point number.
    pub fn deserialize_f64(&mut self) -> (r: Result<u64, DeserializeError>)
        ensures
            reads(
                old(self)@,
                final(self)@,
                r,
                decode_u64(old(self)@.buf, old(self)@.pos, old(self)@.endianness),
            ),
    {
        self.deserialize_u64()
    }

    pub fn deserialize_i16(&mut self) -> (r: Result<i16, DeserializeError>)
        ensures
            reads(
                old(self)@,
                final(self)@,
                r,
                decode_i16(old(self)@.buf, old(self)@.pos, old(self)@.endianness),
            ),
    {
        match self.deserialize_uint(2) {
            Err(err) => Err(err),
            Ok(v) => {
                proof {
                    lemma_pow256_values();
                }
                if v < 0x8000 {
                    Ok(v as i16)
                } else {
                    Ok((v as i32 - 0x1_0000) as i16)
                }
            },
        }
    }

    pub fn deserialize_i32(&mut self) -> (r: Result<i32, DeserializeError>)
        ensures
            reads(
                old(self)@,
                final(self)@,
                r,
                decode_i32(old(self)@.buf, old(self)@.pos, old(self)@.endianness),
            ),
    {
        match self.deserialize_uint(4) {
            Err(err) => Err(err),
            Ok(v) => {
                proof {
                    lemma_pow256_values();
                }
                if v < 0x8000_0000 {
                    Ok(v as i32)
                } else {
                    Ok((v as i64 - 0x1_0000_0000) as i32)
                }
            },
        }
    }

    pub fn deserialize_i64(&mut self) -> (r: Result<i64, DeserializeError>)
        ensures
            reads(
                old(self)@,
                final(self)@,
                r,
                decode_i64(old(self)@.buf, old(self)@.pos, old(self)@.endianness),
            ),
    {
        match self.deserialize_uint(8) {
            Err(err) => Err(err),
            Ok(v) => {
                proof {
                    lemma_pow256_values();
                }
                if v < 0x8000_0000_0000_0000 {
                    Ok(v as i64)
                } else {
                    Ok((v as i128 - 0x1_0000_0000_0000_0000) as i64)
                }
            },
        }
    }

    /// Reads a string: a 32-bit count, that many bytes of UTF-8, and a zero
    /// byte.
    pub fn deserialize_string(&mut self) -> (r: Result<String, DeserializeError>)
        ensures
            final(self)@.buf == old(self)@.buf,
            final(self)@.endianness == old(self)@.endianness,
            match decode_string(old(self)@.buf, old(self)@.pos, old(self)@.endianness) {
                Ok((chars, p)) => r matches Ok(s) && s@ == chars && final(self)@.pos == p,
                Err(e) => r matches Err(err) && err@ == e && final(self)@.pos == old(self)@.pos,
            },
    {
        let start = self.pos;
        let data = match self.deserialize_array_u8() {
            Ok(data) => data,
            Err(err) => {
                return Err(err);
            },
        };
        let nul = match self.deserialize_u8() {
            Ok(nul) => nul,
            Err(err) => {
                self.pos = start;
                return Err(err);
            },
        };
        if nul != 0 {
            self.pos = start;
            return Err(DeserializeError::StringMissingNulTerminator);
        }
        match string_from_utf8(slice_to_vec(data)) {
            Some(s) => Ok(s),
            None => {
                self.pos = start;
                Err(DeserializeError::InvalidUtf8)
            },
        }
    }

    /// Skips the padding before a struct, which starts at a multiple of 8.
    pub fn deserialize_struct(&mut self) -> (r: Result<(), DeserializeError>)
        ensures
            final(self)@.buf == old(self)@.buf,
            final(self)@.endianness == old(self)@.endianness,
            match decode_padding(old(self)@.buf, old(self)@.pos, 8) {
                Ok(p) => r is Ok && final(self)@.pos == p,
                Err(e) => r matches Err(err) && err@ == e && final(self)@.pos == old(self)@.pos,
            },
            r is Ok ==> old(self)@.pos <= final(self)@.pos <= old(self)@.buf.len(),
    {
        self.pad_to(8)
    }

    pub fn deserialize_u8(&mut self) -> (r: Result<u8, DeserializeError>)
        ensures
            reads(old(self)@, final(self)@, r, decode_u8(old(self)@.buf, old(self)@.pos)),
    {
        if self.pos >= self.buf.len() {
            return Err(DeserializeError::EndOfInput);
        }
        let value = self.buf[self.pos];
        self.pos += 1;
        Ok(value)
    }

    pub fn deserialize_u16(&mut self) -> (r: Result<u16, DeserializeError>)
        ensures
            reads(
                old(self)@,
                final(self)@,
                r,
                decode_u16(old(self)@.buf, old(self)@.pos, old(self)@.endianness),
            ),
    {
        match self.deserialize_uint(2) {
            Err(err) => Err(err),
            Ok(v) => {
                proof {
                    lemma_pow256_values();
                }
                Ok(v as u16)
            },
        }
    }

    pub fn deserialize_u32(&mut self) -> (r: Result<u32, DeserializeError>)
        ensures
            reads(
                old(self)@,
                final(self)@,
                r,
                decode_u32(old(self)@.buf, old(self)@.pos, old(self)@.endianness),
            ),
    {
        match self.deserialize_uint(4) {
            Err(err) => Err(err),
            Ok(v) => {
                proof {
                    lemma_pow256_values();
                }
                Ok(v as u32)
            },
        }
    }

    pub fn deserialize_u64(&mut self) -> (r: Result<u64, DeserializeError>)
        ensures
            reads(
                old(self)@,
                final(self)@,
                r,
                decode_u64(old(self)@.buf, old(self)@.pos, old(self)@.endianness),
            ),
    {
        self.deserialize_uint(8)
    }

    /// Reads the unsigned number of `width` bytes at the next multiple of
    /// `width`.
    fn deserialize_uint(&mut self, width: usize) -> (r: Result<u64, DeserializeError>)
        requires
            width == 2 || width == 4 || width == 8,
        ensures
            final(self)@.buf == old(self)@.buf,
            final(self)@.endianness == old(self)@.endianness,
            match decode_uint(
                old(self)@.buf,
                old(self)@.pos,
                width as int,
                old(self)@.endianness,
            ) {
                Ok((v, p)) => r == Ok::<u64, DeserializeError>(v as u64) && final(self)@.pos == p
                    && v < crate::endian::pow256(width as nat),
                Err(e) => r matches Err(err) && err@ == e && final(self)@.pos == old(self)@.pos,
            },
    {
        let start = self.pos;
        match self.pad_to(width) {
            Ok(()) => {},
            Err(err) => {
                return Err(err);
            },
        }
        if self.buf.len() - self.pos < width {
            self.pos = start;
            return Err(DeserializeError::EndOfInput);
        }
        let value = self.endianness.read_uint(self.buf, self.pos, width);
        proof {
            lemma_pow256_values();
        }
        self.pos += width;
        Ok(value)
    }
}

} // verus!
