//! Writing the scalar and string-like values to a buffer.

use crate::endian::{lemma_uint_bytes_len, uint_bytes, Endianness};
use crate::wire::{
    encode_bool, encode_byte_array, encode_int, encode_string, encode_uint, padding_len, zeros,
};
use vstd::prelude::*;
use vstd::string::StringSliceAdditionalSpecFns;

verus! {

/// An error from serializing a value.
#[derive(Debug, PartialEq, Eq)]
pub enum SerializeError {
    /// A count does not fit in the bits that the wire format gives it.
    ExceedsNumericLimits,
}

impl SerializeError {
    /// A sentence that says what went wrong.
    pub fn to_string(&self) -> (r: String)
        ensures
            r@ == "value exceeds numeric limits"@,
    {
        match self {
            SerializeError::ExceedsNumericLimits => "value exceeds numeric limits".to_owned(),
        }
    }
}

/// The mathematical value of a [`Serializer`].
pub struct SerializerView {
    /// The bytes written so far, behind what the buffer held before.
    pub buf: Seq<u8>,
    /// The index in `buf` of the first byte of the message.
    pub start: int,
    /// The byte order of the scalars.
    pub endianness: Endianness,
}

impl SerializerView {
    /// The position, counted from the start of the message, of the next
    /// byte to write.
    pub open spec fn pos(self) -> int {
        self.buf.len() - self.start
    }

    /// Whether the message starts inside the buffer.
    pub open spec fn wf(self) -> bool {
        0 <= self.start <= self.buf.len()
    }

    /// Whether this value is `before` with something written behind it.
    pub open spec fn extends(self, before: SerializerView) -> bool {
        &&& self.start == before.start
        &&& self.endianness == before.endianness
        &&& before.buf.len() <= self.buf.len()
        &&& self.buf.take(before.buf.len() as int) == before.buf
    }

    /// This value with `bytes` written behind it.
    pub open spec fn with(self, bytes: Seq<u8>) -> SerializerView {
        SerializerView { buf: self.buf + bytes, ..self }
    }
}

/// Where an array that is being written has its count and its first element.
#[derive(Clone, Copy, Debug)]
pub struct ArrayMark {
    /// The index in the buffer of the count of the bytes of the elements.
    pub count_at: usize,
    /// The index in the buffer of the first element.
    pub first_at: usize,
}

/// A buffer that a message is written to.
#[derive(Debug)]
pub struct Serializer {
    buf: Vec<u8>,
    start: usize,
    endianness: Endianness,
}

impl View for Serializer {
    type V = SerializerView;

    closed spec fn view(&self) -> SerializerView {
        SerializerView { buf: self.buf@, start: self.start as int, endianness: self.endianness }
    }
}

impl Serializer {
    /// A serializer that writes a message behind what `buf` holds.
    pub fn new(buf: Vec<u8>, endianness: Endianness) -> (s: Self)
        ensures
            s@ == (SerializerView { buf: buf@, start: buf@.len() as int, endianness }),
            s@.wf(),
    {
        let start = buf.len();
        Serializer { buf, start, endianness }
    }

    /// The buffer, with what was written.
    pub fn into_inner(self) -> (buf: Vec<u8>)
        ensures
            buf@ == self@.buf,
    {
        self.buf
    }

    /// The number of bytes in the buffer.
    pub fn len(&self) -> (n: usize)
        ensures
            n == self@.buf.len(),
    {
        self.buf.len()
    }

    /// Drops what was written behind the first `len` bytes of the buffer.
    pub fn truncate(&mut self, len: usize)
        requires
            old(self)@.start <= len <= old(self)@.buf.len(),
        ensures
            final(self)@ == (SerializerView { buf: old(self)@.buf.take(len as int), ..old(self)@ }),
    {
        self.buf.truncate(len);
    }

    /// Writes zero bytes up to the next multiple of `alignment`, counted
    /// from the start of the message.
    pub fn pad_to(&mut self, alignment: usize)
        requires
            old(self)@.wf(),
            alignment > 0,
        ensures
            final(self)@ == old(self)@.with(
                zeros(padding_len(old(self)@.pos(), alignment as int)),
            ),
            final(self)@.pos() % (alignment as int) == 0,
    {
        let pos = self.buf.len() - self.start;
        let rem = pos % alignment;
        let pad = if rem == 0 {
            0
        } else {
            alignment - rem
        };
        assert((pos + pad) % (alignment as int) == 0) by (nonlinear_arith)
            requires
                alignment > 0,
                rem == pos as int % (alignment as int),
                pad == if rem == 0 {
                    0
                } else {
                    alignment - rem
                },
        ;
        let ghost before = self.buf@;
        let mut i: usize = 0;
        while i < pad
            invariant
                i <= pad,
                self.start == old(self).start,
                self.endianness == old(self).endianness,
                self.buf@ == before + zeros(i as int),
            decreases pad - i,
        {
            self.buf.push(0);
            i += 1;
            assert(self.buf@ =~= before + zeros(i as int));
        }
    }

    /// Writes the header of an array whose elements have the alignment
    /// `element_alignment`: a count that is still zero, and the padding
    /// before the first element. [`Serializer::finish_array`] sets the count
    /// once the elements are written.
    pub fn serialize_array(&mut self, element_alignment: usize) -> (mark: ArrayMark)
        requires
            old(self)@.wf(),
            element_alignment > 0,
        ensures
            final(self)@ == old(self)@.with(
                encode_uint(0, 4, old(self)@.pos(), old(self)@.endianness) + zeros(
                    padding_len(
                        old(self)@.pos() + padding_len(old(self)@.pos(), 4) + 4,
                        element_alignment as int,
                    ),
                ),
            ),
            mark.count_at == old(self)@.buf.len() + padding_len(old(self)@.pos(), 4),
            mark.first_at == final(self)@.buf.len(),
    {
        let ghost before = self@;
        self.serialize_u32(0);
        proof {
            lemma_uint_bytes_len(0, 4, self@.endianness);
        }
        let count_at = self.buf.len() - 4;
        self.pad_to(element_alignment);
        let first_at = self.buf.len();
        assert(self@.buf =~= before.buf + (encode_uint(0, 4, before.pos(), before.endianness)
            + zeros(
            padding_len(before.pos() + padding_len(before.pos(), 4) + 4, element_alignment as int),
        )));
        ArrayMark { count_at, first_at }
    }

    /// Sets the count of the array that `mark` stands for to the number of
    /// bytes written since its first element began.
    pub fn finish_array(&mut self, mark: ArrayMark) -> (r: Result<(), SerializeError>)
        requires
            old(self)@.wf(),
            mark.count_at + 4 <= mark.first_at <= old(self)@.buf.len(),
        ensures
            final(self)@.start == old(self)@.start,
            final(self)@.endianness == old(self)@.endianness,
            old(self)@.buf.len() - mark.first_at <= u32::MAX ==> r is Ok && final(self)@.buf
                == old(self)@.buf.take(mark.count_at as int) + uint_bytes(
                (old(self)@.buf.len() - mark.first_at) as nat,
                4,
                old(self)@.endianness,
            ) + old(self)@.buf.skip(mark.count_at + 4),
            old(self)@.buf.len() - mark.first_at > u32::MAX ==> r is Err
                && final(self)@ == old(self)@,
    {
        let data_len = self.buf.len() - mark.first_at;
        if data_len > u32::MAX as usize {
            return Err(SerializeError::ExceedsNumericLimits);
        }
        let mut count: Vec<u8> = Vec::new();
        self.endianness.write_uint(&mut count, data_len as u64, 4);
        proof {
            lemma_uint_bytes_len(data_len as nat, 4, self.endianness);
        }
        let ghost before = self.buf@;
        let len = self.buf.len();
        let mut i: usize = 0;
        while i < 4
            invariant
                i <= 4,
                count@.len() == 4,
                mark.count_at + 4 <= before.len() == len,
                self.start == old(self).start,
                self.start <= before.len(),
                self.endianness == old(self).endianness,
                self.buf@ == before.take(mark.count_at as int) + count@.take(i as int)
                    + before.subrange(mark.count_at + i, before.len() as int),
            decreases 4 - i,
        {
            let b = count[i];
            self.buf[mark.count_at + i] = b;
            i += 1;
            assert(self.buf@ =~= before.take(mark.count_at as int) + count@.take(i as int)
                + before.subrange(mark.count_at + i, before.len() as int));
        }
        assert(count@.take(4) =~= count@);
        assert(before.subrange(mark.count_at + 4, before.len() as int) =~= before.skip(
            mark.count_at + 4,
        ));
        Ok(())
    }

    /// Writes an array of bytes: a 32-bit count and the bytes.
    pub fn serialize_array_u8(&mut self, v: &[u8]) -> (r: Result<(), SerializeError>)
        requires
            old(self)@.wf(),
        ensures
            match encode_byte_array(v@, old(self)@.pos(), old(self)@.endianness) {
                Some(bytes) => r is Ok && final(self)@ == old(self)@.with(bytes),
                None => r is Err && final(self)@ == old(self)@,
            },
    {
        if v.len() > u32::MAX as usize {
            return Err(SerializeError::ExceedsNumericLimits);
        }
        let ghost before = self@;
        self.serialize_u32(v.len() as u32);
        let ghost middle = self.buf@;
        let mut i: usize = 0;
        while i < v.len()
            invariant
                i <= v@.len(),
                self.start == old(self).start,
                self.start <= middle.len(),
                self.endianness == old(self).endianness,
                self.buf@ == middle + v@.take(i as int),
            decreases v.len() - i,
        {
            self.buf.push(v[i]);
            i += 1;
            assert(self.buf@ =~= middle + v@.take(i as int));
        }
        assert(v@.take(v@.len() as int) =~= v@);
        assert(self@.buf =~= before.buf + (encode_uint(
            v@.len(),
            4,
            before.pos(),
            before.endianness,
        ) + v@));
        Ok(())
    }

    /// Writes a boolean: the 32-bit number 1 or 0.
    pub fn serialize_bool(&mut self, v: bool)
        requires
            old(self)@.wf(),
        ensures
            final(self)@ == old(self)@.with(
                encode_bool(v, old(self)@.pos(), old(self)@.endianness),
            ),
    {
        self.serialize_u32(
            if v {
                1
            } else {
                0
            },
        );
    }

    /// Writes the bits of a 64-bit floating-point number.
    pub fn serialize_f64(&mut self, bits: u64)
        requires
            old(self)@.wf(),
        ensures
            final(self)@ == old(self)@.with(
                encode_uint(bits as nat, 8, old(self)@.pos(), old(self)@.endianness),
            ),
    {
        self.serialize_u64(bits);
    }

    pub fn serialize_i16(&mut self, v: i16)
        requires
            old(self)@.wf(),
        ensures
            final(self)@ == old(self)@.with(
                encode_int(v as int, 2, 0x1_0000, old(self)@.pos(), old(self)@.endianness),
            ),
    {
        let image: u64 = if v >= 0 {
            v as u64
        } else {
            (v as i32 + 0x1_0000) as u64
        };
        self.serialize_uint(image, 2);
    }

    pub fn serialize_i32(&mut self, v: i32)
        requires
            old(self)@.wf(),
        ensures
            final(self)@ == old(self)@.with(
                encode_int(v as int, 4, 0x1_0000_0000, old(self)@.pos(), old(self)@.endianness),
            ),
    {
        let image: u64 = if v >= 0 {
            v as u64
        } else {
            (v as i64 + 0x1_0000_0000) as u64
        };
        self.serialize_uint(image, 4);
    }

    pub fn serialize_i64(&mut self, v: i64)
        requires
            old(self)@.wf(),
        ensures
            final(self)@ == old(self)@.with(
                encode_int(
                    v as int,
                    8,
                    0x1_0000_0000_0000_0000,
                    old(self)@.pos(),
                    old(self)@.endianness,
                ),
            ),
    {
        let image: u64 = if v >= 0 {
            v as u64
        } else {
            (v as i128 + 0x1_0000_0000_0000_0000) as u64
        };
        self.serialize_uint(image, 8);
    }

    /// Writes a string: a 32-bit count, the bytes of its UTF-8 encoding, and
    /// a zero byte.
    pub fn serialize_string(&mut self, v: &str) -> (r: Result<(), SerializeError>)
        requires
            old(self)@.wf(),
        ensures
            match encode_string(v@, old(self)@.pos(), old(self)@.endianness) {
                Some(bytes) => r is Ok && final(self)@ == old(self)@.with(bytes),
                None => r is Err && final(self)@ == old(self)@,
            },
    {
        let ghost before = self@;
        match self.serialize_array_u8(v.as_bytes()) {
            Ok(()) => {},
            Err(err) => {
                return Err(err);
            },
        }
        self.serialize_u8(0);
        assert(self@.buf =~= before.buf + (encode_byte_array(
            v.spec_bytes(),
            before.pos(),
            before.endianness,
        )->0 + seq![0u8]));
        Ok(())
    }

    /// Writes the padding before a struct, which starts at a multiple of 8.
    pub fn serialize_struct(&mut self)
        requires
            old(self)@.wf(),
        ensures
            final(self)@ == old(self)@.with(zeros(padding_len(old(self)@.pos(), 8))),
    {
        self.pad_to(8);
    }

    pub fn serialize_u8(&mut self, v: u8)
        requires
            old(self)@.wf(),
        ensures
            final(self)@ == old(self)@.with(seq![v]),
    {
        self.buf.push(v);
        assert(self@.buf =~= old(self)@.buf + seq![v]);
    }

    pub fn serialize_u16(&mut self, v: u16)
        requires
            old(self)@.wf(),
        ensures
            final(self)@ == old(self)@.with(
                encode_uint(v as nat, 2, old(self)@.pos(), old(self)@.endianness),
            ),
    {
        self.serialize_uint(v as u64, 2);
    }

    pub fn serialize_u32(&mut self, v: u32)
        requires
            old(self)@.wf(),
        ensures
            final(self)@ == old(self)@.with(
                encode_uint(v as nat, 4, old(self)@.pos(), old(self)@.endianness),
            ),
    {
        self.serialize_uint(v as u64, 4);
    }

    pub fn serialize_u64(&mut self, v: u64)
        requires
            old(self)@.wf(),
        ensures
            final(self)@ == old(self)@.with(
                encode_uint(v as nat, 8, old(self)@.pos(), old(self)@.endianness),
            ),
    {
        self.serialize_uint(v, 8);
    }

    /// Writes the unsigned number `v` of `width` bytes at the next multiple
    /// of `width`.
    fn serialize_uint(&mut self, v: u64, width: usize)
        requires
            old(self)@.wf(),
            width == 2 || width == 4 || width == 8,
        ensures
            final(self)@ == old(self)@.with(
                encode_uint(v as nat, width as int, old(self)@.pos(), old(self)@.endianness),
            ),
    {
        self.pad_to(width);
        self.endianness.write_uint(&mut self.buf, v, width);
        assert(self@.buf =~= old(self)@.buf + (zeros(padding_len(old(self)@.pos(), width as int))
            + uint_bytes(v as nat, width as nat, old(self)@.endianness)));
    }
}

} // verus!
