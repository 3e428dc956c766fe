//! The elements of the specialized arrays: the fixed-width scalars and the
//! strings, each with its own wire format, and the arrays of them.

use crate::de::{DeserializeError, Deserializer};
use crate::endian::{lemma_uint_bytes_len, Endianness};
use crate::ser::{SerializeError, Serializer};
use crate::signature_laws::occurs_at;
use crate::types::UnixFd;
use crate::wire_laws::{
    lemma_bool_round_trip, lemma_decode_string_of_encode, lemma_encode_string_of_decode,
    is_alignment, lemma_encode_uint_len, lemma_numbers_round_trip, Decoded,
};
use crate::wire::{
    aligned, decode_array_header, decode_bool, decode_i16, decode_i32, decode_i64, decode_string,
    decode_u16, decode_u32, decode_u64, encode_bool, encode_int, encode_string, encode_uint,
    lemma_decode_uint_bounds, padding_len, zeros, DecodeError,
};
use vstd::prelude::*;

verus! {

/// The error of an array element that was read from no bytes at all.
pub open spec fn no_bytes() -> DecodeError {
    DecodeError::InvalidValue {
        expected: "an array element of at least one byte"@,
        actual: "one of no bytes"@,
    }
}

/// A type whose values are the elements of a specialized array.
pub trait ArrayElement: Sized {
    /// The mathematical value of an element.
    type Model;

    /// The mathematical value of this element.
    spec fn model(&self) -> Self::Model;

    /// The alignment of an element.
    spec fn spec_alignment() -> int;

    /// The element that `buf` holds at `pos`, with the position behind it.
    spec fn decode(buf: Seq<u8>, pos: int, e: Endianness) -> Result<
        (Self::Model, int),
        DecodeError,
    >;

    /// The bytes written at `pos` for the element `m`, where it can be
    /// written.
    spec fn encode(m: Self::Model, pos: int, e: Endianness) -> Option<Seq<u8>>;

    /// The alignment of an element.
    fn alignment() -> (a: usize)
        ensures
            a == Self::spec_alignment(),
            a == 1 || a == 2 || a == 4 || a == 8,
    ;

    /// Reads one element. An element takes at least one byte.
    fn deserialize(deserializer: &mut Deserializer<'_>) -> (r: Result<Self, DeserializeError>)
        ensures
            final(deserializer)@.buf == old(deserializer)@.buf,
            final(deserializer)@.endianness == old(deserializer)@.endianness,
            match Self::decode(
                old(deserializer)@.buf,
                old(deserializer)@.pos,
                old(deserializer)@.endianness,
            ) {
                Ok((m, p)) => r matches Ok(x) && x.model() == m && final(deserializer)@.pos == p
                    && old(deserializer)@.pos < p <= old(deserializer)@.buf.len(),
                Err(e) => r matches Err(err) && err@ == e && final(deserializer)@.pos == old(deserializer)@.pos,
            },
    ;

    /// Writes one element.
    fn serialize(&self, serializer: &mut Serializer) -> (r: Result<(), SerializeError>)
        requires
            old(serializer)@.wf(),
        ensures
            match Self::encode(self.model(), old(serializer)@.pos(), old(serializer)@.endianness) {
                Some(bytes) => r is Ok && final(serializer)@ == old(serializer)@.with(bytes),
                None => r is Err && final(serializer)@ == old(serializer)@,
            },
    ;

    /// The alignment of an element is 1, 2, 4 or 8.
    proof fn lemma_alignment()
        ensures
            is_alignment(Self::spec_alignment()),
    ;

    /// Reading the bytes written for an element gives the element back, and
    /// an element is written as at least one byte.
    proof fn lemma_decode_of_encode(m: Self::Model, buf: Seq<u8>, pos: int, e: Endianness)
        requires
            pos >= 0,
            Self::encode(m, pos, e) is Some,
            occurs_at(buf, pos, Self::encode(m, pos, e)->0),
        ensures
            Self::decode(buf, pos, e) == Ok::<(Self::Model, int), DecodeError>(
                (m, pos + Self::encode(m, pos, e)->0.len()),
            ),
            Self::encode(m, pos, e)->0.len() >= 1,
    ;

    /// Writing the element read from bytes gives the bytes back.
    proof fn lemma_encode_of_decode(buf: Seq<u8>, pos: int, e: Endianness)
        requires
            pos >= 0,
            Self::decode(buf, pos, e) is Ok,
        ensures
            pos < Self::decode(buf, pos, e)->Ok_0.end() <= buf.len(),
            Self::encode(Self::decode(buf, pos, e)->Ok_0.val(), pos, e) == Some(
                buf.subrange(pos, Self::decode(buf, pos, e)->Ok_0.end()),
            ),
    ;
}

/// The mathematical values of a sequence of elements.
pub open spec fn models<T: ArrayElement>(v: Seq<T>) -> Seq<T::Model> {
    Seq::new(v.len(), |i: int| v[i].model())
}

/// The elements that `buf` holds from `pos` to its end.
///
/// An element that takes no byte would never let the end be reached: it is
/// an error.
pub open spec fn decode_items<T: ArrayElement>(buf: Seq<u8>, pos: int, e: Endianness) -> Result<
    Seq<T::Model>,
    DecodeError,
>
    decreases buf.len() - pos,
{
    if pos >= buf.len() {
        Ok(Seq::empty())
    } else {
        match T::decode(buf, pos, e) {
            Err(err) => Err(err),
            Ok((m, p)) => if p <= pos || p > buf.len() {
                Err(no_bytes())
            } else {
                match decode_items::<T>(buf, p, e) {
                    Err(err) => Err(err),
                    Ok(rest) => Ok(seq![m] + rest),
                }
            },
        }
    }
}

/// The specialized array that `buf` holds at `pos`, with the position behind
/// it.
pub open spec fn decode_typed_array<T: ArrayElement>(
    buf: Seq<u8>,
    pos: int,
    e: Endianness,
) -> Result<(Seq<T::Model>, int), DecodeError> {
    match decode_array_header(buf, pos, T::spec_alignment(), e) {
        Err(err) => Err(err),
        Ok((first, end)) => match decode_items::<T>(buf.take(end), first, e) {
            Err(err) => Err(err),
            Ok(items) => Ok((items, end)),
        },
    }
}

/// The bytes written from `pos` on for the elements `xs`, where each can be
/// written.
pub open spec fn encode_items<T: ArrayElement>(xs: Seq<T::Model>, pos: int, e: Endianness) -> Option<
    Seq<u8>,
>
    decreases xs.len(),
{
    if xs.len() == 0 {
        Some(Seq::empty())
    } else {
        match T::encode(xs[0], pos, e) {
            None => None,
            Some(first) => match encode_items::<T>(xs.drop_first(), pos + first.len(), e) {
                None => None,
                Some(rest) => Some(first + rest),
            },
        }
    }
}

/// The position of the first element of an array that is written at `pos`
/// and whose elements have the alignment `alignment`.
pub open spec fn array_first(pos: int, alignment: int) -> int {
    aligned(aligned(pos, 4) + 4, alignment)
}

/// The bytes written at `pos` for an array whose elements, of alignment
/// `alignment`, were written as `body`: the count of the bytes of `body`,
/// where it fits in 32 bits, padding up to the first element, and `body`.
pub open spec fn encode_array(body: Option<Seq<u8>>, pos: int, alignment: int, e: Endianness) -> Option<
    Seq<u8>,
> {
    match body {
        None => None,
        Some(bytes) => if bytes.len() > u32::MAX {
            None
        } else {
            Some(
                encode_uint(bytes.len(), 4, pos, e) + zeros(
                    padding_len(aligned(pos, 4) + 4, alignment),
                ) + bytes,
            )
        },
    }
}

/// The bytes written at `pos` for the specialized array of the elements
/// `xs`.
pub open spec fn encode_typed_array<T: ArrayElement>(
    xs: Seq<T::Model>,
    pos: int,
    e: Endianness,
) -> Option<Seq<u8>> {
    encode_array(
        encode_items::<T>(xs, array_first(pos, T::spec_alignment()), e),
        pos,
        T::spec_alignment(),
        e,
    )
}

/// What was written so far, followed by what is still to be written.
pub open spec fn written_then(done: Seq<u8>, rest: Option<Seq<u8>>) -> Option<Seq<u8>> {
    match rest {
        None => None,
        Some(bytes) => Some(done + bytes),
    }
}

/// What was read so far, followed by what is still to be read.
pub open spec fn read_then<M>(done: Seq<M>, rest: Result<Seq<M>, DecodeError>) -> Result<
    Seq<M>,
    DecodeError,
> {
    match rest {
        Err(err) => Err(err),
        Ok(items) => Ok(done + items),
    }
}

/// Reads a specialized array: the count of the bytes of its elements, the
/// padding before the first one, and the elements up to the end that the
/// count gives.
pub fn deserialize_items<T: ArrayElement>(deserializer: &mut Deserializer<'_>) -> (r: Result<
    Vec<T>,
    DeserializeError,
>)
    ensures
        final(deserializer)@.buf == old(deserializer)@.buf,
        final(deserializer)@.endianness == old(deserializer)@.endianness,
        match decode_typed_array::<T>(
            old(deserializer)@.buf,
            old(deserializer)@.pos,
            old(deserializer)@.endianness,
        ) {
            Ok((items, p)) => r matches Ok(v) && models(v@) == items && final(deserializer)@.pos
                == p,
            Err(e) => r matches Err(err) && err@ == e && final(deserializer)@.pos == old(deserializer)@.pos,
        },
{
    let start = deserializer.pos();
    let r = read_items::<T>(deserializer);
    if r.is_err() {
        deserializer.seek(start);
    }
    r
}

/// Reads a specialized array. Where it fails, the position is where the
/// read ended.
fn read_items<T: ArrayElement>(deserializer: &mut Deserializer<'_>) -> (r: Result<
    Vec<T>,
    DeserializeError,
>)
    ensures
        final(deserializer)@.buf == old(deserializer)@.buf,
        final(deserializer)@.endianness == old(deserializer)@.endianness,
        match decode_typed_array::<T>(
            old(deserializer)@.buf,
            old(deserializer)@.pos,
            old(deserializer)@.endianness,
        ) {
            Ok((items, p)) => r matches Ok(v) && models(v@) == items && final(deserializer)@.pos
                == p,
            Err(e) => r matches Err(err) && err@ == e,
        },
{
    proof {
        deserializer.lemma_view();
    }
    let mut inner = match deserializer.deserialize_array(T::alignment()) {
        Ok(inner) => inner,
        Err(err) => {
            return Err(err);
        },
    };
    let ghost buf = inner@.buf;
    let ghost first = inner@.pos;
    let ghost e = inner@.endianness;
    let mut result: Vec<T> = Vec::new();
    assert(models(result@) + decode_items::<T>(buf, first, e)->Ok_0 =~= decode_items::<T>(
        buf,
        first,
        e,
    )->Ok_0);
    while !inner.at_end()
        invariant
            inner@.buf == buf,
            inner@.endianness == e,
            0 <= inner@.pos,
            deserializer@.buf == old(deserializer)@.buf,
            deserializer@.endianness == old(deserializer)@.endianness,
            e == old(deserializer)@.endianness,
            buf == old(deserializer)@.buf.take(deserializer@.pos),
            decode_array_header(
                old(deserializer)@.buf,
                old(deserializer)@.pos,
                T::spec_alignment(),
                e,
            ) == Ok::<(int, int), DecodeError>((first, deserializer@.pos)),
            decode_items::<T>(buf, first, e) == read_then(
                models(result@),
                decode_items::<T>(buf, inner@.pos, e),
            ),
        decreases buf.len() - inner@.pos,
    {
        let ghost done = models(result@);
        let ghost here = inner@.pos;
        proof {
            inner.lemma_view();
        }
        let item = match T::deserialize(&mut inner) {
            Ok(item) => item,
            Err(err) => {
                return Err(err);
            },
        };
        result.push(item);
        proof {
            assert(models(result@) =~= done.push(item.model()));
            match decode_items::<T>(buf, inner@.pos, e) {
                Ok(rest) => {
                    assert(done + (seq![item.model()] + rest) =~= done.push(item.model()) + rest);
                },
                Err(_) => {},
            }
        }
    }
    assert(models(result@) + Seq::<T::Model>::empty() =~= models(result@));
    Ok(result)
}

/// Writes a specialized array: the count of the bytes of its elements, the
/// padding before the first one, and the elements.
///
/// Where it fails, the serializer is as it was.
pub fn serialize_items<T: ArrayElement>(items: &[T], serializer: &mut Serializer) -> (r: Result<
    (),
    SerializeError,
>)
    requires
        old(serializer)@.wf(),
    ensures
        final(serializer)@.extends(old(serializer)@),
        match encode_typed_array::<T>(
            models(items@),
            old(serializer)@.pos(),
            old(serializer)@.endianness,
        ) {
            Some(bytes) => r is Ok && final(serializer)@ == old(serializer)@.with(bytes),
            None => r is Err && final(serializer)@ == old(serializer)@,
        },
{
    let len = serializer.len();
    let r = write_items(items, serializer);
    if r.is_err() {
        serializer.truncate(len);
        assert(serializer@.buf =~= old(serializer)@.buf);
    }
    proof {
        assert(old(serializer)@.buf.take(old(serializer)@.buf.len() as int) =~= old(
            serializer,
        )@.buf);
    }
    r
}

/// Writes a specialized array. Where it fails, the serializer holds what
/// was written until then.
fn write_items<T: ArrayElement>(items: &[T], serializer: &mut Serializer) -> (r: Result<
    (),
    SerializeError,
>)
    requires
        old(serializer)@.wf(),
    ensures
        final(serializer)@.extends(old(serializer)@),
        match encode_typed_array::<T>(
            models(items@),
            old(serializer)@.pos(),
            old(serializer)@.endianness,
        ) {
            Some(bytes) => r is Ok && final(serializer)@ == old(serializer)@.with(bytes),
            None => r is Err,
        },
{
    let ghost before = serializer@;
    let ghost e = before.endianness;
    let ghost ms = models(items@);
    let mark = serializer.serialize_array(T::alignment());
    let ghost header = serializer@;
    let ghost first = array_first(before.pos(), T::spec_alignment());
    proof {
        lemma_uint_bytes_len(0, 4, e);
        assert(header.pos() == first);
        assert(ms.skip(0) =~= ms);
        assert(header.buf.take(before.buf.len() as int) =~= before.buf);
        assert(header.buf.take(header.buf.len() as int) =~= header.buf);
        assert(header.buf.skip(header.buf.len() as int) =~= Seq::<u8>::empty());
    }
    let mut i: usize = 0;
    while i < items.len()
        invariant
            i <= items@.len(),
            ms == models(items@),
            before == old(serializer)@,
            before.wf(),
            e == before.endianness,
            first == array_first(before.pos(), T::spec_alignment()),
            header.start == before.start,
            before.buf.len() <= header.buf.len(),
            header.buf.take(before.buf.len() as int) == before.buf,
            header.wf(),
            header.pos() == first,
            header.endianness == e,
            serializer@.start == header.start,
            serializer@.endianness == e,
            header.buf.len() <= serializer@.buf.len(),
            serializer@.buf.take(header.buf.len() as int) == header.buf,
            encode_items::<T>(ms, first, e) == written_then(
                serializer@.buf.skip(header.buf.len() as int),
                encode_items::<T>(ms.skip(i as int), serializer@.pos(), e),
            ),
        decreases items.len() - i,
    {
        let ghost here = serializer@;
        let ghost done = here.buf.skip(header.buf.len() as int);
        proof {
            assert(ms.skip(i as int)[0] == items@[i as int].model());
            assert(ms.skip(i as int).drop_first() =~= ms.skip(i + 1));
        }
        match items[i].serialize(serializer) {
            Ok(()) => {},
            Err(err) => {
                assert(serializer@.buf.take(before.buf.len() as int) =~= before.buf);
                return Err(err);
            },
        }
        proof {
            let bytes = T::encode(items@[i as int].model(), here.pos(), e)->0;
            assert(serializer@.buf.skip(header.buf.len() as int) =~= done + bytes);
            assert(serializer@.buf.take(header.buf.len() as int) =~= header.buf);
            match encode_items::<T>(ms.skip(i + 1), serializer@.pos(), e) {
                Some(rest) => {
                    assert(done + (bytes + rest) =~= (done + bytes) + rest);
                },
                None => {},
            }
        }
        i += 1;
    }
    let ghost body = serializer@.buf.skip(header.buf.len() as int);
    let ghost full = serializer@;
    proof {
        assert(ms.skip(items@.len() as int) =~= Seq::<T::Model>::empty());
        assert(body + Seq::<u8>::empty() =~= body);
        assert(encode_items::<T>(ms, first, e) == Some(body));
        assert(full.buf.take(before.buf.len() as int) =~= before.buf);
    }
    match serializer.finish_array(mark) {
        Ok(()) => {},
        Err(err) => {
            return Err(err);
        },
    }
    proof {
        lemma_uint_bytes_len(body.len(), 4, e);
        assert(full.buf =~= header.buf + body);
        assert(serializer@.buf =~= before.buf + (encode_uint(body.len(), 4, before.pos(), e)
            + zeros(padding_len(aligned(before.pos(), 4) + 4, T::spec_alignment())) + body));
        assert(serializer@.buf.take(before.buf.len() as int) =~= before.buf);
    }
    Ok(())
}

impl ArrayElement for bool {
    type Model = bool;

    open spec fn model(&self) -> bool {
        *self
    }

    open spec fn spec_alignment() -> int {
        4
    }

    open spec fn decode(buf: Seq<u8>, pos: int, e: Endianness) -> Result<(bool, int), DecodeError> {
        decode_bool(buf, pos, e)
    }

    open spec fn encode(m: bool, pos: int, e: Endianness) -> Option<Seq<u8>> {
        Some(encode_bool(m, pos, e))
    }

    fn alignment() -> (a: usize) {
        4
    }

    fn deserialize(deserializer: &mut Deserializer<'_>) -> (r: Result<Self, DeserializeError>) {
        proof {
            deserializer.lemma_view();
            lemma_decode_uint_bounds(deserializer@.buf, deserializer@.pos, 4, deserializer@.endianness);
        }
        deserializer.deserialize_bool()
    }

    fn serialize(&self, serializer: &mut Serializer) -> (r: Result<(), SerializeError>) {
        serializer.serialize_bool(*self);
        Ok(())
    }

    proof fn lemma_alignment() {
    }

    proof fn lemma_decode_of_encode(m: Self::Model, buf: Seq<u8>, pos: int, e: Endianness) {
        lemma_bool_round_trip(buf, pos, e);
        lemma_encode_uint_len(if m { 1 } else { 0 }, 4, pos, e);
    }

    proof fn lemma_encode_of_decode(buf: Seq<u8>, pos: int, e: Endianness) {
        lemma_bool_round_trip(buf, pos, e);
    }
}

impl ArrayElement for i16 {
    type Model = i16;

    open spec fn model(&self) -> i16 {
        *self
    }

    open spec fn spec_alignment() -> int {
        2
    }

    open spec fn decode(buf: Seq<u8>, pos: int, e: Endianness) -> Result<(i16, int), DecodeError> {
        decode_i16(buf, pos, e)
    }

    open spec fn encode(m: i16, pos: int, e: Endianness) -> Option<Seq<u8>> {
        Some(encode_int(m as int, 2, 0x1_0000, pos, e))
    }

    fn alignment() -> (a: usize) {
        2
    }

    fn deserialize(deserializer: &mut Deserializer<'_>) -> (r: Result<Self, DeserializeError>) {
        proof {
            deserializer.lemma_view();
            lemma_decode_uint_bounds(deserializer@.buf, deserializer@.pos, 2, deserializer@.endianness);
        }
        deserializer.deserialize_i16()
    }

    fn serialize(&self, serializer: &mut Serializer) -> (r: Result<(), SerializeError>) {
        serializer.serialize_i16(*self);
        Ok(())
    }

    proof fn lemma_alignment() {
    }

    proof fn lemma_decode_of_encode(m: Self::Model, buf: Seq<u8>, pos: int, e: Endianness) {
        lemma_numbers_round_trip(buf, pos, e);
        lemma_encode_uint_len(0, 2, pos, e);
        lemma_encode_uint_len(crate::endian::to_unsigned(m as int, 0x1_0000), 2, pos, e);
        lemma_encode_uint_len(m as nat, 2, pos, e);
    }

    proof fn lemma_encode_of_decode(buf: Seq<u8>, pos: int, e: Endianness) {
        lemma_numbers_round_trip(buf, pos, e);
    }
}

impl ArrayElement for i32 {
    type Model = i32;

    open spec fn model(&self) -> i32 {
        *self
    }

    open spec fn spec_alignment() -> int {
        4
    }

    open spec fn decode(buf: Seq<u8>, pos: int, e: Endianness) -> Result<(i32, int), DecodeError> {
        decode_i32(buf, pos, e)
    }

    open spec fn encode(m: i32, pos: int, e: Endianness) -> Option<Seq<u8>> {
        Some(encode_int(m as int, 4, 0x1_0000_0000, pos, e))
    }

    fn alignment() -> (a: usize) {
        4
    }

    fn deserialize(deserializer: &mut Deserializer<'_>) -> (r: Result<Self, DeserializeError>) {
        proof {
            deserializer.lemma_view();
            lemma_decode_uint_bounds(deserializer@.buf, deserializer@.pos, 4, deserializer@.endianness);
        }
        deserializer.deserialize_i32()
    }

    fn serialize(&self, serializer: &mut Serializer) -> (r: Result<(), SerializeError>) {
        serializer.serialize_i32(*self);
        Ok(())
    }

    proof fn lemma_alignment() {
    }

    proof fn lemma_decode_of_encode(m: Self::Model, buf: Seq<u8>, pos: int, e: Endianness) {
        lemma_numbers_round_trip(buf, pos, e);
        lemma_encode_uint_len(crate::endian::to_unsigned(m as int, 0x1_0000_0000), 4, pos, e);
        lemma_encode_uint_len(m as nat, 4, pos, e);
    }

    proof fn lemma_encode_of_decode(buf: Seq<u8>, pos: int, e: Endianness) {
        lemma_numbers_round_trip(buf, pos, e);
    }
}

impl ArrayElement for i64 {
    type Model = i64;

    open spec fn model(&self) -> i64 {
        *self
    }

    open spec fn spec_alignment() -> int {
        8
    }

    open spec fn decode(buf: Seq<u8>, pos: int, e: Endianness) -> Result<(i64, int), DecodeError> {
        decode_i64(buf, pos, e)
    }

    open spec fn encode(m: i64, pos: int, e: Endianness) -> Option<Seq<u8>> {
        Some(encode_int(m as int, 8, 0x1_0000_0000_0000_0000, pos, e))
    }

    fn alignment() -> (a: usize) {
        8
    }

    fn deserialize(deserializer: &mut Deserializer<'_>) -> (r: Result<Self, DeserializeError>) {
        proof {
            deserializer.lemma_view();
            lemma_decode_uint_bounds(deserializer@.buf, deserializer@.pos, 8, deserializer@.endianness);
        }
        deserializer.deserialize_i64()
    }

    fn serialize(&self, serializer: &mut Serializer) -> (r: Result<(), SerializeError>) {
        serializer.serialize_i64(*self);
        Ok(())
    }

    proof fn lemma_alignment() {
    }

    proof fn lemma_decode_of_encode(m: Self::Model, buf: Seq<u8>, pos: int, e: Endianness) {
        lemma_numbers_round_trip(buf, pos, e);
        lemma_encode_uint_len(
            crate::endian::to_unsigned(m as int, 0x1_0000_0000_0000_0000),
            8,
            pos,
            e,
        );
        lemma_encode_uint_len(m as nat, 8, pos, e);
    }

    proof fn lemma_encode_of_decode(buf: Seq<u8>, pos: int, e: Endianness) {
        lemma_numbers_round_trip(buf, pos, e);
    }
}

impl ArrayElement for u16 {
    type Model = u16;

    open spec fn model(&self) -> u16 {
        *self
    }

    open spec fn spec_alignment() -> int {
        2
    }

    open spec fn decode(buf: Seq<u8>, pos: int, e: Endianness) -> Result<(u16, int), DecodeError> {
        decode_u16(buf, pos, e)
    }

    open spec fn encode(m: u16, pos: int, e: Endianness) -> Option<Seq<u8>> {
        Some(encode_uint(m as nat, 2, pos, e))
    }

    fn alignment() -> (a: usize) {
        2
    }

    fn deserialize(deserializer: &mut Deserializer<'_>) -> (r: Result<Self, DeserializeError>) {
        proof {
            deserializer.lemma_view();
            lemma_decode_uint_bounds(deserializer@.buf, deserializer@.pos, 2, deserializer@.endianness);
        }
        deserializer.deserialize_u16()
    }

    fn serialize(&self, serializer: &mut Serializer) -> (r: Result<(), SerializeError>) {
        serializer.serialize_u16(*self);
        Ok(())
    }

    proof fn lemma_alignment() {
    }

    proof fn lemma_decode_of_encode(m: Self::Model, buf: Seq<u8>, pos: int, e: Endianness) {
        lemma_numbers_round_trip(buf, pos, e);
        lemma_encode_uint_len(0, 2, pos, e);
        lemma_encode_uint_len(crate::endian::to_unsigned(m as int, 0x1_0000), 2, pos, e);
        lemma_encode_uint_len(m as nat, 2, pos, e);
    }

    proof fn lemma_encode_of_decode(buf: Seq<u8>, pos: int, e: Endianness) {
        lemma_numbers_round_trip(buf, pos, e);
    }
}

impl ArrayElement for u32 {
    type Model = u32;

    open spec fn model(&self) -> u32 {
        *self
    }

    open spec fn spec_alignment() -> int {
        4
    }

    open spec fn decode(buf: Seq<u8>, pos: int, e: Endianness) -> Result<(u32, int), DecodeError> {
        decode_u32(buf, pos, e)
    }

    open spec fn encode(m: u32, pos: int, e: Endianness) -> Option<Seq<u8>> {
        Some(encode_uint(m as nat, 4, pos, e))
    }

    fn alignment() -> (a: usize) {
        4
    }

    fn deserialize(deserializer: &mut Deserializer<'_>) -> (r: Result<Self, DeserializeError>) {
        proof {
            deserializer.lemma_view();
            lemma_decode_uint_bounds(deserializer@.buf, deserializer@.pos, 4, deserializer@.endianness);
        }
        deserializer.deserialize_u32()
    }

    fn serialize(&self, serializer: &mut Serializer) -> (r: Result<(), SerializeError>) {
        serializer.serialize_u32(*self);
        Ok(())
    }

    proof fn lemma_alignment() {
    }

    proof fn lemma_decode_of_encode(m: Self::Model, buf: Seq<u8>, pos: int, e: Endianness) {
        lemma_numbers_round_trip(buf, pos, e);
        lemma_encode_uint_len(crate::endian::to_unsigned(m as int, 0x1_0000_0000), 4, pos, e);
        lemma_encode_uint_len(m as nat, 4, pos, e);
    }

    proof fn lemma_encode_of_decode(buf: Seq<u8>, pos: int, e: Endianness) {
        lemma_numbers_round_trip(buf, pos, e);
    }
}

impl ArrayElement for u64 {
    type Model = u64;

    open spec fn model(&self) -> u64 {
        *self
    }

    open spec fn spec_alignment() -> int {
        8
    }

    open spec fn decode(buf: Seq<u8>, pos: int, e: Endianness) -> Result<(u64, int), DecodeError> {
        decode_u64(buf, pos, e)
    }

    open spec fn encode(m: u64, pos: int, e: Endianness) -> Option<Seq<u8>> {
        Some(encode_uint(m as nat, 8, pos, e))
    }

    fn alignment() -> (a: usize) {
        8
    }

    fn deserialize(deserializer: &mut Deserializer<'_>) -> (r: Result<Self, DeserializeError>) {
        proof {
            deserializer.lemma_view();
            lemma_decode_uint_bounds(deserializer@.buf, deserializer@.pos, 8, deserializer@.endianness);
        }
        deserializer.deserialize_u64()
    }

    fn serialize(&self, serializer: &mut Serializer) -> (r: Result<(), SerializeError>) {
        serializer.serialize_u64(*self);
        Ok(())
    }

    proof fn lemma_alignment() {
    }

    proof fn lemma_decode_of_encode(m: Self::Model, buf: Seq<u8>, pos: int, e: Endianness) {
        lemma_numbers_round_trip(buf, pos, e);
        lemma_encode_uint_len(
            crate::endian::to_unsigned(m as int, 0x1_0000_0000_0000_0000),
            8,
            pos,
            e,
        );
        lemma_encode_uint_len(m as nat, 8, pos, e);
    }

    proof fn lemma_encode_of_decode(buf: Seq<u8>, pos: int, e: Endianness) {
        lemma_numbers_round_trip(buf, pos, e);
    }
}

impl ArrayElement for UnixFd {
    type Model = UnixFd;

    open spec fn model(&self) -> UnixFd {
        *self
    }

    open spec fn spec_alignment() -> int {
        4
    }

    open spec fn decode(buf: Seq<u8>, pos: int, e: Endianness) -> Result<
        (UnixFd, int),
        DecodeError,
    > {
        match decode_u32(buf, pos, e) {
            Err(err) => Err(err),
            Ok((v, p)) => Ok((UnixFd(v), p)),
        }
    }

    open spec fn encode(m: UnixFd, pos: int, e: Endianness) -> Option<Seq<u8>> {
        Some(encode_uint(m.0 as nat, 4, pos, e))
    }

    fn alignment() -> (a: usize) {
        4
    }

    fn deserialize(deserializer: &mut Deserializer<'_>) -> (r: Result<Self, DeserializeError>) {
        proof {
            deserializer.lemma_view();
            lemma_decode_uint_bounds(deserializer@.buf, deserializer@.pos, 4, deserializer@.endianness);
        }
        UnixFd::deserialize(deserializer)
    }

    fn serialize(&self, serializer: &mut Serializer) -> (r: Result<(), SerializeError>) {
        UnixFd::serialize(*self, serializer);
        Ok(())
    }

    proof fn lemma_alignment() {
    }

    proof fn lemma_decode_of_encode(m: Self::Model, buf: Seq<u8>, pos: int, e: Endianness) {
        lemma_numbers_round_trip(buf, pos, e);
        lemma_encode_uint_len(m.0 as nat, 4, pos, e);
    }

    proof fn lemma_encode_of_decode(buf: Seq<u8>, pos: int, e: Endianness) {
        lemma_numbers_round_trip(buf, pos, e);
    }
}

impl ArrayElement for String {
    type Model = Seq<char>;

    open spec fn model(&self) -> Seq<char> {
        self@
    }

    open spec fn spec_alignment() -> int {
        4
    }

    open spec fn decode(buf: Seq<u8>, pos: int, e: Endianness) -> Result<
        (Seq<char>, int),
        DecodeError,
    > {
        decode_string(buf, pos, e)
    }

    open spec fn encode(m: Seq<char>, pos: int, e: Endianness) -> Option<Seq<u8>> {
        encode_string(m, pos, e)
    }

    fn alignment() -> (a: usize) {
        4
    }

    fn deserialize(deserializer: &mut Deserializer<'_>) -> (r: Result<Self, DeserializeError>) {
        proof {
            deserializer.lemma_view();
            lemma_decode_uint_bounds(deserializer@.buf, deserializer@.pos, 4, deserializer@.endianness);
        }
        deserializer.deserialize_string()
    }

    fn serialize(&self, serializer: &mut Serializer) -> (r: Result<(), SerializeError>) {
        serializer.serialize_string(self.as_str())
    }

    proof fn lemma_alignment() {
    }

    proof fn lemma_decode_of_encode(m: Self::Model, buf: Seq<u8>, pos: int, e: Endianness) {
        lemma_decode_string_of_encode(m, buf, pos, e);
    }

    proof fn lemma_encode_of_decode(buf: Seq<u8>, pos: int, e: Endianness) {
        lemma_encode_string_of_decode(buf, pos, e);
    }
}

} // verus!
