//! What holds between the bytes written for an array and the array read from
//! bytes.

use crate::element::{
    array_first, decode_items, decode_typed_array, encode_array, encode_items,
    encode_typed_array, ArrayElement,
};
use crate::endian::{lemma_pow256_values, Endianness};
use crate::signature_laws::{lemma_occurs_split, occurs_at};
use crate::wire::{aligned, decode_array_header, encode_uint, padding_len, zeros, DecodeError};
use crate::wire_laws::{
    is_alignment, lemma_decode_uint_of_encode, lemma_encode_uint_len,
    lemma_encode_uint_of_decode, lemma_padding_len, lemma_padding_round_trip, Decoded,
};
use vstd::prelude::*;

verus! {

/// Reading the bytes written for elements, up to the end of the buffer,
/// gives the elements back.
pub proof fn lemma_decode_items_of_encode<T: ArrayElement>(
    xs: Seq<T::Model>,
    buf: Seq<u8>,
    pos: int,
    e: Endianness,
)
    requires
        pos >= 0,
        encode_items::<T>(xs, pos, e) is Some,
        occurs_at(buf, pos, encode_items::<T>(xs, pos, e)->0),
        pos + encode_items::<T>(xs, pos, e)->0.len() == buf.len(),
    ensures
        decode_items::<T>(buf, pos, e) == Ok::<Seq<T::Model>, DecodeError>(xs),
    decreases xs.len(),
{
    if xs.len() == 0 {
        assert(xs =~= Seq::<T::Model>::empty());
    } else {
        let first = T::encode(xs[0], pos, e)->0;
        let rest = encode_items::<T>(xs.drop_first(), pos + first.len(), e)->0;
        lemma_occurs_split(buf, pos, first, rest);
        T::lemma_decode_of_encode(xs[0], buf, pos, e);
        lemma_decode_items_of_encode::<T>(xs.drop_first(), buf, pos + first.len(), e);
        assert(seq![xs[0]] + xs.drop_first() =~= xs);
    }
}

/// Writing the elements read from bytes, up to the end of the buffer,
/// gives the bytes back.
pub proof fn lemma_encode_items_of_decode<T: ArrayElement>(buf: Seq<u8>, pos: int, e: Endianness)
    requires
        0 <= pos <= buf.len(),
        decode_items::<T>(buf, pos, e) is Ok,
    ensures
        encode_items::<T>(decode_items::<T>(buf, pos, e)->Ok_0, pos, e) == Some(
            buf.subrange(pos, buf.len() as int),
        ),
    decreases buf.len() - pos,
{
    if pos >= buf.len() {
        assert(buf.subrange(pos, buf.len() as int) =~= Seq::<u8>::empty());
    } else {
        T::lemma_encode_of_decode(buf, pos, e);
        let found = T::decode(buf, pos, e)->Ok_0;
        let p = found.end();
        lemma_encode_items_of_decode::<T>(buf, p, e);
        let rest = decode_items::<T>(buf, p, e)->Ok_0;
        let xs = seq![found.val()] + rest;
        assert(xs.drop_first() =~= rest);
        assert(xs[0] == found.val());
        assert(buf.subrange(pos, buf.len() as int) =~= buf.subrange(pos, p) + buf.subrange(
            p,
            buf.len() as int,
        ));
    }
}

/// The bytes written for an array are read as the header of an array whose
/// elements are the body that was written.
pub proof fn lemma_array_header_of_encode(
    body: Seq<u8>,
    alignment: int,
    buf: Seq<u8>,
    pos: int,
    e: Endianness,
)
    requires
        pos >= 0,
        is_alignment(alignment),
        encode_array(Some(body), pos, alignment, e) is Some,
        occurs_at(buf, pos, encode_array(Some(body), pos, alignment, e)->0),
    ensures
        decode_array_header(buf, pos, alignment, e) == Ok::<(int, int), DecodeError>(
            (array_first(pos, alignment), array_first(pos, alignment) + body.len()),
        ),
        pos + 4 <= array_first(pos, alignment),
        array_first(pos, alignment) + body.len() <= buf.len(),
        pos + encode_array(Some(body), pos, alignment, e)->0.len() == array_first(pos, alignment)
            + body.len(),
        occurs_at(
            buf.take(array_first(pos, alignment) + body.len()),
            array_first(pos, alignment),
            body,
        ),
{
    lemma_pow256_values();
    let count = encode_uint(body.len(), 4, pos, e);
    let p = aligned(pos, 4) + 4;
    let pad = zeros(padding_len(p, alignment));
    lemma_encode_uint_len(body.len(), 4, pos, e);
    lemma_padding_len(pos, 4);
    lemma_padding_len(p, alignment);
    lemma_occurs_split(buf, pos, count + pad, body);
    lemma_occurs_split(buf, pos, count, pad);
    lemma_decode_uint_of_encode(body.len(), 4, buf, pos, e);
    lemma_padding_round_trip(buf, p, alignment);
    let first = array_first(pos, alignment);
    let end = first + body.len();
    assert(buf.take(end).subrange(first, end) =~= buf.subrange(first, end));
}

/// Writing an array whose header and elements were read from bytes gives
/// the bytes back.
pub proof fn lemma_array_of_header(buf: Seq<u8>, pos: int, alignment: int, e: Endianness)
    requires
        pos >= 0,
        is_alignment(alignment),
        decode_array_header(buf, pos, alignment, e) is Ok,
    ensures
        decode_array_header(buf, pos, alignment, e)->Ok_0.val() == array_first(pos, alignment),
        pos + 4 <= array_first(pos, alignment) <= decode_array_header(
            buf,
            pos,
            alignment,
            e,
        )->Ok_0.end() <= buf.len(),
        encode_array(
            Some(
                buf.subrange(
                    array_first(pos, alignment),
                    decode_array_header(buf, pos, alignment, e)->Ok_0.end(),
                ),
            ),
            pos,
            alignment,
            e,
        ) == Some(buf.subrange(pos, decode_array_header(buf, pos, alignment, e)->Ok_0.end())),
{
    lemma_pow256_values();
    lemma_encode_uint_of_decode(buf, pos, 4, e);
    let p = aligned(pos, 4) + 4;
    lemma_padding_len(pos, 4);
    lemma_padding_len(p, alignment);
    lemma_padding_round_trip(buf, p, alignment);
    let first = array_first(pos, alignment);
    let end = decode_array_header(buf, pos, alignment, e)->Ok_0.end();
    let body = buf.subrange(first, end);
    assert(buf.subrange(pos, end) =~= buf.subrange(pos, p) + buf.subrange(p, first) + body);
}

/// Reading the bytes written for a specialized array gives the array back.
pub proof fn lemma_decode_typed_array_of_encode<T: ArrayElement>(
    xs: Seq<T::Model>,
    buf: Seq<u8>,
    pos: int,
    e: Endianness,
)
    requires
        pos >= 0,
        encode_typed_array::<T>(xs, pos, e) is Some,
        occurs_at(buf, pos, encode_typed_array::<T>(xs, pos, e)->0),
    ensures
        decode_typed_array::<T>(buf, pos, e) == Ok::<(Seq<T::Model>, int), DecodeError>(
            (xs, pos + encode_typed_array::<T>(xs, pos, e)->0.len()),
        ),
        encode_typed_array::<T>(xs, pos, e)->0.len() >= 4,
{
    T::lemma_alignment();
    let a = T::spec_alignment();
    let first = array_first(pos, a);
    let body = encode_items::<T>(xs, first, e)->0;
    lemma_array_header_of_encode(body, a, buf, pos, e);
    lemma_decode_items_of_encode::<T>(xs, buf.take(first + body.len()), first, e);
}

/// Writing the specialized array read from bytes gives the bytes back.
pub proof fn lemma_encode_typed_array_of_decode<T: ArrayElement>(
    buf: Seq<u8>,
    pos: int,
    e: Endianness,
)
    requires
        pos >= 0,
        decode_typed_array::<T>(buf, pos, e) is Ok,
    ensures
        pos + 4 <= decode_typed_array::<T>(buf, pos, e)->Ok_0.end() <= buf.len(),
        encode_typed_array::<T>(decode_typed_array::<T>(buf, pos, e)->Ok_0.val(), pos, e) == Some(
            buf.subrange(pos, decode_typed_array::<T>(buf, pos, e)->Ok_0.end()),
        ),
{
    T::lemma_alignment();
    let a = T::spec_alignment();
    lemma_array_of_header(buf, pos, a, e);
    let first = array_first(pos, a);
    let end = decode_array_header(buf, pos, a, e)->Ok_0.end();
    lemma_encode_items_of_decode::<T>(buf.take(end), first, e);
    assert(buf.take(end).subrange(first, end) =~= buf.subrange(first, end));
}

/// An array without elements still carries the padding that leads to the
/// alignment of its elements: it is written as a count of zero and that
/// padding, and is read up to behind that padding.
pub proof fn lemma_empty_array_is_padded(buf: Seq<u8>, alignment: int, pos: int, e: Endianness)
    requires
        pos >= 0,
        is_alignment(alignment),
    ensures
        encode_array(Some(Seq::empty()), pos, alignment, e) == Some(
            encode_uint(0, 4, pos, e) + zeros(padding_len(aligned(pos, 4) + 4, alignment)),
        ),
        pos + encode_array(Some(Seq::empty()), pos, alignment, e)->0.len() == array_first(
            pos,
            alignment,
        ),
        occurs_at(buf, pos, encode_array(Some(Seq::empty()), pos, alignment, e)->0)
            ==> decode_array_header(buf, pos, alignment, e) == Ok::<(int, int), DecodeError>(
            (array_first(pos, alignment), array_first(pos, alignment)),
        ),
{
    let written = encode_uint(0, 4, pos, e) + zeros(padding_len(aligned(pos, 4) + 4, alignment));
    assert(written + Seq::<u8>::empty() =~= written);
    lemma_encode_uint_len(0, 4, pos, e);
    lemma_padding_len(aligned(pos, 4) + 4, alignment);
    if occurs_at(buf, pos, encode_array(Some(Seq::empty()), pos, alignment, e)->0) {
        lemma_array_header_of_encode(Seq::empty(), alignment, buf, pos, e);
    }
}

} // verus!
