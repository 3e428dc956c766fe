//! What holds between the bytes written for a value and the value read from
//! bytes.
//!
//! - A value that is read has the signature that it was read with.
//! - Writing the value that was read from bytes gives the bytes back.
//! - Reading the bytes that were written for a value gives the value back,
//!   where the value is one that reading can give.

use crate::element::array_first;
use crate::element_laws::{
    lemma_array_header_of_encode, lemma_array_of_header, lemma_decode_typed_array_of_encode,
    lemma_encode_typed_array_of_decode,
};
use crate::endian::{lemma_pow256_values, lemma_signed_round_trip, to_unsigned, Endianness};
use crate::signature::SpecSignature;
use crate::signature_laws::{lemma_occurs_one, lemma_occurs_split, occurs_at};
use crate::types::UnixFd;
use crate::variant::{inner_signatures, lemma_inner_signatures, SpecVariant};
use crate::variant_wire::{
    decode, decode_basic, decode_elements, decode_fields, decode_specialized_array, encode,
    encode_all, encode_basic, encode_specialized_array, is_specialized, remaining,
};
use crate::wire::{
    aligned, decode_array_header, decode_padding, decode_signature, decode_uint,
    encode_signature, padding_len, zeros, DecodeError,
};
use crate::wire_laws::{
    is_alignment, lemma_bool_round_trip, lemma_decode_byte_array_of_encode,
    lemma_decode_signature_of_encode, lemma_decode_string_of_encode,
    lemma_encode_byte_array_of_decode, lemma_encode_signature_of_decode,
    lemma_decode_uint_of_encode, lemma_encode_string_of_decode, lemma_encode_uint_of_decode,
    lemma_padding_len, lemma_padding_round_trip, Decoded,
};
use vstd::prelude::*;

verus! {

/// Two pieces of a buffer that touch are one piece.
pub proof fn lemma_subrange_join(buf: Seq<u8>, a: int, b: int, c: int)
    requires
        0 <= a <= b <= c <= buf.len(),
    ensures
        buf.subrange(a, b) + buf.subrange(b, c) == buf.subrange(a, c),
{
    assert(buf.subrange(a, b) + buf.subrange(b, c) =~= buf.subrange(a, c));
}

/// Every signature has an alignment of 1, 2, 4 or 8.
pub proof fn lemma_signature_alignment(sig: SpecSignature)
    ensures
        is_alignment(sig.alignment()),
{
}

/// Whether the signature `sig` is one of a value without parts.
pub open spec fn is_basic(sig: SpecSignature) -> bool {
    !(sig is Array) && !(sig is DictEntry) && !(sig is Struct) && !(sig is Tuple) && !(sig
        is Variant)
}

// ---------------------------------------------------------------------
// A value that is read has the signature that it was read with.
// ---------------------------------------------------------------------
/// The value read with a signature has that signature.
pub proof fn lemma_decoded_signature(buf: Seq<u8>, pos: int, sig: SpecSignature, e: Endianness)
    requires
        decode(buf, pos, sig, e) is Ok,
    ensures
        decode(buf, pos, sig, e)->Ok_0.val().inner_signature() == sig,
    decreases remaining(buf, pos), sig, 0nat,
{
    match sig {
        SpecSignature::Array { element } => {
            assert(sig == SpecSignature::Array { element: Box::new(*element) });
            if is_specialized(*element) {
                lemma_decoded_signature_specialized(buf, pos, *element, e);
            }
        },
        SpecSignature::DictEntry { key, value } => {
            let p = decode_padding(buf, pos, 8)->Ok_0;
            lemma_decoded_signature(buf, p, *key, e);
            let p1 = decode(buf, p, *key, e)->Ok_0.end();
            lemma_decoded_signature(buf, p1, *value, e);
        },
        SpecSignature::Struct { fields } => {
            let p = decode_padding(buf, pos, 8)->Ok_0;
            lemma_decoded_signatures(buf, p, fields, e);
        },
        SpecSignature::Tuple { elements } => {
            lemma_decoded_signatures(buf, pos, elements, e);
        },
        SpecSignature::Variant => {},
        _ => {
            lemma_decoded_signature_basic(buf, pos, sig, e);
        },
    }
}

/// The value without parts read with a signature has that signature.
pub proof fn lemma_decoded_signature_basic(
    buf: Seq<u8>,
    pos: int,
    sig: SpecSignature,
    e: Endianness,
)
    requires
        is_basic(sig),
        decode_basic(buf, pos, sig, e) is Ok,
    ensures
        decode_basic(buf, pos, sig, e)->Ok_0.val().inner_signature() == sig,
{
    reveal(decode_basic);
}

/// The specialized array read with a signature has that signature.
pub proof fn lemma_decoded_signature_specialized(
    buf: Seq<u8>,
    pos: int,
    element: SpecSignature,
    e: Endianness,
)
    requires
        is_specialized(element),
        decode_specialized_array(buf, pos, element, e) is Ok,
    ensures
        decode_specialized_array(buf, pos, element, e)->Ok_0.val().inner_signature()
            == (SpecSignature::Array { element: Box::new(element) }),
{
    reveal(decode_specialized_array);
}

/// The values read with signatures have those signatures.
pub proof fn lemma_decoded_signatures(
    buf: Seq<u8>,
    pos: int,
    sigs: Seq<SpecSignature>,
    e: Endianness,
)
    requires
        decode_fields(buf, pos, sigs, e) is Ok,
    ensures
        inner_signatures(decode_fields(buf, pos, sigs, e)->Ok_0.val()) == sigs,
    decreases remaining(buf, pos), sigs, 1nat,
{
    if sigs.len() == 0 {
        assert(inner_signatures(Seq::<SpecVariant>::empty()) =~= sigs);
    } else {
        lemma_decoded_signature(buf, pos, sigs[0], e);
        let found = decode(buf, pos, sigs[0], e)->Ok_0;
        lemma_decoded_signatures(buf, found.end(), sigs.drop_first(), e);
        let rest = decode_fields(buf, found.end(), sigs.drop_first(), e)->Ok_0.val();
        let values = seq![found.val()] + rest;
        assert(values.drop_first() =~= rest);
        assert(values[0] == found.val());
        assert(seq![sigs[0]] + sigs.drop_first() =~= sigs);
    }
}

// ---------------------------------------------------------------------
// Writing the value that was read from bytes gives the bytes back.
// ---------------------------------------------------------------------
/// Writing the value without parts that was read gives the bytes back.
pub proof fn lemma_encode_of_decode_basic(buf: Seq<u8>, pos: int, sig: SpecSignature, e: Endianness)
    requires
        0 <= pos <= buf.len(),
        is_basic(sig),
        decode_basic(buf, pos, sig, e) is Ok,
    ensures
        pos <= decode_basic(buf, pos, sig, e)->Ok_0.end() <= buf.len(),
        encode(decode_basic(buf, pos, sig, e)->Ok_0.val(), pos, e) == Some(
            buf.subrange(pos, decode_basic(buf, pos, sig, e)->Ok_0.end()),
        ),
{
    reveal(decode_basic);
    reveal(encode_basic);
    lemma_pow256_values();
    match sig {
        SpecSignature::Bool => {
            lemma_bool_round_trip(buf, pos, e);
        },
        SpecSignature::U16 => {
            lemma_encode_uint_of_decode(buf, pos, 2, e);
            lemma_padding_len(pos, 2);
        },
        SpecSignature::I16 => {
            lemma_encode_uint_of_decode(buf, pos, 2, e);
            lemma_padding_len(pos, 2);
            lemma_signed_round_trip(0, decode_uint(buf, pos, 2, e)->Ok_0.val(), 0x1_0000);
        },
        SpecSignature::U32 | SpecSignature::UnixFd => {
            lemma_encode_uint_of_decode(buf, pos, 4, e);
            lemma_padding_len(pos, 4);
        },
        SpecSignature::I32 => {
            lemma_encode_uint_of_decode(buf, pos, 4, e);
            lemma_padding_len(pos, 4);
            lemma_signed_round_trip(0, decode_uint(buf, pos, 4, e)->Ok_0.val(), 0x1_0000_0000);
        },
        SpecSignature::U64 | SpecSignature::F64 => {
            lemma_encode_uint_of_decode(buf, pos, 8, e);
            lemma_padding_len(pos, 8);
        },
        SpecSignature::I64 => {
            lemma_encode_uint_of_decode(buf, pos, 8, e);
            lemma_padding_len(pos, 8);
            lemma_signed_round_trip(
                0,
                decode_uint(buf, pos, 8, e)->Ok_0.val(),
                0x1_0000_0000_0000_0000,
            );
        },
        SpecSignature::ObjectPath | SpecSignature::String => {
            lemma_encode_string_of_decode(buf, pos, e);
        },
        SpecSignature::Signature => {
            lemma_encode_signature_of_decode(buf, pos);
        },
        SpecSignature::U8 => {
            assert(buf.subrange(pos, pos + 1) =~= seq![buf[pos]]);
        },
        _ => {},
    }
}

/// Writing the array of `bool` that was read gives the bytes back.
pub proof fn lemma_encode_of_decode_bools(buf: Seq<u8>, pos: int, e: Endianness)
    requires
        0 <= pos <= buf.len(),
        decode_specialized_array(buf, pos, SpecSignature::Bool, e) is Ok,
    ensures
        pos <= decode_specialized_array(buf, pos, SpecSignature::Bool, e)->Ok_0.end() <= buf.len(),
        encode(decode_specialized_array(buf, pos, SpecSignature::Bool, e)->Ok_0.val(), pos, e)
            == Some(
            buf.subrange(pos, decode_specialized_array(buf, pos, SpecSignature::Bool, e)->Ok_0.end()),
        ),
{
    reveal(decode_specialized_array);
    reveal(encode_specialized_array);
    lemma_encode_typed_array_of_decode::<bool>(buf, pos, e);
}

/// Writing the array of `f64` that was read gives the bytes back.
pub proof fn lemma_encode_of_decode_doubles(buf: Seq<u8>, pos: int, e: Endianness)
    requires
        0 <= pos <= buf.len(),
        decode_specialized_array(buf, pos, SpecSignature::F64, e) is Ok,
    ensures
        pos <= decode_specialized_array(buf, pos, SpecSignature::F64, e)->Ok_0.end() <= buf.len(),
        encode(decode_specialized_array(buf, pos, SpecSignature::F64, e)->Ok_0.val(), pos, e)
            == Some(
            buf.subrange(pos, decode_specialized_array(buf, pos, SpecSignature::F64, e)->Ok_0.end()),
        ),
{
    reveal(decode_specialized_array);
    reveal(encode_specialized_array);
    lemma_encode_typed_array_of_decode::<u64>(buf, pos, e);
}

/// Writing the array of `i16` that was read gives the bytes back.
pub proof fn lemma_encode_of_decode_i16s(buf: Seq<u8>, pos: int, e: Endianness)
    requires
        0 <= pos <= buf.len(),
        decode_specialized_array(buf, pos, SpecSignature::I16, e) is Ok,
    ensures
        pos <= decode_specialized_array(buf, pos, SpecSignature::I16, e)->Ok_0.end() <= buf.len(),
        encode(decode_specialized_array(buf, pos, SpecSignature::I16, e)->Ok_0.val(), pos, e)
            == Some(
            buf.subrange(pos, decode_specialized_array(buf, pos, SpecSignature::I16, e)->Ok_0.end()),
        ),
{
    reveal(decode_specialized_array);
    reveal(encode_specialized_array);
    lemma_encode_typed_array_of_decode::<i16>(buf, pos, e);
}

/// Writing the array of `i32` that was read gives the bytes back.
pub proof fn lemma_encode_of_decode_i32s(buf: Seq<u8>, pos: int, e: Endianness)
    requires
        0 <= pos <= buf.len(),
        decode_specialized_array(buf, pos, SpecSignature::I32, e) is Ok,
    ensures
        pos <= decode_specialized_array(buf, pos, SpecSignature::I32, e)->Ok_0.end() <= buf.len(),
        encode(decode_specialized_array(buf, pos, SpecSignature::I32, e)->Ok_0.val(), pos, e)
            == Some(
            buf.subrange(pos, decode_specialized_array(buf, pos, SpecSignature::I32, e)->Ok_0.end()),
        ),
{
    reveal(decode_specialized_array);
    reveal(encode_specialized_array);
    lemma_encode_typed_array_of_decode::<i32>(buf, pos, e);
}

/// Writing the array of `i64` that was read gives the bytes back.
pub proof fn lemma_encode_of_decode_i64s(buf: Seq<u8>, pos: int, e: Endianness)
    requires
        0 <= pos <= buf.len(),
        decode_specialized_array(buf, pos, SpecSignature::I64, e) is Ok,
    ensures
        pos <= decode_specialized_array(buf, pos, SpecSignature::I64, e)->Ok_0.end() <= buf.len(),
        encode(decode_specialized_array(buf, pos, SpecSignature::I64, e)->Ok_0.val(), pos, e)
            == Some(
            buf.subrange(pos, decode_specialized_array(buf, pos, SpecSignature::I64, e)->Ok_0.end()),
        ),
{
    reveal(decode_specialized_array);
    reveal(encode_specialized_array);
    lemma_encode_typed_array_of_decode::<i64>(buf, pos, e);
}

/// Writing the array of `string` that was read gives the bytes back.
pub proof fn lemma_encode_of_decode_strings(buf: Seq<u8>, pos: int, e: Endianness)
    requires
        0 <= pos <= buf.len(),
        decode_specialized_array(buf, pos, SpecSignature::String, e) is Ok,
    ensures
        pos <= decode_specialized_array(buf, pos, SpecSignature::String, e)->Ok_0.end() <= buf.len(),
        encode(decode_specialized_array(buf, pos, SpecSignature::String, e)->Ok_0.val(), pos, e)
            == Some(
            buf.subrange(pos, decode_specialized_array(buf, pos, SpecSignature::String, e)->Ok_0.end()),
        ),
{
    reveal(decode_specialized_array);
    reveal(encode_specialized_array);
    lemma_encode_typed_array_of_decode::<String>(buf, pos, e);
}

/// Writing the array of `u16` that was read gives the bytes back.
pub proof fn lemma_encode_of_decode_u16s(buf: Seq<u8>, pos: int, e: Endianness)
    requires
        0 <= pos <= buf.len(),
        decode_specialized_array(buf, pos, SpecSignature::U16, e) is Ok,
    ensures
        pos <= decode_specialized_array(buf, pos, SpecSignature::U16, e)->Ok_0.end() <= buf.len(),
        encode(decode_specialized_array(buf, pos, SpecSignature::U16, e)->Ok_0.val(), pos, e)
            == Some(
            buf.subrange(pos, decode_specialized_array(buf, pos, SpecSignature::U16, e)->Ok_0.end()),
        ),
{
    reveal(decode_specialized_array);
    reveal(encode_specialized_array);
    lemma_encode_typed_array_of_decode::<u16>(buf, pos, e);
}

/// Writing the array of `u32` that was read gives the bytes back.
pub proof fn lemma_encode_of_decode_u32s(buf: Seq<u8>, pos: int, e: Endianness)
    requires
        0 <= pos <= buf.len(),
        decode_specialized_array(buf, pos, SpecSignature::U32, e) is Ok,
    ensures
        pos <= decode_specialized_array(buf, pos, SpecSignature::U32, e)->Ok_0.end() <= buf.len(),
        encode(decode_specialized_array(buf, pos, SpecSignature::U32, e)->Ok_0.val(), pos, e)
            == Some(
            buf.subrange(pos, decode_specialized_array(buf, pos, SpecSignature::U32, e)->Ok_0.end()),
        ),
{
    reveal(decode_specialized_array);
    reveal(encode_specialized_array);
    lemma_encode_typed_array_of_decode::<u32>(buf, pos, e);
}

/// Writing the array of `u64` that was read gives the bytes back.
pub proof fn lemma_encode_of_decode_u64s(buf: Seq<u8>, pos: int, e: Endianness)
    requires
        0 <= pos <= buf.len(),
        decode_specialized_array(buf, pos, SpecSignature::U64, e) is Ok,
    ensures
        pos <= decode_specialized_array(buf, pos, SpecSignature::U64, e)->Ok_0.end() <= buf.len(),
        encode(decode_specialized_array(buf, pos, SpecSignature::U64, e)->Ok_0.val(), pos, e)
            == Some(
            buf.subrange(pos, decode_specialized_array(buf, pos, SpecSignature::U64, e)->Ok_0.end()),
        ),
{
    reveal(decode_specialized_array);
    reveal(encode_specialized_array);
    lemma_encode_typed_array_of_decode::<u64>(buf, pos, e);
}

/// Writing the array of `unixfd` that was read gives the bytes back.
pub proof fn lemma_encode_of_decode_unix_fds(buf: Seq<u8>, pos: int, e: Endianness)
    requires
        0 <= pos <= buf.len(),
        decode_specialized_array(buf, pos, SpecSignature::UnixFd, e) is Ok,
    ensures
        pos <= decode_specialized_array(buf, pos, SpecSignature::UnixFd, e)->Ok_0.end() <= buf.len(),
        encode(decode_specialized_array(buf, pos, SpecSignature::UnixFd, e)->Ok_0.val(), pos, e)
            == Some(
            buf.subrange(pos, decode_specialized_array(buf, pos, SpecSignature::UnixFd, e)->Ok_0.end()),
        ),
{
    reveal(decode_specialized_array);
    reveal(encode_specialized_array);
    lemma_encode_typed_array_of_decode::<UnixFd>(buf, pos, e);
}

/// Writing the array of bytes that was read gives the bytes back.
pub proof fn lemma_encode_of_decode_bytes(buf: Seq<u8>, pos: int, e: Endianness)
    requires
        0 <= pos <= buf.len(),
        decode_specialized_array(buf, pos, SpecSignature::U8, e) is Ok,
    ensures
        pos <= decode_specialized_array(buf, pos, SpecSignature::U8, e)->Ok_0.end() <= buf.len(),
        encode(decode_specialized_array(buf, pos, SpecSignature::U8, e)->Ok_0.val(), pos, e)
            == Some(
            buf.subrange(pos, decode_specialized_array(buf, pos, SpecSignature::U8, e)->Ok_0.end()),
        ),
{
    reveal(decode_specialized_array);
    reveal(encode_specialized_array);
    lemma_encode_byte_array_of_decode(buf, pos, e);
}

/// Writing the specialized array that was read gives the bytes back.
pub proof fn lemma_encode_of_decode_specialized(
    buf: Seq<u8>,
    pos: int,
    element: SpecSignature,
    e: Endianness,
)
    requires
        0 <= pos <= buf.len(),
        is_specialized(element),
        decode_specialized_array(buf, pos, element, e) is Ok,
    ensures
        pos <= decode_specialized_array(buf, pos, element, e)->Ok_0.end() <= buf.len(),
        encode(decode_specialized_array(buf, pos, element, e)->Ok_0.val(), pos, e) == Some(
            buf.subrange(pos, decode_specialized_array(buf, pos, element, e)->Ok_0.end()),
        ),
{
    match element {
        SpecSignature::Bool => {
            lemma_encode_of_decode_bools(buf, pos, e);
        },
        SpecSignature::F64 => {
            lemma_encode_of_decode_doubles(buf, pos, e);
        },
        SpecSignature::I16 => {
            lemma_encode_of_decode_i16s(buf, pos, e);
        },
        SpecSignature::I32 => {
            lemma_encode_of_decode_i32s(buf, pos, e);
        },
        SpecSignature::I64 => {
            lemma_encode_of_decode_i64s(buf, pos, e);
        },
        SpecSignature::String => {
            lemma_encode_of_decode_strings(buf, pos, e);
        },
        SpecSignature::U16 => {
            lemma_encode_of_decode_u16s(buf, pos, e);
        },
        SpecSignature::U32 => {
            lemma_encode_of_decode_u32s(buf, pos, e);
        },
        SpecSignature::U64 => {
            lemma_encode_of_decode_u64s(buf, pos, e);
        },
        SpecSignature::UnixFd => {
            lemma_encode_of_decode_unix_fds(buf, pos, e);
        },
        _ => {
            lemma_encode_of_decode_bytes(buf, pos, e);
        },
    }
}

/// Writing the array of variants that was read gives the bytes back.
pub proof fn lemma_encode_of_decode_array(buf: Seq<u8>, pos: int, sig: SpecSignature, e: Endianness)
    requires
        0 <= pos <= buf.len(),
        sig matches SpecSignature::Array { element } && !is_specialized(*element),
        decode(buf, pos, sig, e) is Ok,
    ensures
        pos <= decode(buf, pos, sig, e)->Ok_0.end() <= buf.len(),
        encode(decode(buf, pos, sig, e)->Ok_0.val(), pos, e) == Some(
            buf.subrange(pos, decode(buf, pos, sig, e)->Ok_0.end()),
        ),
    decreases remaining(buf, pos), sig, 0nat,
{
    let element = *sig->Array_element;
    lemma_signature_alignment(element);
    lemma_array_of_header(buf, pos, element.alignment(), e);
    let first = array_first(pos, element.alignment());
    let end = decode_array_header(buf, pos, element.alignment(), e)->Ok_0.end();
    lemma_encode_of_decode_elements(buf.take(end), first, element, e);
    assert(buf.take(end).subrange(first, end) =~= buf.subrange(first, end));
}

/// Writing the dict entry that was read gives the bytes back.
pub proof fn lemma_encode_of_decode_dict_entry(
    buf: Seq<u8>,
    pos: int,
    sig: SpecSignature,
    e: Endianness,
)
    requires
        0 <= pos <= buf.len(),
        sig is DictEntry,
        decode(buf, pos, sig, e) is Ok,
    ensures
        pos <= decode(buf, pos, sig, e)->Ok_0.end() <= buf.len(),
        encode(decode(buf, pos, sig, e)->Ok_0.val(), pos, e) == Some(
            buf.subrange(pos, decode(buf, pos, sig, e)->Ok_0.end()),
        ),
    decreases remaining(buf, pos), sig, 0nat,
{
    let key = *sig->DictEntry_key;
    let value = *sig->DictEntry_value;
    lemma_padding_len(pos, 8);
    lemma_padding_round_trip(buf, pos, 8);
    let p = aligned(pos, 8);
    lemma_encode_of_decode(buf, p, key, e);
    let p1 = decode(buf, p, key, e)->Ok_0.end();
    lemma_encode_of_decode(buf, p1, value, e);
    let p2 = decode(buf, p1, value, e)->Ok_0.end();
    lemma_subrange_join(buf, pos, p, p1);
    lemma_subrange_join(buf, pos, p1, p2);
}

/// Writing the struct that was read gives the bytes back.
pub proof fn lemma_encode_of_decode_struct(
    buf: Seq<u8>,
    pos: int,
    sig: SpecSignature,
    e: Endianness,
)
    requires
        0 <= pos <= buf.len(),
        sig is Struct,
        decode(buf, pos, sig, e) is Ok,
    ensures
        pos <= decode(buf, pos, sig, e)->Ok_0.end() <= buf.len(),
        encode(decode(buf, pos, sig, e)->Ok_0.val(), pos, e) == Some(
            buf.subrange(pos, decode(buf, pos, sig, e)->Ok_0.end()),
        ),
    decreases remaining(buf, pos), sig, 0nat,
{
    let fields = sig->Struct_fields;
    lemma_padding_len(pos, 8);
    lemma_padding_round_trip(buf, pos, 8);
    let p = aligned(pos, 8);
    lemma_encode_of_decode_fields(buf, p, fields, e);
    let end = decode_fields(buf, p, fields, e)->Ok_0.end();
    lemma_subrange_join(buf, pos, p, end);
}

/// Writing the variant in a variant that was read gives the bytes back.
pub proof fn lemma_encode_of_decode_variant(buf: Seq<u8>, pos: int, e: Endianness)
    requires
        0 <= pos <= buf.len(),
        decode(buf, pos, SpecSignature::Variant, e) is Ok,
    ensures
        pos <= decode(buf, pos, SpecSignature::Variant, e)->Ok_0.end() <= buf.len(),
        encode(decode(buf, pos, SpecSignature::Variant, e)->Ok_0.val(), pos, e) == Some(
            buf.subrange(pos, decode(buf, pos, SpecSignature::Variant, e)->Ok_0.end()),
        ),
    decreases remaining(buf, pos), SpecSignature::Variant, 0nat,
{
    lemma_encode_signature_of_decode(buf, pos);
    let found = decode_signature(buf, pos)->Ok_0;
    let inner = found.val();
    let p = found.end();
    lemma_decoded_signature(buf, p, inner, e);
    lemma_encode_of_decode(buf, p, inner, e);
    let end = decode(buf, p, inner, e)->Ok_0.end();
    lemma_subrange_join(buf, pos, p, end);
}

/// Writing the value that was read from bytes gives the bytes back.
pub proof fn lemma_encode_of_decode(buf: Seq<u8>, pos: int, sig: SpecSignature, e: Endianness)
    requires
        0 <= pos <= buf.len(),
        decode(buf, pos, sig, e) is Ok,
    ensures
        pos <= decode(buf, pos, sig, e)->Ok_0.end() <= buf.len(),
        encode(decode(buf, pos, sig, e)->Ok_0.val(), pos, e) == Some(
            buf.subrange(pos, decode(buf, pos, sig, e)->Ok_0.end()),
        ),
    decreases remaining(buf, pos), sig, 1nat,
{
    match sig {
        SpecSignature::Array { element } => {
            if is_specialized(*element) {
                lemma_encode_of_decode_specialized(buf, pos, *element, e);
            } else {
                lemma_encode_of_decode_array(buf, pos, sig, e);
            }
        },
        SpecSignature::DictEntry { .. } => {
            lemma_encode_of_decode_dict_entry(buf, pos, sig, e);
        },
        SpecSignature::Struct { .. } => {
            lemma_encode_of_decode_struct(buf, pos, sig, e);
        },
        SpecSignature::Tuple { elements } => {
            lemma_encode_of_decode_fields(buf, pos, elements, e);
        },
        SpecSignature::Variant => {
            lemma_encode_of_decode_variant(buf, pos, e);
        },
        _ => {
            lemma_encode_of_decode_basic(buf, pos, sig, e);
        },
    }
}

/// Writing the values that were read one after the other gives the bytes
/// back.
pub proof fn lemma_encode_of_decode_fields(
    buf: Seq<u8>,
    pos: int,
    sigs: Seq<SpecSignature>,
    e: Endianness,
)
    requires
        0 <= pos <= buf.len(),
        decode_fields(buf, pos, sigs, e) is Ok,
    ensures
        pos <= decode_fields(buf, pos, sigs, e)->Ok_0.end() <= buf.len(),
        encode_all(decode_fields(buf, pos, sigs, e)->Ok_0.val(), pos, e) == Some(
            buf.subrange(pos, decode_fields(buf, pos, sigs, e)->Ok_0.end()),
        ),
    decreases remaining(buf, pos), sigs, 2nat,
{
    if sigs.len() == 0 {
        assert(buf.subrange(pos, pos) =~= Seq::<u8>::empty());
    } else {
        lemma_encode_of_decode(buf, pos, sigs[0], e);
        let found = decode(buf, pos, sigs[0], e)->Ok_0;
        let p = found.end();
        lemma_encode_of_decode_fields(buf, p, sigs.drop_first(), e);
        let rest = decode_fields(buf, p, sigs.drop_first(), e)->Ok_0;
        let values = seq![found.val()] + rest.val();
        assert(values.drop_first() =~= rest.val());
        assert(values[0] == found.val());
        lemma_subrange_join(buf, pos, p, rest.end());
    }
}

/// Writing the values that were read up to the end of the buffer gives the
/// bytes back.
pub proof fn lemma_encode_of_decode_elements(
    buf: Seq<u8>,
    pos: int,
    sig: SpecSignature,
    e: Endianness,
)
    requires
        0 <= pos <= buf.len(),
        decode_elements(buf, pos, sig, e) is Ok,
    ensures
        encode_all(decode_elements(buf, pos, sig, e)->Ok_0, pos, e) == Some(
            buf.subrange(pos, buf.len() as int),
        ),
    decreases remaining(buf, pos), sig, 2nat,
{
    if pos >= buf.len() {
        assert(buf.subrange(pos, buf.len() as int) =~= Seq::<u8>::empty());
    } else {
        lemma_encode_of_decode(buf, pos, sig, e);
        let found = decode(buf, pos, sig, e)->Ok_0;
        let p = found.end();
        lemma_encode_of_decode_elements(buf, p, sig, e);
        let rest = decode_elements(buf, p, sig, e)->Ok_0;
        let values = seq![found.val()] + rest;
        assert(values.drop_first() =~= rest);
        assert(values[0] == found.val());
        lemma_subrange_join(buf, pos, p, buf.len() as int);
    }
}

// ---------------------------------------------------------------------
// Reading the bytes that were written for a value gives the value back.
// ---------------------------------------------------------------------
/// Whether the value `v`, written at `pos`, is one that reading gives back.
///
/// Its arrays of variants are not of a type that has a specialized array,
/// and each of their elements has the signature of the elements and is
/// written as at least one byte; its signatures, and the signatures of the
/// values in its variants, are such as a text can stand for.
pub open spec fn is_faithful(v: SpecVariant, pos: int, e: Endianness) -> bool
    decreases v, 0nat,
{
    match v {
        SpecVariant::Array { element_signature, elements } => !is_specialized(element_signature)
            && are_faithful_elements(
            elements,
            element_signature,
            array_first(pos, element_signature.alignment()),
            e,
        ),
        SpecVariant::DictEntry { key, value } => is_faithful(*key, aligned(pos, 8), e) && match encode(
            *key,
            aligned(pos, 8),
            e,
        ) {
            Some(k) => is_faithful(*value, aligned(pos, 8) + k.len(), e),
            None => true,
        },
        SpecVariant::Signature(s) => s.is_canonical(),
        SpecVariant::Struct { fields } => are_faithful(fields, aligned(pos, 8), e),
        SpecVariant::Tuple { elements } => are_faithful(elements, pos, e),
        SpecVariant::Variant(inner) => inner.inner_signature().is_canonical() && match encode_signature(
            inner.inner_signature(),
        ) {
            Some(s) => is_faithful(*inner, pos + s.len(), e),
            None => true,
        },
        _ => true,
    }
}

/// Whether each of the values `vs`, written one after the other from `pos`
/// on, is one that reading gives back.
pub open spec fn are_faithful(vs: Seq<SpecVariant>, pos: int, e: Endianness) -> bool
    decreases vs, 1nat,
{
    vs.len() == 0 || (is_faithful(vs[0], pos, e) && match encode(vs[0], pos, e) {
        Some(first) => are_faithful(vs.drop_first(), pos + first.len(), e),
        None => true,
    })
}

/// Whether each of the values `vs`, written one after the other from `pos`
/// on as the elements of an array of variants of the signature `sig`, is
/// one that reading gives back, has that signature, and is written as at
/// least one byte.
pub open spec fn are_faithful_elements(
    vs: Seq<SpecVariant>,
    sig: SpecSignature,
    pos: int,
    e: Endianness,
) -> bool
    decreases vs, 1nat,
{
    vs.len() == 0 || (vs[0].inner_signature() == sig && is_faithful(vs[0], pos, e) && match encode(
        vs[0],
        pos,
        e,
    ) {
        Some(first) => first.len() >= 1 && are_faithful_elements(
            vs.drop_first(),
            sig,
            pos + first.len(),
            e,
        ),
        None => true,
    })
}

/// Reading the bytes written for a value without parts gives it back.
pub proof fn lemma_decode_of_encode_basic(v: SpecVariant, buf: Seq<u8>, pos: int, e: Endianness)
    requires
        pos >= 0,
        is_basic(v.inner_signature()),
        is_faithful(v, pos, e),
        encode(v, pos, e) is Some,
        occurs_at(buf, pos, encode(v, pos, e)->0),
    ensures
        decode_basic(buf, pos, v.inner_signature(), e) == Ok::<(SpecVariant, int), DecodeError>(
            (v, pos + encode(v, pos, e)->0.len()),
        ),
{
    reveal(decode_basic);
    reveal(encode_basic);
    lemma_pow256_values();
    match v {
        SpecVariant::Bool(x) => {
            lemma_bool_round_trip(buf, pos, e);
        },
        SpecVariant::U16(x) => {
            lemma_decode_uint_of_encode(x as nat, 2, buf, pos, e);
        },
        SpecVariant::I16(x) => {
            lemma_signed_round_trip(x as int, 0, 0x1_0000);
            lemma_decode_uint_of_encode(to_unsigned(x as int, 0x1_0000), 2, buf, pos, e);
        },
        SpecVariant::U32(x) => {
            lemma_decode_uint_of_encode(x as nat, 4, buf, pos, e);
        },
        SpecVariant::UnixFd(x) => {
            lemma_decode_uint_of_encode(x.0 as nat, 4, buf, pos, e);
        },
        SpecVariant::I32(x) => {
            lemma_signed_round_trip(x as int, 0, 0x1_0000_0000);
            lemma_decode_uint_of_encode(to_unsigned(x as int, 0x1_0000_0000), 4, buf, pos, e);
        },
        SpecVariant::U64(x) => {
            lemma_decode_uint_of_encode(x as nat, 8, buf, pos, e);
        },
        SpecVariant::F64(x) => {
            lemma_decode_uint_of_encode(x as nat, 8, buf, pos, e);
        },
        SpecVariant::I64(x) => {
            lemma_signed_round_trip(x as int, 0, 0x1_0000_0000_0000_0000);
            lemma_decode_uint_of_encode(
                to_unsigned(x as int, 0x1_0000_0000_0000_0000),
                8,
                buf,
                pos,
                e,
            );
        },
        SpecVariant::ObjectPath(x) => {
            lemma_decode_string_of_encode(x, buf, pos, e);
        },
        SpecVariant::String(x) => {
            lemma_decode_string_of_encode(x, buf, pos, e);
        },
        SpecVariant::Signature(x) => {
            lemma_decode_signature_of_encode(x, buf, pos);
        },
        SpecVariant::U8(x) => {
            lemma_occurs_one(buf, pos, x);
        },
        _ => {},
    }
}

/// Reading the bytes written for an array of `bool` gives it back.
pub proof fn lemma_decode_of_encode_bools(xs: Seq<bool>, buf: Seq<u8>, pos: int, e: Endianness)
    requires
        pos >= 0,
        encode(SpecVariant::ArrayBool(xs), pos, e) is Some,
        occurs_at(buf, pos, encode(SpecVariant::ArrayBool(xs), pos, e)->0),
    ensures
        decode_specialized_array(buf, pos, SpecSignature::Bool, e) == Ok::<
            (SpecVariant, int),
            DecodeError,
        >((SpecVariant::ArrayBool(xs), pos + encode(SpecVariant::ArrayBool(xs), pos, e)->0.len())),
{
    reveal(decode_specialized_array);
    reveal(encode_specialized_array);
    lemma_decode_typed_array_of_encode::<bool>(xs, buf, pos, e);
}

/// Reading the bytes written for an array of `f64` gives it back.
pub proof fn lemma_decode_of_encode_doubles(xs: Seq<u64>, buf: Seq<u8>, pos: int, e: Endianness)
    requires
        pos >= 0,
        encode(SpecVariant::ArrayF64(xs), pos, e) is Some,
        occurs_at(buf, pos, encode(SpecVariant::ArrayF64(xs), pos, e)->0),
    ensures
        decode_specialized_array(buf, pos, SpecSignature::F64, e) == Ok::<
            (SpecVariant, int),
            DecodeError,
        >((SpecVariant::ArrayF64(xs), pos + encode(SpecVariant::ArrayF64(xs), pos, e)->0.len())),
{
    reveal(decode_specialized_array);
    reveal(encode_specialized_array);
    lemma_decode_typed_array_of_encode::<u64>(xs, buf, pos, e);
}

/// Reading the bytes written for an array of `i16` gives it back.
pub proof fn lemma_decode_of_encode_i16s(xs: Seq<i16>, buf: Seq<u8>, pos: int, e: Endianness)
    requires
        pos >= 0,
        encode(SpecVariant::ArrayI16(xs), pos, e) is Some,
        occurs_at(buf, pos, encode(SpecVariant::ArrayI16(xs), pos, e)->0),
    ensures
        decode_specialized_array(buf, pos, SpecSignature::I16, e) == Ok::<
            (SpecVariant, int),
            DecodeError,
        >((SpecVariant::ArrayI16(xs), pos + encode(SpecVariant::ArrayI16(xs), pos, e)->0.len())),
{
    reveal(decode_specialized_array);
    reveal(encode_specialized_array);
    lemma_decode_typed_array_of_encode::<i16>(xs, buf, pos, e);
}

/// Reading the bytes written for an array of `i32` gives it back.
pub proof fn lemma_decode_of_encode_i32s(xs: Seq<i32>, buf: Seq<u8>, pos: int, e: Endianness)
    requires
        pos >= 0,
        encode(SpecVariant::ArrayI32(xs), pos, e) is Some,
        occurs_at(buf, pos, encode(SpecVariant::ArrayI32(xs), pos, e)->0),
    ensures
        decode_specialized_array(buf, pos, SpecSignature::I32, e) == Ok::<
            (SpecVariant, int),
            DecodeError,
        >((SpecVariant::ArrayI32(xs), pos + encode(SpecVariant::ArrayI32(xs), pos, e)->0.len())),
{
    reveal(decode_specialized_array);
    reveal(encode_specialized_array);
    lemma_decode_typed_array_of_encode::<i32>(xs, buf, pos, e);
}

/// Reading the bytes written for an array of `i64` gives it back.
pub proof fn lemma_decode_of_encode_i64s(xs: Seq<i64>, buf: Seq<u8>, pos: int, e: Endianness)
    requires
        pos >= 0,
        encode(SpecVariant::ArrayI64(xs), pos, e) is Some,
        occurs_at(buf, pos, encode(SpecVariant::ArrayI64(xs), pos, e)->0),
    ensures
        decode_specialized_array(buf, pos, SpecSignature::I64, e) == Ok::<
            (SpecVariant, int),
            DecodeError,
        >((SpecVariant::ArrayI64(xs), pos + encode(SpecVariant::ArrayI64(xs), pos, e)->0.len())),
{
    reveal(decode_specialized_array);
    reveal(encode_specialized_array);
    lemma_decode_typed_array_of_encode::<i64>(xs, buf, pos, e);
}

/// Reading the bytes written for an array of `string` gives it back.
pub proof fn lemma_decode_of_encode_strings(xs: Seq<Seq<char>>, buf: Seq<u8>, pos: int, e: Endianness)
    requires
        pos >= 0,
        encode(SpecVariant::ArrayString(xs), pos, e) is Some,
        occurs_at(buf, pos, encode(SpecVariant::ArrayString(xs), pos, e)->0),
    ensures
        decode_specialized_array(buf, pos, SpecSignature::String, e) == Ok::<
            (SpecVariant, int),
            DecodeError,
        >((SpecVariant::ArrayString(xs), pos + encode(SpecVariant::ArrayString(xs), pos, e)->0.len())),
{
    reveal(decode_specialized_array);
    reveal(encode_specialized_array);
    lemma_decode_typed_array_of_encode::<String>(xs, buf, pos, e);
}

/// Reading the bytes written for an array of `u16` gives it back.
pub proof fn lemma_decode_of_encode_u16s(xs: Seq<u16>, buf: Seq<u8>, pos: int, e: Endianness)
    requires
        pos >= 0,
        encode(SpecVariant::ArrayU16(xs), pos, e) is Some,
        occurs_at(buf, pos, encode(SpecVariant::ArrayU16(xs), pos, e)->0),
    ensures
        decode_specialized_array(buf, pos, SpecSignature::U16, e) == Ok::<
            (SpecVariant, int),
            DecodeError,
        >((SpecVariant::ArrayU16(xs), pos + encode(SpecVariant::ArrayU16(xs), pos, e)->0.len())),
{
    reveal(decode_specialized_array);
    reveal(encode_specialized_array);
    lemma_decode_typed_array_of_encode::<u16>(xs, buf, pos, e);
}

/// Reading the bytes written for an array of `u32` gives it back.
pub proof fn lemma_decode_of_encode_u32s(xs: Seq<u32>, buf: Seq<u8>, pos: int, e: Endianness)
    requires
        pos >= 0,
        encode(SpecVariant::ArrayU32(xs), pos, e) is Some,
        occurs_at(buf, pos, encode(SpecVariant::ArrayU32(xs), pos, e)->0),
    ensures
        decode_specialized_array(buf, pos, SpecSignature::U32, e) == Ok::<
            (SpecVariant, int),
            DecodeError,
        >((SpecVariant::ArrayU32(xs), pos + encode(SpecVariant::ArrayU32(xs), pos, e)->0.len())),
{
    reveal(decode_specialized_array);
    reveal(encode_specialized_array);
    lemma_decode_typed_array_of_encode::<u32>(xs, buf, pos, e);
}

/// Reading the bytes written for an array of `u64` gives it back.
pub proof fn lemma_decode_of_encode_u64s(xs: Seq<u64>, buf: Seq<u8>, pos: int, e: Endianness)
    requires
        pos >= 0,
        encode(SpecVariant::ArrayU64(xs), pos, e) is Some,
        occurs_at(buf, pos, encode(SpecVariant::ArrayU64(xs), pos, e)->0),
    ensures
        decode_specialized_array(buf, pos, SpecSignature::U64, e) == Ok::<
            (SpecVariant, int),
            DecodeError,
        >((SpecVariant::ArrayU64(xs), pos + encode(SpecVariant::ArrayU64(xs), pos, e)->0.len())),
{
    reveal(decode_specialized_array);
    reveal(encode_specialized_array);
    lemma_decode_typed_array_of_encode::<u64>(xs, buf, pos, e);
}

/// Reading the bytes written for an array of `unixfd` gives it back.
pub proof fn lemma_decode_of_encode_unix_fds(xs: Seq<UnixFd>, buf: Seq<u8>, pos: int, e: Endianness)
    requires
        pos >= 0,
        encode(SpecVariant::ArrayUnixFd(xs), pos, e) is Some,
        occurs_at(buf, pos, encode(SpecVariant::ArrayUnixFd(xs), pos, e)->0),
    ensures
        decode_specialized_array(buf, pos, SpecSignature::UnixFd, e) == Ok::<
            (SpecVariant, int),
            DecodeError,
        >((SpecVariant::ArrayUnixFd(xs), pos + encode(SpecVariant::ArrayUnixFd(xs), pos, e)->0.len())),
{
    reveal(decode_specialized_array);
    reveal(encode_specialized_array);
    lemma_decode_typed_array_of_encode::<UnixFd>(xs, buf, pos, e);
}

/// Reading the bytes written for an array of bytes gives it back.
pub proof fn lemma_decode_of_encode_bytes(xs: Seq<u8>, buf: Seq<u8>, pos: int, e: Endianness)
    requires
        pos >= 0,
        encode(SpecVariant::ArrayU8(xs), pos, e) is Some,
        occurs_at(buf, pos, encode(SpecVariant::ArrayU8(xs), pos, e)->0),
    ensures
        decode_specialized_array(buf, pos, SpecSignature::U8, e) == Ok::<
            (SpecVariant, int),
            DecodeError,
        >((SpecVariant::ArrayU8(xs), pos + encode(SpecVariant::ArrayU8(xs), pos, e)->0.len())),
{
    reveal(decode_specialized_array);
    reveal(encode_specialized_array);
    lemma_decode_byte_array_of_encode(xs, buf, pos, e);
}

/// Reading the bytes written for a specialized array gives it back.
pub proof fn lemma_decode_of_encode_specialized(
    v: SpecVariant,
    buf: Seq<u8>,
    pos: int,
    e: Endianness,
)
    requires
        pos >= 0,
        v.inner_signature() matches SpecSignature::Array { element } && is_specialized(*element),
        !(v is Array),
        encode(v, pos, e) is Some,
        occurs_at(buf, pos, encode(v, pos, e)->0),
    ensures
        decode_specialized_array(buf, pos, *v.inner_signature()->Array_element, e) == Ok::<
            (SpecVariant, int),
            DecodeError,
        >((v, pos + encode(v, pos, e)->0.len())),
{
    match v {
        SpecVariant::ArrayBool(xs) => {
            lemma_decode_of_encode_bools(xs, buf, pos, e);
        },
        SpecVariant::ArrayF64(xs) => {
            lemma_decode_of_encode_doubles(xs, buf, pos, e);
        },
        SpecVariant::ArrayI16(xs) => {
            lemma_decode_of_encode_i16s(xs, buf, pos, e);
        },
        SpecVariant::ArrayI32(xs) => {
            lemma_decode_of_encode_i32s(xs, buf, pos, e);
        },
        SpecVariant::ArrayI64(xs) => {
            lemma_decode_of_encode_i64s(xs, buf, pos, e);
        },
        SpecVariant::ArrayString(xs) => {
            lemma_decode_of_encode_strings(xs, buf, pos, e);
        },
        SpecVariant::ArrayU16(xs) => {
            lemma_decode_of_encode_u16s(xs, buf, pos, e);
        },
        SpecVariant::ArrayU32(xs) => {
            lemma_decode_of_encode_u32s(xs, buf, pos, e);
        },
        SpecVariant::ArrayU64(xs) => {
            lemma_decode_of_encode_u64s(xs, buf, pos, e);
        },
        SpecVariant::ArrayUnixFd(xs) => {
            lemma_decode_of_encode_unix_fds(xs, buf, pos, e);
        },
        SpecVariant::ArrayU8(xs) => {
            lemma_decode_of_encode_bytes(xs, buf, pos, e);
        },
        _ => {},
    }
}

/// Reading the bytes written for an array of variants gives it back.
pub proof fn lemma_decode_of_encode_array(v: SpecVariant, buf: Seq<u8>, pos: int, e: Endianness)
    requires
        pos >= 0,
        v is Array,
        is_faithful(v, pos, e),
        encode(v, pos, e) is Some,
        occurs_at(buf, pos, encode(v, pos, e)->0),
    ensures
        decode(buf, pos, v.inner_signature(), e) == Ok::<(SpecVariant, int), DecodeError>(
            (v, pos + encode(v, pos, e)->0.len()),
        ),
    decreases v, 0nat,
{
    let sig = v->Array_element_signature;
    let elements = v->Array_elements;
    lemma_signature_alignment(sig);
    let first = array_first(pos, sig.alignment());
    let body = encode_all(elements, first, e)->0;
    lemma_array_header_of_encode(body, sig.alignment(), buf, pos, e);
    let end = first + body.len();
    lemma_decode_of_encode_elements(elements, sig, buf.take(end), first, e);
    assert(v.inner_signature() == SpecSignature::Array { element: Box::new(sig) });
}

/// Reading the bytes written for a dict entry gives it back.
pub proof fn lemma_decode_of_encode_dict_entry(
    v: SpecVariant,
    buf: Seq<u8>,
    pos: int,
    e: Endianness,
)
    requires
        pos >= 0,
        v is DictEntry,
        is_faithful(v, pos, e),
        encode(v, pos, e) is Some,
        occurs_at(buf, pos, encode(v, pos, e)->0),
    ensures
        decode(buf, pos, v.inner_signature(), e) == Ok::<(SpecVariant, int), DecodeError>(
            (v, pos + encode(v, pos, e)->0.len()),
        ),
    decreases v, 0nat,
{
    let key = *v->DictEntry_key;
    let value = *v->DictEntry_value;
    lemma_padding_len(pos, 8);
    let p = aligned(pos, 8);
    let pad = zeros(padding_len(pos, 8));
    let k = encode(key, p, e)->0;
    let w = encode(value, p + k.len(), e)->0;
    lemma_occurs_split(buf, pos, pad + k, w);
    lemma_occurs_split(buf, pos, pad, k);
    lemma_padding_round_trip(buf, pos, 8);
    lemma_decode_of_encode(key, buf, p, e);
    lemma_decode_of_encode(value, buf, p + k.len(), e);
    assert(v.inner_signature() == SpecSignature::DictEntry {
        key: Box::new(key.inner_signature()),
        value: Box::new(value.inner_signature()),
    });
    assert(v == SpecVariant::DictEntry { key: Box::new(key), value: Box::new(value) });
}

/// Reading the bytes written for a struct gives it back.
pub proof fn lemma_decode_of_encode_struct(v: SpecVariant, buf: Seq<u8>, pos: int, e: Endianness)
    requires
        pos >= 0,
        v is Struct,
        is_faithful(v, pos, e),
        encode(v, pos, e) is Some,
        occurs_at(buf, pos, encode(v, pos, e)->0),
    ensures
        decode(buf, pos, v.inner_signature(), e) == Ok::<(SpecVariant, int), DecodeError>(
            (v, pos + encode(v, pos, e)->0.len()),
        ),
    decreases v, 0nat,
{
    let fields = v->Struct_fields;
    lemma_padding_len(pos, 8);
    let p = aligned(pos, 8);
    let pad = zeros(padding_len(pos, 8));
    let body = encode_all(fields, p, e)->0;
    lemma_occurs_split(buf, pos, pad, body);
    lemma_padding_round_trip(buf, pos, 8);
    lemma_decode_of_encode_fields(fields, buf, p, e);
}

/// Reading the bytes written for a variant in a variant gives it back.
pub proof fn lemma_decode_of_encode_variant(v: SpecVariant, buf: Seq<u8>, pos: int, e: Endianness)
    requires
        pos >= 0,
        v is Variant,
        is_faithful(v, pos, e),
        encode(v, pos, e) is Some,
        occurs_at(buf, pos, encode(v, pos, e)->0),
    ensures
        decode(buf, pos, v.inner_signature(), e) == Ok::<(SpecVariant, int), DecodeError>(
            (v, pos + encode(v, pos, e)->0.len()),
        ),
    decreases v, 0nat,
{
    let inner = *v->Variant_0;
    let s = encode_signature(inner.inner_signature())->0;
    let bytes = encode(inner, pos + s.len(), e)->0;
    lemma_occurs_split(buf, pos, s, bytes);
    lemma_decode_signature_of_encode(inner.inner_signature(), buf, pos);
    lemma_decode_of_encode(inner, buf, pos + s.len(), e);
    assert(v == SpecVariant::Variant(Box::new(inner)));
}

/// Reading the bytes that were written for a value gives the value back,
/// where the value is one that reading can give.
pub proof fn lemma_decode_of_encode(v: SpecVariant, buf: Seq<u8>, pos: int, e: Endianness)
    requires
        pos >= 0,
        is_faithful(v, pos, e),
        encode(v, pos, e) is Some,
        occurs_at(buf, pos, encode(v, pos, e)->0),
    ensures
        decode(buf, pos, v.inner_signature(), e) == Ok::<(SpecVariant, int), DecodeError>(
            (v, pos + encode(v, pos, e)->0.len()),
        ),
    decreases v, 1nat,
{
    match v {
        SpecVariant::Array { .. } => {
            lemma_decode_of_encode_array(v, buf, pos, e);
        },
        SpecVariant::DictEntry { .. } => {
            lemma_decode_of_encode_dict_entry(v, buf, pos, e);
        },
        SpecVariant::Struct { .. } => {
            lemma_decode_of_encode_struct(v, buf, pos, e);
        },
        SpecVariant::Tuple { elements } => {
            lemma_decode_of_encode_fields(elements, buf, pos, e);
        },
        SpecVariant::Variant(_) => {
            lemma_decode_of_encode_variant(v, buf, pos, e);
        },
        SpecVariant::ArrayBool(_)
        | SpecVariant::ArrayF64(_)
        | SpecVariant::ArrayI16(_)
        | SpecVariant::ArrayI32(_)
        | SpecVariant::ArrayI64(_)
        | SpecVariant::ArrayString(_)
        | SpecVariant::ArrayU8(_)
        | SpecVariant::ArrayU16(_)
        | SpecVariant::ArrayU32(_)
        | SpecVariant::ArrayU64(_)
        | SpecVariant::ArrayUnixFd(_) => {
            lemma_decode_of_encode_specialized(v, buf, pos, e);
        },
        _ => {
            lemma_decode_of_encode_basic(v, buf, pos, e);
        },
    }
}

/// Reading the bytes written for values one after the other gives them
/// back.
pub proof fn lemma_decode_of_encode_fields(
    vs: Seq<SpecVariant>,
    buf: Seq<u8>,
    pos: int,
    e: Endianness,
)
    requires
        pos >= 0,
        are_faithful(vs, pos, e),
        encode_all(vs, pos, e) is Some,
        occurs_at(buf, pos, encode_all(vs, pos, e)->0),
    ensures
        decode_fields(buf, pos, inner_signatures(vs), e) == Ok::<
            (Seq<SpecVariant>, int),
            DecodeError,
        >((vs, pos + encode_all(vs, pos, e)->0.len())),
    decreases vs, 2nat,
{
    lemma_inner_signatures(vs);
    if vs.len() == 0 {
        assert(vs =~= Seq::<SpecVariant>::empty());
    } else {
        let first = encode(vs[0], pos, e)->0;
        let rest = encode_all(vs.drop_first(), pos + first.len(), e)->0;
        lemma_occurs_split(buf, pos, first, rest);
        lemma_decode_of_encode(vs[0], buf, pos, e);
        lemma_decode_of_encode_fields(vs.drop_first(), buf, pos + first.len(), e);
        assert(inner_signatures(vs).drop_first() =~= inner_signatures(vs.drop_first()));
        assert(seq![vs[0]] + vs.drop_first() =~= vs);
    }
}

/// Reading the bytes written for the elements of an array of variants, up
/// to the end of the buffer, gives them back.
pub proof fn lemma_decode_of_encode_elements(
    vs: Seq<SpecVariant>,
    sig: SpecSignature,
    buf: Seq<u8>,
    pos: int,
    e: Endianness,
)
    requires
        pos >= 0,
        are_faithful_elements(vs, sig, pos, e),
        encode_all(vs, pos, e) is Some,
        occurs_at(buf, pos, encode_all(vs, pos, e)->0),
        pos + encode_all(vs, pos, e)->0.len() == buf.len(),
    ensures
        decode_elements(buf, pos, sig, e) == Ok::<Seq<SpecVariant>, DecodeError>(vs),
    decreases vs, 2nat,
{
    if vs.len() == 0 {
        assert(vs =~= Seq::<SpecVariant>::empty());
    } else {
        let first = encode(vs[0], pos, e)->0;
        let rest = encode_all(vs.drop_first(), pos + first.len(), e)->0;
        lemma_occurs_split(buf, pos, first, rest);
        lemma_decode_of_encode(vs[0], buf, pos, e);
        lemma_decode_of_encode_elements(vs.drop_first(), sig, buf, pos + first.len(), e);
        assert(seq![vs[0]] + vs.drop_first() =~= vs);
    }
}

// ---------------------------------------------------------------------
// The values that reading gives back are the values that reading gives.
// ---------------------------------------------------------------------
/// Every value without parts that is read is one that reading gives back.
pub proof fn lemma_decoded_is_faithful_basic(
    buf: Seq<u8>,
    pos: int,
    sig: SpecSignature,
    e: Endianness,
)
    requires
        0 <= pos <= buf.len(),
        is_basic(sig),
        decode_basic(buf, pos, sig, e) is Ok,
    ensures
        is_faithful(decode_basic(buf, pos, sig, e)->Ok_0.val(), pos, e),
{
    reveal(decode_basic);
    if sig is Signature {
        lemma_encode_signature_of_decode(buf, pos);
    }
}

/// Every specialized array that is read is one that reading gives back.
pub proof fn lemma_decoded_is_faithful_specialized(
    buf: Seq<u8>,
    pos: int,
    element: SpecSignature,
    e: Endianness,
)
    requires
        is_specialized(element),
        decode_specialized_array(buf, pos, element, e) is Ok,
    ensures
        is_faithful(decode_specialized_array(buf, pos, element, e)->Ok_0.val(), pos, e),
{
    reveal(decode_specialized_array);
}

/// Every array of variants that is read is one that reading gives back.
pub proof fn lemma_decoded_is_faithful_array(
    buf: Seq<u8>,
    pos: int,
    sig: SpecSignature,
    e: Endianness,
)
    requires
        0 <= pos <= buf.len(),
        sig matches SpecSignature::Array { element } && !is_specialized(*element),
        decode(buf, pos, sig, e) is Ok,
    ensures
        is_faithful(decode(buf, pos, sig, e)->Ok_0.val(), pos, e),
    decreases remaining(buf, pos), sig, 0nat,
{
    let element = *sig->Array_element;
    lemma_signature_alignment(element);
    lemma_array_of_header(buf, pos, element.alignment(), e);
    let first = array_first(pos, element.alignment());
    let end = decode_array_header(buf, pos, element.alignment(), e)->Ok_0.end();
    lemma_decoded_are_faithful_elements(buf.take(end), first, element, e);
}

/// Every dict entry that is read is one that reading gives back.
pub proof fn lemma_decoded_is_faithful_dict_entry(
    buf: Seq<u8>,
    pos: int,
    sig: SpecSignature,
    e: Endianness,
)
    requires
        0 <= pos <= buf.len(),
        sig is DictEntry,
        decode(buf, pos, sig, e) is Ok,
    ensures
        is_faithful(decode(buf, pos, sig, e)->Ok_0.val(), pos, e),
    decreases remaining(buf, pos), sig, 0nat,
{
    let key = *sig->DictEntry_key;
    let value = *sig->DictEntry_value;
    lemma_padding_len(pos, 8);
    lemma_padding_round_trip(buf, pos, 8);
    let p = aligned(pos, 8);
    lemma_decoded_is_faithful(buf, p, key, e);
    lemma_encode_of_decode(buf, p, key, e);
    let p1 = decode(buf, p, key, e)->Ok_0.end();
    lemma_decoded_is_faithful(buf, p1, value, e);
}

/// Every variant in a variant that is read is one that reading gives back.
pub proof fn lemma_decoded_is_faithful_variant(buf: Seq<u8>, pos: int, e: Endianness)
    requires
        0 <= pos <= buf.len(),
        decode(buf, pos, SpecSignature::Variant, e) is Ok,
    ensures
        is_faithful(decode(buf, pos, SpecSignature::Variant, e)->Ok_0.val(), pos, e),
    decreases remaining(buf, pos), SpecSignature::Variant, 0nat,
{
    lemma_encode_signature_of_decode(buf, pos);
    let found = decode_signature(buf, pos)->Ok_0;
    lemma_decoded_signature(buf, found.end(), found.val(), e);
    lemma_decoded_is_faithful(buf, found.end(), found.val(), e);
}

/// Every value that is read is one that reading gives back: no value is
/// left out of `lemma_decode_of_encode` that reading could give.
pub proof fn lemma_decoded_is_faithful(buf: Seq<u8>, pos: int, sig: SpecSignature, e: Endianness)
    requires
        0 <= pos <= buf.len(),
        decode(buf, pos, sig, e) is Ok,
    ensures
        is_faithful(decode(buf, pos, sig, e)->Ok_0.val(), pos, e),
    decreases remaining(buf, pos), sig, 1nat,
{
    match sig {
        SpecSignature::Array { element } => {
            if is_specialized(*element) {
                lemma_decoded_is_faithful_specialized(buf, pos, *element, e);
            } else {
                lemma_decoded_is_faithful_array(buf, pos, sig, e);
            }
        },
        SpecSignature::DictEntry { .. } => {
            lemma_decoded_is_faithful_dict_entry(buf, pos, sig, e);
        },
        SpecSignature::Struct { fields } => {
            lemma_padding_len(pos, 8);
            lemma_padding_round_trip(buf, pos, 8);
            lemma_decoded_are_faithful(buf, aligned(pos, 8), fields, e);
        },
        SpecSignature::Tuple { elements } => {
            lemma_decoded_are_faithful(buf, pos, elements, e);
        },
        SpecSignature::Variant => {
            lemma_decoded_is_faithful_variant(buf, pos, e);
        },
        _ => {
            lemma_decoded_is_faithful_basic(buf, pos, sig, e);
        },
    }
}

/// Every value among values that are read one after the other is one that
/// reading gives back.
pub proof fn lemma_decoded_are_faithful(
    buf: Seq<u8>,
    pos: int,
    sigs: Seq<SpecSignature>,
    e: Endianness,
)
    requires
        0 <= pos <= buf.len(),
        decode_fields(buf, pos, sigs, e) is Ok,
    ensures
        are_faithful(decode_fields(buf, pos, sigs, e)->Ok_0.val(), pos, e),
    decreases remaining(buf, pos), sigs, 2nat,
{
    if sigs.len() > 0 {
        lemma_decoded_is_faithful(buf, pos, sigs[0], e);
        lemma_encode_of_decode(buf, pos, sigs[0], e);
        let found = decode(buf, pos, sigs[0], e)->Ok_0;
        lemma_decoded_are_faithful(buf, found.end(), sigs.drop_first(), e);
        let rest = decode_fields(buf, found.end(), sigs.drop_first(), e)->Ok_0.val();
        let values = seq![found.val()] + rest;
        assert(values.drop_first() =~= rest);
        assert(values[0] == found.val());
    }
}

/// Every element of an array of variants that is read is one that reading
/// gives back, has the signature of the elements, and takes at least one
/// byte.
pub proof fn lemma_decoded_are_faithful_elements(
    buf: Seq<u8>,
    pos: int,
    sig: SpecSignature,
    e: Endianness,
)
    requires
        0 <= pos <= buf.len(),
        decode_elements(buf, pos, sig, e) is Ok,
    ensures
        are_faithful_elements(decode_elements(buf, pos, sig, e)->Ok_0, sig, pos, e),
    decreases remaining(buf, pos), sig, 2nat,
{
    if pos < buf.len() {
        lemma_decoded_is_faithful(buf, pos, sig, e);
        lemma_decoded_signature(buf, pos, sig, e);
        lemma_encode_of_decode(buf, pos, sig, e);
        let found = decode(buf, pos, sig, e)->Ok_0;
        lemma_decoded_are_faithful_elements(buf, found.end(), sig, e);
        let rest = decode_elements(buf, found.end(), sig, e)->Ok_0;
        let values = seq![found.val()] + rest;
        assert(values.drop_first() =~= rest);
        assert(values[0] == found.val());
    }
}

} // verus!
