//! What holds between the bytes written for a scalar or a string-like value
//! and the value read from bytes: reading what was written gives the value
//! back, and writing what was read gives the bytes back.

use crate::endian::{
    lemma_pow256_values, lemma_signed_round_trip, lemma_uint_bytes_len,
    lemma_uint_bytes_of_value, lemma_uint_value_of_bytes, pow256, to_unsigned, uint_bytes,
    uint_value, Endianness,
};
use crate::signature::SpecSignature;
use crate::signature_laws::{
    lemma_occurs_join, lemma_occurs_one, lemma_occurs_split, lemma_parse_of_text,
    lemma_text_of_parse, occurs_at,
};
use crate::signature_text::signature_text;
use crate::wire::{
    aligned, decode_bool, decode_byte_array, decode_i16, decode_i32, decode_i64, decode_padding,
    decode_signature, decode_string, decode_u16, decode_u32, decode_u64, decode_uint,
    encode_bool, encode_byte_array, encode_int, encode_signature, encode_string, encode_uint,
    padding_len, zeros, DecodeError,
};
use vstd::prelude::*;
use vstd::utf8::encode_utf8;

verus! {

/// A value that was read, with the position behind it.
pub trait Decoded<T> {
    /// The value.
    spec fn val(self) -> T;

    /// The position behind the value.
    spec fn end(self) -> int;
}

impl<T> Decoded<T> for (T, int) {
    open spec fn val(self) -> T {
        self.0
    }

    open spec fn end(self) -> int {
        self.1
    }
}

/// Whether `a` is the alignment of some type.
pub open spec fn is_alignment(a: int) -> bool {
    a == 1 || a == 2 || a == 4 || a == 8
}

/// Padding is shorter than the alignment, and leads to a multiple of it.
pub proof fn lemma_padding_len(pos: int, alignment: int)
    requires
        pos >= 0,
        is_alignment(alignment),
    ensures
        0 <= padding_len(pos, alignment) < alignment,
        aligned(pos, alignment) % alignment == 0,
        zeros(padding_len(pos, alignment)).len() == padding_len(pos, alignment),
{
}

/// Zero bytes are read as padding, and padding is zero bytes.
pub proof fn lemma_padding_round_trip(buf: Seq<u8>, pos: int, alignment: int)
    requires
        pos >= 0,
        is_alignment(alignment),
    ensures
        occurs_at(buf, pos, zeros(padding_len(pos, alignment))) <==> decode_padding(
            buf,
            pos,
            alignment,
        ) == Ok::<int, DecodeError>(aligned(pos, alignment)),
        decode_padding(buf, pos, alignment) is Ok ==> decode_padding(buf, pos, alignment) == Ok::<
            int,
            DecodeError,
        >(aligned(pos, alignment)) && aligned(pos, alignment) <= buf.len(),
{
    lemma_padding_len(pos, alignment);
    let end = aligned(pos, alignment);
    let pad = zeros(padding_len(pos, alignment));
    if occurs_at(buf, pos, pad) {
        assert forall|i: int| pos <= i < end implies #[trigger] buf[i] == 0 by {
            assert(buf.subrange(pos, end)[i - pos] == pad[i - pos]);
        }
    }
    if decode_padding(buf, pos, alignment) is Ok {
        assert(buf.subrange(pos, end) =~= pad);
    }
}

/// The bytes written for an unsigned number are padding and as many bytes
/// as the number is wide.
pub proof fn lemma_encode_uint_len(v: nat, width: int, pos: int, e: Endianness)
    requires
        pos >= 0,
        is_alignment(width),
    ensures
        encode_uint(v, width, pos, e).len() == padding_len(pos, width) + width,
        encode_uint(v, width, pos, e).len() >= 1,
        pos + encode_uint(v, width, pos, e).len() == aligned(pos, width) + width,
{
    lemma_padding_len(pos, width);
    lemma_uint_bytes_len(v, width as nat, e);
}

/// Reading the bytes written for an unsigned number that fits gives the
/// number back.
pub proof fn lemma_decode_uint_of_encode(v: nat, width: int, buf: Seq<u8>, pos: int, e: Endianness)
    requires
        pos >= 0,
        is_alignment(width),
        v < pow256(width as nat),
        occurs_at(buf, pos, encode_uint(v, width, pos, e)),
    ensures
        decode_uint(buf, pos, width, e) == Ok::<(nat, int), DecodeError>(
            (v, pos + encode_uint(v, width, pos, e).len()),
        ),
{
    lemma_encode_uint_len(v, width, pos, e);
    lemma_padding_len(pos, width);
    lemma_uint_bytes_len(v, width as nat, e);
    let pad = zeros(padding_len(pos, width));
    let digits = uint_bytes(v, width as nat, e);
    lemma_occurs_split(buf, pos, pad, digits);
    lemma_padding_round_trip(buf, pos, width);
    lemma_uint_value_of_bytes(v, width as nat, e);
}

/// Writing the unsigned number read from bytes gives the bytes back.
pub proof fn lemma_encode_uint_of_decode(buf: Seq<u8>, pos: int, width: int, e: Endianness)
    requires
        pos >= 0,
        is_alignment(width),
        decode_uint(buf, pos, width, e) is Ok,
    ensures
        decode_uint(buf, pos, width, e)->Ok_0.val() < pow256(width as nat),
        decode_uint(buf, pos, width, e)->Ok_0.end() == aligned(pos, width) + width,
        aligned(pos, width) + width <= buf.len(),
        occurs_at(
            buf,
            pos,
            encode_uint(decode_uint(buf, pos, width, e)->Ok_0.val(), width, pos, e),
        ),
        encode_uint(decode_uint(buf, pos, width, e)->Ok_0.val(), width, pos, e) == buf.subrange(
            pos,
            aligned(pos, width) + width,
        ),
{
    lemma_padding_len(pos, width);
    lemma_padding_round_trip(buf, pos, width);
    let start = aligned(pos, width);
    let digits = buf.subrange(start, start + width);
    lemma_uint_bytes_of_value(digits, e);
    let v = uint_value(digits, e);
    lemma_occurs_join(buf, pos, zeros(padding_len(pos, width)), digits);
    assert(buf.subrange(pos, start + width) =~= zeros(padding_len(pos, width)) + digits);
}

/// Reading the bytes written for a boolean gives the boolean back, and
/// writing the boolean read from bytes gives the bytes back.
pub proof fn lemma_bool_round_trip(buf: Seq<u8>, pos: int, e: Endianness)
    requires
        pos >= 0,
    ensures
        forall|v: bool| #[trigger]
            occurs_at(buf, pos, encode_bool(v, pos, e)) ==> decode_bool(buf, pos, e) == Ok::<
                (bool, int),
                DecodeError,
            >((v, pos + encode_bool(v, pos, e).len())),
        decode_bool(buf, pos, e) matches Ok((v, p)) ==> encode_bool(v, pos, e) == buf.subrange(
            pos,
            p,
        ) && pos < p <= buf.len(),
{
    lemma_pow256_values();
    assert forall|v: bool| #[trigger] occurs_at(buf, pos, encode_bool(v, pos, e)) implies decode_bool(
        buf,
        pos,
        e,
    ) == Ok::<(bool, int), DecodeError>((v, pos + encode_bool(v, pos, e).len())) by {
        let n: nat = if v {
            1
        } else {
            0
        };
        lemma_decode_uint_of_encode(n, 4, buf, pos, e);
    }
    if decode_bool(buf, pos, e) is Ok {
        lemma_encode_uint_of_decode(buf, pos, 4, e);
    }
}

/// The bytes written for bytes behind their count are read as those bytes.
pub proof fn lemma_decode_byte_array_of_encode(data: Seq<u8>, buf: Seq<u8>, pos: int, e: Endianness)
    requires
        pos >= 0,
        encode_byte_array(data, pos, e) is Some,
        occurs_at(buf, pos, encode_byte_array(data, pos, e)->0),
    ensures
        decode_byte_array(buf, pos, e) == Ok::<(Seq<u8>, int), DecodeError>(
            (data, pos + encode_byte_array(data, pos, e)->0.len()),
        ),
        encode_byte_array(data, pos, e)->0.len() >= 4,
{
    lemma_pow256_values();
    let count = encode_uint(data.len(), 4, pos, e);
    lemma_encode_uint_len(data.len(), 4, pos, e);
    lemma_occurs_split(buf, pos, count, data);
    lemma_decode_uint_of_encode(data.len(), 4, buf, pos, e);
}

/// Writing the bytes read behind their count gives the bytes back.
pub proof fn lemma_encode_byte_array_of_decode(buf: Seq<u8>, pos: int, e: Endianness)
    requires
        pos >= 0,
        decode_byte_array(buf, pos, e) is Ok,
    ensures
        encode_byte_array(decode_byte_array(buf, pos, e)->Ok_0.val(), pos, e) == Some(
            buf.subrange(pos, decode_byte_array(buf, pos, e)->Ok_0.end()),
        ),
        pos + 4 <= decode_byte_array(buf, pos, e)->Ok_0.end() <= buf.len(),
{
    lemma_pow256_values();
    lemma_encode_uint_of_decode(buf, pos, 4, e);
    let p = aligned(pos, 4) + 4;
    let len = decode_uint(buf, pos, 4, e)->Ok_0.val();
    let data = buf.subrange(p, p + len);
    lemma_padding_len(pos, 4);
    assert(buf.subrange(pos, p + len) =~= buf.subrange(pos, p) + data);
}

/// The bytes written for a string are read as that string.
pub proof fn lemma_decode_string_of_encode(v: Seq<char>, buf: Seq<u8>, pos: int, e: Endianness)
    requires
        pos >= 0,
        encode_string(v, pos, e) is Some,
        occurs_at(buf, pos, encode_string(v, pos, e)->0),
    ensures
        decode_string(buf, pos, e) == Ok::<(Seq<char>, int), DecodeError>(
            (v, pos + encode_string(v, pos, e)->0.len()),
        ),
        encode_string(v, pos, e)->0.len() >= 5,
{
    let data = encode_utf8(v);
    let counted = encode_byte_array(data, pos, e)->0;
    lemma_occurs_split(buf, pos, counted, seq![0u8]);
    lemma_decode_byte_array_of_encode(data, buf, pos, e);
    lemma_occurs_one(buf, pos + counted.len(), 0u8);
    vstd::utf8::encode_utf8_valid_utf8(v);
    vstd::utf8::encode_utf8_decode_utf8(v);
}

/// Writing the string read from bytes gives the bytes back.
pub proof fn lemma_encode_string_of_decode(buf: Seq<u8>, pos: int, e: Endianness)
    requires
        pos >= 0,
        decode_string(buf, pos, e) is Ok,
    ensures
        encode_string(decode_string(buf, pos, e)->Ok_0.val(), pos, e) == Some(
            buf.subrange(pos, decode_string(buf, pos, e)->Ok_0.end()),
        ),
        pos + 5 <= decode_string(buf, pos, e)->Ok_0.end() <= buf.len(),
{
    lemma_encode_byte_array_of_decode(buf, pos, e);
    let found = decode_byte_array(buf, pos, e)->Ok_0;
    let data = found.0;
    let p = found.1;
    vstd::utf8::decode_utf8_encode_utf8(data);
    assert(buf.subrange(pos, p + 1) =~= buf.subrange(pos, p) + seq![0u8]);
}

/// The bytes written for a signature that a text can stand for are read as
/// that signature.
pub proof fn lemma_decode_signature_of_encode(s: SpecSignature, buf: Seq<u8>, pos: int)
    requires
        pos >= 0,
        s.is_canonical(),
        encode_signature(s) is Some,
        occurs_at(buf, pos, encode_signature(s)->0),
    ensures
        decode_signature(buf, pos) == Ok::<(SpecSignature, int), DecodeError>(
            (s, pos + encode_signature(s)->0.len()),
        ),
        encode_signature(s)->0.len() >= 2,
{
    let text = signature_text(s);
    lemma_occurs_split(buf, pos, seq![text.len() as u8] + text, seq![0u8]);
    lemma_occurs_split(buf, pos, seq![text.len() as u8], text);
    lemma_occurs_one(buf, pos, text.len() as u8);
    lemma_occurs_one(buf, pos + 1 + text.len(), 0u8);
    lemma_parse_of_text(s);
}

/// Writing the signature read from bytes gives the bytes back, and the
/// signature is one that a text can stand for.
pub proof fn lemma_encode_signature_of_decode(buf: Seq<u8>, pos: int)
    requires
        pos >= 0,
        decode_signature(buf, pos) is Ok,
    ensures
        decode_signature(buf, pos)->Ok_0.val().is_canonical(),
        encode_signature(decode_signature(buf, pos)->Ok_0.val()) == Some(
            buf.subrange(pos, decode_signature(buf, pos)->Ok_0.end()),
        ),
        pos + 2 <= decode_signature(buf, pos)->Ok_0.end() <= buf.len(),
{
    let len = buf[pos];
    let text = buf.subrange(pos + 1, pos + 1 + len);
    lemma_text_of_parse(text);
    assert(buf.subrange(pos, pos + 1 + len + 1) =~= seq![len] + text + seq![0u8]);
}

/// An unsigned number that was read is the number that was written, for
/// each width, and a signed one too.
pub proof fn lemma_numbers_round_trip(buf: Seq<u8>, pos: int, e: Endianness)
    requires
        pos >= 0,
    ensures
        forall|v: u16| #[trigger]
            occurs_at(buf, pos, encode_uint(v as nat, 2, pos, e)) ==> decode_u16(buf, pos, e)
                == Ok::<(u16, int), DecodeError>((v, pos + encode_uint(v as nat, 2, pos, e).len())),
        forall|v: u32| #[trigger]
            occurs_at(buf, pos, encode_uint(v as nat, 4, pos, e)) ==> decode_u32(buf, pos, e)
                == Ok::<(u32, int), DecodeError>((v, pos + encode_uint(v as nat, 4, pos, e).len())),
        forall|v: u64| #[trigger]
            occurs_at(buf, pos, encode_uint(v as nat, 8, pos, e)) ==> decode_u64(buf, pos, e)
                == Ok::<(u64, int), DecodeError>((v, pos + encode_uint(v as nat, 8, pos, e).len())),
        forall|v: i16| #[trigger]
            occurs_at(buf, pos, encode_int(v as int, 2, 0x1_0000, pos, e)) ==> decode_i16(
                buf,
                pos,
                e,
            ) == Ok::<(i16, int), DecodeError>(
                (v, pos + encode_int(v as int, 2, 0x1_0000, pos, e).len()),
            ),
        forall|v: i32| #[trigger]
            occurs_at(buf, pos, encode_int(v as int, 4, 0x1_0000_0000, pos, e)) ==> decode_i32(
                buf,
                pos,
                e,
            ) == Ok::<(i32, int), DecodeError>(
                (v, pos + encode_int(v as int, 4, 0x1_0000_0000, pos, e).len()),
            ),
        forall|v: i64| #[trigger]
            occurs_at(buf, pos, encode_int(v as int, 8, 0x1_0000_0000_0000_0000, pos, e))
                ==> decode_i64(buf, pos, e) == Ok::<(i64, int), DecodeError>(
                (v, pos + encode_int(v as int, 8, 0x1_0000_0000_0000_0000, pos, e).len()),
            ),
        decode_u16(buf, pos, e) matches Ok((v, p)) ==> encode_uint(v as nat, 2, pos, e)
            == buf.subrange(pos, p) && pos < p <= buf.len(),
        decode_u32(buf, pos, e) matches Ok((v, p)) ==> encode_uint(v as nat, 4, pos, e)
            == buf.subrange(pos, p) && pos < p <= buf.len(),
        decode_u64(buf, pos, e) matches Ok((v, p)) ==> encode_uint(v as nat, 8, pos, e)
            == buf.subrange(pos, p) && pos < p <= buf.len(),
        decode_i16(buf, pos, e) matches Ok((v, p)) ==> encode_int(v as int, 2, 0x1_0000, pos, e)
            == buf.subrange(pos, p) && pos < p <= buf.len(),
        decode_i32(buf, pos, e) matches Ok((v, p)) ==> encode_int(
            v as int,
            4,
            0x1_0000_0000,
            pos,
            e,
        ) == buf.subrange(pos, p) && pos < p <= buf.len(),
        decode_i64(buf, pos, e) matches Ok((v, p)) ==> encode_int(
            v as int,
            8,
            0x1_0000_0000_0000_0000,
            pos,
            e,
        ) == buf.subrange(pos, p) && pos < p <= buf.len(),
{
    lemma_pow256_values();
    assert forall|v: u16| #[trigger]
        occurs_at(buf, pos, encode_uint(v as nat, 2, pos, e)) implies decode_u16(buf, pos, e)
        == Ok::<(u16, int), DecodeError>((v, pos + encode_uint(v as nat, 2, pos, e).len())) by {
        lemma_decode_uint_of_encode(v as nat, 2, buf, pos, e);
    }
    assert forall|v: u32| #[trigger]
        occurs_at(buf, pos, encode_uint(v as nat, 4, pos, e)) implies decode_u32(buf, pos, e)
        == Ok::<(u32, int), DecodeError>((v, pos + encode_uint(v as nat, 4, pos, e).len())) by {
        lemma_decode_uint_of_encode(v as nat, 4, buf, pos, e);
    }
    assert forall|v: u64| #[trigger]
        occurs_at(buf, pos, encode_uint(v as nat, 8, pos, e)) implies decode_u64(buf, pos, e)
        == Ok::<(u64, int), DecodeError>((v, pos + encode_uint(v as nat, 8, pos, e).len())) by {
        lemma_decode_uint_of_encode(v as nat, 8, buf, pos, e);
    }
    assert forall|v: i16| #[trigger]
        occurs_at(buf, pos, encode_int(v as int, 2, 0x1_0000, pos, e)) implies decode_i16(
        buf,
        pos,
        e,
    ) == Ok::<(i16, int), DecodeError>(
        (v, pos + encode_int(v as int, 2, 0x1_0000, pos, e).len()),
    ) by {
        lemma_signed_round_trip(v as int, 0, 0x1_0000);
        lemma_decode_uint_of_encode(to_unsigned(v as int, 0x1_0000), 2, buf, pos, e);
    }
    assert forall|v: i32| #[trigger]
        occurs_at(buf, pos, encode_int(v as int, 4, 0x1_0000_0000, pos, e)) implies decode_i32(
        buf,
        pos,
        e,
    ) == Ok::<(i32, int), DecodeError>(
        (v, pos + encode_int(v as int, 4, 0x1_0000_0000, pos, e).len()),
    ) by {
        lemma_signed_round_trip(v as int, 0, 0x1_0000_0000);
        lemma_decode_uint_of_encode(to_unsigned(v as int, 0x1_0000_0000), 4, buf, pos, e);
    }
    assert forall|v: i64| #[trigger]
        occurs_at(
            buf,
            pos,
            encode_int(v as int, 8, 0x1_0000_0000_0000_0000, pos, e),
        ) implies decode_i64(buf, pos, e) == Ok::<(i64, int), DecodeError>(
        (v, pos + encode_int(v as int, 8, 0x1_0000_0000_0000_0000, pos, e).len()),
    ) by {
        lemma_signed_round_trip(v as int, 0, 0x1_0000_0000_0000_0000);
        lemma_decode_uint_of_encode(
            to_unsigned(v as int, 0x1_0000_0000_0000_0000),
            8,
            buf,
            pos,
            e,
        );
    }
    if decode_uint(buf, pos, 2, e) is Ok {
        lemma_encode_uint_of_decode(buf, pos, 2, e);
        lemma_signed_round_trip(0, decode_uint(buf, pos, 2, e)->Ok_0.val(), 0x1_0000);
    }
    if decode_uint(buf, pos, 4, e) is Ok {
        lemma_encode_uint_of_decode(buf, pos, 4, e);
        lemma_signed_round_trip(0, decode_uint(buf, pos, 4, e)->Ok_0.val(), 0x1_0000_0000);
    }
    if decode_uint(buf, pos, 8, e) is Ok {
        lemma_encode_uint_of_decode(buf, pos, 8, e);
        lemma_signed_round_trip(0, decode_uint(buf, pos, 8, e)->Ok_0.val(), 0x1_0000_0000_0000_0000);
    }
    lemma_padding_len(pos, 2);
    lemma_padding_len(pos, 4);
    lemma_padding_len(pos, 8);
}

/// A fixed-width scalar is written at a position that is a multiple of its
/// width, counted from the start of the message: behind zero bytes that
/// lead there.
pub proof fn lemma_scalar_is_written_aligned(v: nat, width: int, pos: int, e: Endianness)
    requires
        pos >= 0,
        is_alignment(width),
    ensures
        (pos + padding_len(pos, width)) % width == 0,
        encode_uint(v, width, pos, e).take(padding_len(pos, width)) == zeros(
            padding_len(pos, width),
        ),
        encode_uint(v, width, pos, e).skip(padding_len(pos, width)) == uint_bytes(
            v,
            width as nat,
            e,
        ),
{
    lemma_padding_len(pos, width);
    lemma_uint_bytes_len(v, width as nat, e);
    let pad = zeros(padding_len(pos, width));
    let digits = uint_bytes(v, width as nat, e);
    assert((pad + digits).take(padding_len(pos, width)) =~= pad);
    assert((pad + digits).skip(padding_len(pos, width)) =~= digits);
}

/// A fixed-width scalar is read at a position that is a multiple of its
/// width, counted from the start of the message.
pub proof fn lemma_scalar_is_read_aligned(buf: Seq<u8>, pos: int, width: int, e: Endianness)
    requires
        pos >= 0,
        is_alignment(width),
        decode_uint(buf, pos, width, e) is Ok,
    ensures
        (decode_uint(buf, pos, width, e)->Ok_0.end() - width) % width == 0,
        pos <= decode_uint(buf, pos, width, e)->Ok_0.end() - width < pos + width,
        decode_uint(buf, pos, width, e)->Ok_0.val() == uint_value(
            buf.subrange(
                decode_uint(buf, pos, width, e)->Ok_0.end() - width,
                decode_uint(buf, pos, width, e)->Ok_0.end(),
            ),
            e,
        ),
{
    lemma_padding_len(pos, width);
}

/// A read that meets a padding byte that is not zero ends in the error of
/// it, which names where the padding starts and ends.
pub proof fn lemma_nonzero_padding(buf: Seq<u8>, pos: int, alignment: int, e: Endianness, i: int)
    requires
        pos >= 0,
        is_alignment(alignment),
        aligned(pos, alignment) <= buf.len(),
        pos <= i < aligned(pos, alignment),
        buf[i] != 0,
    ensures
        decode_padding(buf, pos, alignment) == Err::<int, DecodeError>(
            DecodeError::NonZeroPadding { start: pos, end: aligned(pos, alignment) },
        ),
        decode_uint(buf, pos, alignment, e) == Err::<(nat, int), DecodeError>(
            DecodeError::NonZeroPadding { start: pos, end: aligned(pos, alignment) },
        ),
        alignment == 4 ==> decode_bool(buf, pos, e) is Err && decode_bool(buf, pos, e)->Err_0
            == (DecodeError::NonZeroPadding { start: pos, end: aligned(pos, alignment) })
            && decode_string(buf, pos, e) is Err && decode_string(buf, pos, e)->Err_0
            == (DecodeError::NonZeroPadding { start: pos, end: aligned(pos, alignment) }),
{
}

} // verus!
