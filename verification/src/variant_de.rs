//! Reading a value of a given signature.

use crate::de::{DeserializeError, Deserializer};
use crate::element::{deserialize_items, models, read_then};
use crate::signature::{signature_views, Signature, SpecSignature};
use crate::types::{ObjectPath, UnixFd};
use crate::variant::{string_views, variant_views, SpecVariant, Variant};
use crate::variant_wire::{
    decode, decode_basic, decode_elements, decode_fields, decode_specialized_array,
    is_specialized, remaining,
};
use crate::wire::{lemma_decode_uint_bounds, DecodeError};
use vstd::prelude::*;
use vstd::slice::slice_to_vec;

verus! {

/// The values read so far, followed by what is still to be read.
pub open spec fn fields_then(
    done: Seq<SpecVariant>,
    rest: Result<(Seq<SpecVariant>, int), DecodeError>,
) -> Result<(Seq<SpecVariant>, int), DecodeError> {
    match rest {
        Err(err) => Err(err),
        Ok((values, end)) => Ok((done + values, end)),
    }
}

/// Whether a read that took a deserializer from `before` to `after` and
/// returned `r` did what `expected` says: on success the value and the new
/// position, which is not before the old one, and on failure the error and
/// the position as it was.
pub open spec fn reads_variant(
    before: crate::de::DeserializerView,
    after: crate::de::DeserializerView,
    r: Result<Variant, DeserializeError>,
    expected: Result<(SpecVariant, int), DecodeError>,
) -> bool {
    &&& reads_variant_so_far(before, after, r, expected)
    &&& r is Err ==> after.pos == before.pos
}

/// Whether a read that took a deserializer from `before` to `after` and
/// returned `r` did what `expected` says, but for the position where it
/// failed.
pub open spec fn reads_variant_so_far(
    before: crate::de::DeserializerView,
    after: crate::de::DeserializerView,
    r: Result<Variant, DeserializeError>,
    expected: Result<(SpecVariant, int), DecodeError>,
) -> bool {
    &&& after.buf == before.buf
    &&& after.endianness == before.endianness
    &&& match expected {
        Ok((v, p)) => r matches Ok(x) && x@ == v && after.pos == p && before.pos <= p && (
        before.pos <= before.buf.len() ==> p <= before.buf.len()),
        Err(e) => r matches Err(err) && err@ == e,
    }
}

impl Variant {
    /// Reads a value of the signature `signature`.
    ///
    /// An array of a fixed-width type, of strings or of file descriptor
    /// indices is read as the specialized array of that type.
    pub fn deserialize(deserializer: &mut Deserializer<'_>, signature: &Signature) -> (r: Result<
        Variant,
        DeserializeError,
    >)
        ensures
            reads_variant(
                old(deserializer)@,
                final(deserializer)@,
                r,
                decode(
                    old(deserializer)@.buf,
                    old(deserializer)@.pos,
                    signature@,
                    old(deserializer)@.endianness,
                ),
            ),
            r matches Ok(x) ==> x@.inner_signature() == signature@,
        decreases remaining(old(deserializer)@.buf, old(deserializer)@.pos), signature@, 2nat,
    {
        let start = deserializer.pos();
        let r = Variant::read(deserializer, signature);
        if r.is_err() {
            deserializer.seek(start);
        }
        r
    }

    /// Reads a value of the signature `signature`. Where it fails, the
    /// position is where the read ended.
    fn read(deserializer: &mut Deserializer<'_>, signature: &Signature) -> (r: Result<
        Variant,
        DeserializeError,
    >)
        ensures
            reads_variant_so_far(
                old(deserializer)@,
                final(deserializer)@,
                r,
                decode(
                    old(deserializer)@.buf,
                    old(deserializer)@.pos,
                    signature@,
                    old(deserializer)@.endianness,
                ),
            ),
            r matches Ok(x) ==> x@.inner_signature() == signature@,
        decreases remaining(old(deserializer)@.buf, old(deserializer)@.pos), signature@, 1nat,
    {
        proof {
            if decode(deserializer@.buf, deserializer@.pos, signature@, deserializer@.endianness)
                is Ok {
                crate::variant_laws::lemma_decoded_signature(
                    deserializer@.buf,
                    deserializer@.pos,
                    signature@,
                    deserializer@.endianness,
                );
            }
        }
        match signature {
            Signature::Array { element } => {
                if Variant::specialized(element) {
                    Variant::deserialize_specialized_array(deserializer, element)
                } else {
                    Variant::deserialize_array(deserializer, signature)
                }
            },
            Signature::DictEntry { .. } => Variant::deserialize_dict_entry(deserializer, signature),
            Signature::Struct { .. } => Variant::deserialize_struct(deserializer, signature),
            Signature::Tuple { elements } => {
                match Variant::read_fields(deserializer, elements) {
                    Ok(values) => Ok(Variant::Tuple { elements: values }),
                    Err(err) => Err(err),
                }
            },
            Signature::Variant => Variant::deserialize_variant(deserializer),
            _ => Variant::deserialize_basic(deserializer, signature),
        }
    }

    /// Whether an array of elements of the signature `element` is held as
    /// one of the specialized arrays.
    fn specialized(element: &Signature) -> (r: bool)
        ensures
            r == is_specialized(element@),
    {
        match element {
            Signature::Bool
            | Signature::F64
            | Signature::I16
            | Signature::I32
            | Signature::I64
            | Signature::String
            | Signature::U8
            | Signature::U16
            | Signature::U32
            | Signature::U64
            | Signature::UnixFd => true,
            _ => false,
        }
    }

    /// Reads one of the specialized arrays.
    fn deserialize_specialized_array(
        deserializer: &mut Deserializer<'_>,
        element: &Signature,
    ) -> (r: Result<Variant, DeserializeError>)
        requires
            is_specialized(element@),
        ensures
            reads_variant_so_far(
                old(deserializer)@,
                final(deserializer)@,
                r,
                decode_specialized_array(
                    old(deserializer)@.buf,
                    old(deserializer)@.pos,
                    element@,
                    old(deserializer)@.endianness,
                ),
            ),
    {
        proof {
            reveal(decode_specialized_array);
            deserializer.lemma_view();
            lemma_decode_uint_bounds(deserializer@.buf, deserializer@.pos, 4, deserializer@.endianness);
        }
        match element {
            Signature::Bool => match deserialize_items::<bool>(deserializer) {
                Ok(v) => {
                    assert(models::<bool>(v@) =~= v@);
                    Ok(Variant::ArrayBool(v))
                },
                Err(err) => Err(err),
            },
            Signature::F64 => match deserialize_items::<u64>(deserializer) {
                Ok(v) => {
                    assert(models::<u64>(v@) =~= v@);
                    Ok(Variant::ArrayF64(v))
                },
                Err(err) => Err(err),
            },
            Signature::I16 => match deserialize_items::<i16>(deserializer) {
                Ok(v) => {
                    assert(models::<i16>(v@) =~= v@);
                    Ok(Variant::ArrayI16(v))
                },
                Err(err) => Err(err),
            },
            Signature::I32 => match deserialize_items::<i32>(deserializer) {
                Ok(v) => {
                    assert(models::<i32>(v@) =~= v@);
                    Ok(Variant::ArrayI32(v))
                },
                Err(err) => Err(err),
            },
            Signature::I64 => match deserialize_items::<i64>(deserializer) {
                Ok(v) => {
                    assert(models::<i64>(v@) =~= v@);
                    Ok(Variant::ArrayI64(v))
                },
                Err(err) => Err(err),
            },
            Signature::String => match deserialize_items::<String>(deserializer) {
                Ok(v) => {
                    assert(models::<String>(v@) =~= string_views(v@));
                    Ok(Variant::ArrayString(v))
                },
                Err(err) => Err(err),
            },
            Signature::U8 => match deserializer.deserialize_array_u8() {
                Ok(bytes) => Ok(Variant::ArrayU8(slice_to_vec(bytes))),
                Err(err) => Err(err),
            },
            Signature::U16 => match deserialize_items::<u16>(deserializer) {
                Ok(v) => {
                    assert(models::<u16>(v@) =~= v@);
                    Ok(Variant::ArrayU16(v))
                },
                Err(err) => Err(err),
            },
            Signature::U32 => match deserialize_items::<u32>(deserializer) {
                Ok(v) => {
                    assert(models::<u32>(v@) =~= v@);
                    Ok(Variant::ArrayU32(v))
                },
                Err(err) => Err(err),
            },
            Signature::U64 => match deserialize_items::<u64>(deserializer) {
                Ok(v) => {
                    assert(models::<u64>(v@) =~= v@);
                    Ok(Variant::ArrayU64(v))
                },
                Err(err) => Err(err),
            },
            _ => match deserialize_items::<UnixFd>(deserializer) {
                Ok(v) => {
                    assert(models::<UnixFd>(v@) =~= v@);
                    Ok(Variant::ArrayUnixFd(v))
                },
                Err(err) => Err(err),
            },
        }
    }

    /// Reads an array of variants: the count of the bytes of its elements,
    /// the padding before the first one, and the elements up to the end that
    /// the count gives. An element that takes no byte is an error.
    fn deserialize_array(deserializer: &mut Deserializer<'_>, signature: &Signature) -> (r: Result<
        Variant,
        DeserializeError,
    >)
        requires
            signature@ matches SpecSignature::Array { element } && !is_specialized(*element),
        ensures
            reads_variant_so_far(
                old(deserializer)@,
                final(deserializer)@,
                r,
                decode(
                    old(deserializer)@.buf,
                    old(deserializer)@.pos,
                    signature@,
                    old(deserializer)@.endianness,
                ),
            ),
        decreases remaining(old(deserializer)@.buf, old(deserializer)@.pos), signature@, 0nat,
    {
        proof {
            deserializer.lemma_view();
        }
        let element = match signature {
            Signature::Array { element } => element,
            _ => {
                return Err(DeserializeError::EndOfInput);
            },
        };
        let mut inner = match deserializer.deserialize_array(element.alignment()) {
            Ok(inner) => inner,
            Err(err) => {
                return Err(err);
            },
        };
        match Variant::deserialize_elements(&mut inner, element) {
            Ok(elements) => Ok(
                Variant::Array { element_signature: (&**element).clone(), elements },
            ),
            Err(err) => Err(err),
        }
    }

    /// Reads values of the signature `element` up to the end of the buffer.
    /// An element that takes no byte is an error.
    fn deserialize_elements(deserializer: &mut Deserializer<'_>, element: &Signature) -> (r: Result<
        Vec<Variant>,
        DeserializeError,
    >)
        requires
            old(deserializer)@.pos <= old(deserializer)@.buf.len(),
        ensures
            final(deserializer)@.buf == old(deserializer)@.buf,
            final(deserializer)@.endianness == old(deserializer)@.endianness,
            match decode_elements(
                old(deserializer)@.buf,
                old(deserializer)@.pos,
                element@,
                old(deserializer)@.endianness,
            ) {
                Ok(values) => r matches Ok(v) && variant_views(v@) == values,
                Err(e) => r matches Err(err) && err@ == e,
            },
        decreases
                remaining(old(deserializer)@.buf, old(deserializer)@.pos),
                element@,
                3nat,
    {
        let ghost buf = deserializer@.buf;
        let ghost first = deserializer@.pos;
        let ghost e = deserializer@.endianness;
        let mut elements: Vec<Variant> = Vec::new();
        proof {
            match decode_elements(buf, first, element@, e) {
                Ok(rest) => {
                    assert(variant_views(elements@) + rest =~= rest);
                },
                Err(_) => {},
            }
        }
        while !deserializer.at_end()
            invariant
                buf == old(deserializer)@.buf,
                first == old(deserializer)@.pos,
                e == old(deserializer)@.endianness,
                deserializer@.buf == buf,
                deserializer@.endianness == e,
                first <= deserializer@.pos <= buf.len(),
                decode_elements(buf, first, element@, e) == read_then(
                    variant_views(elements@),
                    decode_elements(buf, deserializer@.pos, element@, e),
                ),
            decreases buf.len() - deserializer@.pos,
        {
            let ghost done = variant_views(elements@);
            let here = deserializer.pos();
            let item = match Variant::deserialize(deserializer, element) {
                Ok(item) => item,
                Err(err) => {
                    return Err(err);
                },
            };
            if deserializer.pos() <= here {
                return Err(
                    DeserializeError::InvalidValue {
                        expected: "an array element of at least one byte",
                        actual: "one of no bytes".to_owned(),
                    },
                );
            }
            elements.push(item);
            proof {
                assert(variant_views(elements@) =~= done.push(item@));
                match decode_elements(buf, deserializer@.pos, element@, e) {
                    Ok(rest) => {
                        assert(done + (seq![item@] + rest) =~= done.push(item@) + rest);
                    },
                    Err(_) => {},
                }
            }
        }
        assert(variant_views(elements@) + Seq::<SpecVariant>::empty() =~= variant_views(elements@));
        Ok(elements)
    }

    /// Reads a dict entry: padding to a multiple of 8, the key and the
    /// value.
    fn deserialize_dict_entry(
        deserializer: &mut Deserializer<'_>,
        signature: &Signature,
    ) -> (r: Result<Variant, DeserializeError>)
        requires
            signature@ is DictEntry,
        ensures
            reads_variant_so_far(
                old(deserializer)@,
                final(deserializer)@,
                r,
                decode(
                    old(deserializer)@.buf,
                    old(deserializer)@.pos,
                    signature@,
                    old(deserializer)@.endianness,
                ),
            ),
        decreases remaining(old(deserializer)@.buf, old(deserializer)@.pos), signature@, 0nat,
    {
        let (key_signature, value_signature) = match signature {
            Signature::DictEntry { key, value } => (key, value),
            _ => {
                return Err(DeserializeError::EndOfInput);
            },
        };
        match deserializer.deserialize_struct() {
            Ok(()) => {},
            Err(err) => {
                return Err(err);
            },
        }
        let key = match Variant::deserialize(deserializer, key_signature) {
            Ok(key) => key,
            Err(err) => {
                return Err(err);
            },
        };
        let value = match Variant::deserialize(deserializer, value_signature) {
            Ok(value) => value,
            Err(err) => {
                return Err(err);
            },
        };
        Ok(Variant::DictEntry { key: Box::new(key), value: Box::new(value) })
    }

    /// Reads a struct: padding to a multiple of 8 and the fields.
    fn deserialize_struct(deserializer: &mut Deserializer<'_>, signature: &Signature) -> (r: Result<
        Variant,
        DeserializeError,
    >)
        requires
            signature@ is Struct,
        ensures
            reads_variant_so_far(
                old(deserializer)@,
                final(deserializer)@,
                r,
                decode(
                    old(deserializer)@.buf,
                    old(deserializer)@.pos,
                    signature@,
                    old(deserializer)@.endianness,
                ),
            ),
        decreases remaining(old(deserializer)@.buf, old(deserializer)@.pos), signature@, 0nat,
    {
        let field_signatures = match signature {
            Signature::Struct { fields } => fields,
            _ => {
                return Err(DeserializeError::EndOfInput);
            },
        };
        match deserializer.deserialize_struct() {
            Ok(()) => {},
            Err(err) => {
                return Err(err);
            },
        }
        match Variant::read_fields(deserializer, field_signatures) {
            Ok(fields) => Ok(Variant::Struct { fields }),
            Err(err) => Err(err),
        }
    }

    /// Reads a variant in a variant: a signature, and a value of it.
    fn deserialize_variant(deserializer: &mut Deserializer<'_>) -> (r: Result<
        Variant,
        DeserializeError,
    >)
        ensures
            reads_variant_so_far(
                old(deserializer)@,
                final(deserializer)@,
                r,
                decode(
                    old(deserializer)@.buf,
                    old(deserializer)@.pos,
                    SpecSignature::Variant,
                    old(deserializer)@.endianness,
                ),
            ),
        decreases
                remaining(old(deserializer)@.buf, old(deserializer)@.pos),
                SpecSignature::Variant,
                0nat,
    {
        proof {
            deserializer.lemma_view();
        }
        let signature = match Signature::deserialize(deserializer) {
            Ok(signature) => signature,
            Err(err) => {
                return Err(err);
            },
        };
        match Variant::deserialize(deserializer, &signature) {
            Ok(value) => Ok(Variant::Variant(Box::new(value))),
            Err(err) => Err(err),
        }
    }

    /// Reads a value without parts.
    fn deserialize_basic(deserializer: &mut Deserializer<'_>, signature: &Signature) -> (r: Result<
        Variant,
        DeserializeError,
    >)
        requires
            !(signature@ is Array),
            !(signature@ is DictEntry),
            !(signature@ is Struct),
            !(signature@ is Tuple),
            !(signature@ is Variant),
        ensures
            reads_variant_so_far(
                old(deserializer)@,
                final(deserializer)@,
                r,
                decode_basic(
                    old(deserializer)@.buf,
                    old(deserializer)@.pos,
                    signature@,
                    old(deserializer)@.endianness,
                ),
            ),
    {
        proof {
            reveal(decode_basic);
            deserializer.lemma_view();
            lemma_decode_uint_bounds(deserializer@.buf, deserializer@.pos, 2, deserializer@.endianness);
            lemma_decode_uint_bounds(deserializer@.buf, deserializer@.pos, 4, deserializer@.endianness);
            lemma_decode_uint_bounds(deserializer@.buf, deserializer@.pos, 8, deserializer@.endianness);
        }
        match signature {
            Signature::Bool => match deserializer.deserialize_bool() {
                Ok(v) => Ok(Variant::Bool(v)),
                Err(err) => Err(err),
            },
            Signature::F64 => match deserializer.deserialize_f64() {
                Ok(v) => Ok(Variant::F64(v)),
                Err(err) => Err(err),
            },
            Signature::I16 => match deserializer.deserialize_i16() {
                Ok(v) => Ok(Variant::I16(v)),
                Err(err) => Err(err),
            },
            Signature::I32 => match deserializer.deserialize_i32() {
                Ok(v) => Ok(Variant::I32(v)),
                Err(err) => Err(err),
            },
            Signature::I64 => match deserializer.deserialize_i64() {
                Ok(v) => Ok(Variant::I64(v)),
                Err(err) => Err(err),
            },
            Signature::ObjectPath => match ObjectPath::deserialize(deserializer) {
                Ok(v) => Ok(Variant::ObjectPath(v)),
                Err(err) => Err(err),
            },
            Signature::Signature => match Signature::deserialize(deserializer) {
                Ok(v) => Ok(Variant::Signature(v)),
                Err(err) => Err(err),
            },
            Signature::String => match deserializer.deserialize_string() {
                Ok(v) => Ok(Variant::String(v)),
                Err(err) => Err(err),
            },
            Signature::U8 => match deserializer.deserialize_u8() {
                Ok(v) => Ok(Variant::U8(v)),
                Err(err) => Err(err),
            },
            Signature::U16 => match deserializer.deserialize_u16() {
                Ok(v) => Ok(Variant::U16(v)),
                Err(err) => Err(err),
            },
            Signature::U32 => match deserializer.deserialize_u32() {
                Ok(v) => Ok(Variant::U32(v)),
                Err(err) => Err(err),
            },
            Signature::U64 => match deserializer.deserialize_u64() {
                Ok(v) => Ok(Variant::U64(v)),
                Err(err) => Err(err),
            },
            _ => match UnixFd::deserialize(deserializer) {
                Ok(v) => Ok(Variant::UnixFd(v)),
                Err(err) => Err(err),
            },
        }
    }

    /// Reads values of the signatures `signatures`, one after the other.
    pub fn deserialize_fields(
        deserializer: &mut Deserializer<'_>,
        signatures: &Vec<Signature>,
    ) -> (r: Result<Vec<Variant>, DeserializeError>)
        ensures
            final(deserializer)@.buf == old(deserializer)@.buf,
            final(deserializer)@.endianness == old(deserializer)@.endianness,
            match decode_fields(
                old(deserializer)@.buf,
                old(deserializer)@.pos,
                signature_views(signatures@),
                old(deserializer)@.endianness,
            ) {
                Ok((values, p)) => r matches Ok(v) && variant_views(v@) == values
                    && final(deserializer)@.pos == p,
                Err(e) => r matches Err(err) && err@ == e && final(deserializer)@.pos == old(deserializer)@.pos,
            },
    {
        let start = deserializer.pos();
        let r = Variant::read_fields(deserializer, signatures);
        if r.is_err() {
            deserializer.seek(start);
        }
        r
    }

    /// Reads values of the signatures `signatures`, one after the other.
    /// Where it fails, the position is where the read ended.
    fn read_fields(
        deserializer: &mut Deserializer<'_>,
        signatures: &Vec<Signature>,
    ) -> (r: Result<Vec<Variant>, DeserializeError>)
        ensures
            final(deserializer)@.buf == old(deserializer)@.buf,
            final(deserializer)@.endianness == old(deserializer)@.endianness,
            match decode_fields(
                old(deserializer)@.buf,
                old(deserializer)@.pos,
                signature_views(signatures@),
                old(deserializer)@.endianness,
            ) {
                Ok((values, p)) => r matches Ok(v) && variant_views(v@) == values
                    && final(deserializer)@.pos == p && old(deserializer)@.pos <= p && (old(
                    deserializer,
                )@.pos <= old(deserializer)@.buf.len() ==> p <= old(deserializer)@.buf.len()),
                Err(e) => r matches Err(err) && err@ == e,
            },
        decreases
                remaining(old(deserializer)@.buf, old(deserializer)@.pos),
                signature_views(signatures@),
                3nat,
    {
        let ghost buf = deserializer@.buf;
        let ghost start = deserializer@.pos;
        let ghost e = deserializer@.endianness;
        let ghost sigs = signature_views(signatures@);
        let mut values: Vec<Variant> = Vec::new();
        let mut i: usize = 0;
        proof {
            assert(sigs.skip(0) =~= sigs);
            match decode_fields(buf, start, sigs, e) {
                Ok((rest, end)) => {
                    assert(variant_views(values@) + rest =~= rest);
                },
                Err(_) => {},
            }
        }
        while i < signatures.len()
            invariant
                i <= signatures@.len(),
                sigs == signature_views(signatures@),
                buf == old(deserializer)@.buf,
                start == old(deserializer)@.pos,
                e == old(deserializer)@.endianness,
                deserializer@.buf == buf,
                deserializer@.endianness == e,
                start <= deserializer@.pos,
                start <= buf.len() ==> deserializer@.pos <= buf.len(),
                decode_fields(buf, start, sigs, e) == fields_then(
                    variant_views(values@),
                    decode_fields(buf, deserializer@.pos, sigs.skip(i as int), e),
                ),
            decreases signatures.len() - i,
        {
            let ghost done = variant_views(values@);
            let ghost here = deserializer@.pos;
            proof {
                assert(sigs.skip(i as int)[0] == signatures@[i as int]@);
                assert(sigs.skip(i as int).drop_first() =~= sigs.skip(i + 1));
                assert(sigs[i as int] == signatures@[i as int]@);
            }
            let value = match Variant::deserialize(deserializer, &signatures[i]) {
                Ok(value) => value,
                Err(err) => {
                    return Err(err);
                },
            };
            values.push(value);
            proof {
                assert(variant_views(values@) =~= done.push(value@));
                match decode_fields(buf, deserializer@.pos, sigs.skip(i + 1), e) {
                    Ok((rest, end)) => {
                        assert(done + (seq![value@] + rest) =~= done.push(value@) + rest);
                    },
                    Err(_) => {},
                }
            }
            i += 1;
        }
        proof {
            assert(sigs.skip(signatures@.len() as int) =~= Seq::<SpecSignature>::empty());
            assert(variant_views(values@) + Seq::<SpecVariant>::empty() =~= variant_views(values@));
        }
        Ok(values)
    }
}

} // verus!
