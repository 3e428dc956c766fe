//! Writing a value of any signature.

use crate::element::{array_first, models, serialize_items, written_then};
use crate::endian::lemma_uint_bytes_len;
use crate::ser::{SerializeError, Serializer, SerializerView};
use crate::types::UnixFd;
use crate::variant::{string_views, variant_views, SpecVariant, Variant};
use crate::variant_wire::{encode, encode_all, encode_basic, encode_specialized_array};
use crate::wire::{aligned, encode_signature, encode_uint, padding_len, zeros};
use vstd::prelude::*;

verus! {

/// Writing in two steps is writing both parts at once, and what is written
/// stands behind what was there.
pub proof fn lemma_with(s: SerializerView, a: Seq<u8>, b: Seq<u8>)
    ensures
        s.with(a).with(b) == s.with(a + b),
        s.with(a).extends(s),
        s.with(a).pos() == s.pos() + a.len(),
        s.wf() ==> s.with(a).wf(),
        s.with(Seq::empty()) == s,
{
    assert((s.buf + a) + b =~= s.buf + (a + b));
    assert((s.buf + a).take(s.buf.len() as int) =~= s.buf);
    assert(s.buf + Seq::<u8>::empty() =~= s.buf);
}

/// What stands behind something that stands behind a third stands behind the
/// third.
pub proof fn lemma_extends(a: SerializerView, b: SerializerView, c: SerializerView)
    requires
        b.extends(a),
        c.extends(b),
    ensures
        c.extends(a),
        a.wf() ==> c.wf(),
{
    assert(c.buf.take(a.buf.len() as int) =~= b.buf.take(a.buf.len() as int));
}

/// Everything stands behind itself with nothing written.
pub proof fn lemma_extends_self(a: SerializerView)
    ensures
        a.extends(a),
{
    assert(a.buf.take(a.buf.len() as int) =~= a.buf);
}

impl Variant {
    /// Writes this value, laid out as its own signature says.
    ///
    /// It fails where a count does not fit: a string or an array of more
    /// than `u32::MAX` bytes, or a signature whose text has more than 255.
    /// The serializer is then as it was.
    pub fn serialize(&self, serializer: &mut Serializer) -> (r: Result<(), SerializeError>)
        requires
            old(serializer)@.wf(),
        ensures
            final(serializer)@.extends(old(serializer)@),
            match encode(self@, old(serializer)@.pos(), old(serializer)@.endianness) {
                Some(bytes) => r is Ok && final(serializer)@ == old(serializer)@.with(bytes),
                None => r is Err && final(serializer)@ == old(serializer)@,
            },
        decreases self, 2nat,
    {
        let len = serializer.len();
        let r = self.write(serializer);
        if r.is_err() {
            serializer.truncate(len);
            assert(serializer@.buf =~= old(serializer)@.buf);
        }
        proof {
            lemma_extends_self(old(serializer)@);
        }
        r
    }

    /// Writes this value. Where it fails, the serializer holds what was
    /// written until then.
    fn write(&self, serializer: &mut Serializer) -> (r: Result<(), SerializeError>)
        requires
            old(serializer)@.wf(),
        ensures
            final(serializer)@.extends(old(serializer)@),
            match encode(self@, old(serializer)@.pos(), old(serializer)@.endianness) {
                Some(bytes) => r is Ok && final(serializer)@ == old(serializer)@.with(bytes),
                None => r is Err,
            },
        decreases self, 1nat,
    {
        match self {
            Variant::Array { .. } => self.serialize_array(serializer),
            Variant::ArrayBool(_) | Variant::ArrayF64(_) | Variant::ArrayI16(_)
            | Variant::ArrayI32(_) | Variant::ArrayI64(_) | Variant::ArrayString(_)
            | Variant::ArrayU8(_) | Variant::ArrayU16(_) | Variant::ArrayU32(_)
            | Variant::ArrayU64(_) | Variant::ArrayUnixFd(_) => self.serialize_specialized_array(
                serializer,
            ),
            Variant::DictEntry { .. } => self.serialize_dict_entry(serializer),
            Variant::Struct { .. } => self.serialize_struct(serializer),
            Variant::Tuple { elements } => Variant::write_all(elements, serializer),
            Variant::Variant(_) => self.serialize_variant(serializer),
            _ => self.serialize_basic(serializer),
        }
    }

    /// Writes an array of variants.
    fn serialize_array(&self, serializer: &mut Serializer) -> (r: Result<(), SerializeError>)
        requires
            old(serializer)@.wf(),
            self is Array,
        ensures
            final(serializer)@.extends(old(serializer)@),
            match encode(self@, old(serializer)@.pos(), old(serializer)@.endianness) {
                Some(bytes) => r is Ok && final(serializer)@ == old(serializer)@.with(bytes),
                None => r is Err,
            },
        decreases self, 0nat,
    {
        let ghost before = serializer@;
        let ghost e = before.endianness;
        proof {
            lemma_with(before, Seq::empty(), Seq::empty());
            lemma_extends_self(before);
        }
        match self {
            Variant::Array { element_signature, elements } => {
                let mark = serializer.serialize_array(element_signature.alignment());
                let ghost header = serializer@;
                let ghost first = array_first(before.pos(), element_signature@.alignment());
                proof {
                    lemma_uint_bytes_len(0, 4, e);
                    lemma_with(
                        before,
                        encode_uint(0, 4, before.pos(), e) + zeros(
                            padding_len(
                                before.pos() + padding_len(before.pos(), 4) + 4,
                                element_signature@.alignment(),
                            ),
                        ),
                        Seq::empty(),
                    );
                    assert(header.pos() == first);
                }
                match Variant::write_all(elements, serializer) {
                    Ok(()) => {},
                    Err(err) => {
                        proof {
                            lemma_extends(before, header, serializer@);
                        }
                        return Err(err);
                    },
                }
                let ghost body = encode_all(variant_views(elements@), first, e)->0;
                let ghost full = serializer@;
                proof {
                    lemma_with(header, body, Seq::empty());
                    lemma_extends(before, header, full);
                }
                match serializer.finish_array(mark) {
                    Ok(()) => {},
                    Err(err) => {
                        return Err(err);
                    },
                }
                proof {
                    lemma_uint_bytes_len(body.len(), 4, e);
                    assert(serializer@.buf =~= before.buf + (encode_uint(
                        body.len(),
                        4,
                        before.pos(),
                        e,
                    ) + zeros(
                        padding_len(aligned(before.pos(), 4) + 4, element_signature@.alignment()),
                    ) + body));
                    assert(serializer@.buf.take(before.buf.len() as int) =~= before.buf);
                }
                Ok(())
            },
            _ => Ok(()),
        }
    }

    /// Writes one of the specialized arrays.
    fn serialize_specialized_array(&self, serializer: &mut Serializer) -> (r: Result<(), SerializeError>)
        requires
            old(serializer)@.wf(),
            self is ArrayBool || self is ArrayF64 || self is ArrayI16 || self is ArrayI32
                || self is ArrayI64 || self is ArrayString || self is ArrayU8 || self is ArrayU16
                || self is ArrayU32 || self is ArrayU64 || self is ArrayUnixFd,
        ensures
            final(serializer)@.extends(old(serializer)@),
            match encode(self@, old(serializer)@.pos(), old(serializer)@.endianness) {
                Some(bytes) => r is Ok && final(serializer)@ == old(serializer)@.with(bytes),
                None => r is Err,
            },
        decreases self, 0nat,
    {
        let ghost before = serializer@;
        let ghost e = before.endianness;
        proof {
            reveal(encode_specialized_array);
            lemma_with(before, Seq::empty(), Seq::empty());
            lemma_extends_self(before);
        }
        match self {
            Variant::ArrayBool(v) => {
                assert(models::<bool>(v@) =~= v@);
                serialize_items::<bool>(v.as_slice(), serializer)
            },
            Variant::ArrayF64(v) => {
                assert(models::<u64>(v@) =~= v@);
                serialize_items::<u64>(v.as_slice(), serializer)
            },
            Variant::ArrayI16(v) => {
                assert(models::<i16>(v@) =~= v@);
                serialize_items::<i16>(v.as_slice(), serializer)
            },
            Variant::ArrayI32(v) => {
                assert(models::<i32>(v@) =~= v@);
                serialize_items::<i32>(v.as_slice(), serializer)
            },
            Variant::ArrayI64(v) => {
                assert(models::<i64>(v@) =~= v@);
                serialize_items::<i64>(v.as_slice(), serializer)
            },
            Variant::ArrayString(v) => {
                assert(models::<String>(v@) =~= string_views(v@));
                serialize_items::<String>(v.as_slice(), serializer)
            },
            Variant::ArrayU8(v) => {
                let r = serializer.serialize_array_u8(v.as_slice());
                proof {
                    if r is Ok {
                        lemma_with(
                            before,
                            crate::wire::encode_byte_array(v@, before.pos(), e)->0,
                            Seq::empty(),
                        );
                    }
                }
                r
            },
            Variant::ArrayU16(v) => {
                assert(models::<u16>(v@) =~= v@);
                serialize_items::<u16>(v.as_slice(), serializer)
            },
            Variant::ArrayU32(v) => {
                assert(models::<u32>(v@) =~= v@);
                serialize_items::<u32>(v.as_slice(), serializer)
            },
            Variant::ArrayU64(v) => {
                assert(models::<u64>(v@) =~= v@);
                serialize_items::<u64>(v.as_slice(), serializer)
            },
            Variant::ArrayUnixFd(v) => {
                assert(models::<UnixFd>(v@) =~= v@);
                serialize_items::<UnixFd>(v.as_slice(), serializer)
            },
            _ => Ok(()),
        }
    }

    /// Writes a dict entry: padding to a multiple of 8, the key and the value.
    fn serialize_dict_entry(&self, serializer: &mut Serializer) -> (r: Result<(), SerializeError>)
        requires
            old(serializer)@.wf(),
            self is DictEntry,
        ensures
            final(serializer)@.extends(old(serializer)@),
            match encode(self@, old(serializer)@.pos(), old(serializer)@.endianness) {
                Some(bytes) => r is Ok && final(serializer)@ == old(serializer)@.with(bytes),
                None => r is Err,
            },
        decreases self, 0nat,
    {
        let ghost before = serializer@;
        let ghost e = before.endianness;
        proof {
            lemma_with(before, Seq::empty(), Seq::empty());
            lemma_extends_self(before);
        }
        match self {
            Variant::DictEntry { key, value } => {
                serializer.serialize_struct();
                let ghost padded = serializer@;
                proof {
                    lemma_with(before, zeros(padding_len(before.pos(), 8)), Seq::empty());
                }
                match key.serialize(serializer) {
                    Ok(()) => {},
                    Err(err) => {
                        proof {
                            lemma_extends(before, padded, serializer@);
                        }
                        return Err(err);
                    },
                }
                let ghost k = encode(key@, padded.pos(), e)->0;
                let ghost middle = serializer@;
                proof {
                    lemma_with(before, zeros(padding_len(before.pos(), 8)), k);
                    lemma_with(padded, k, Seq::empty());
                    lemma_extends(before, padded, middle);
                }
                match value.serialize(serializer) {
                    Ok(()) => {},
                    Err(err) => {
                        proof {
                            lemma_extends(before, middle, serializer@);
                        }
                        return Err(err);
                    },
                }
                proof {
                    let v = encode(value@, middle.pos(), e)->0;
                    lemma_with(before, zeros(padding_len(before.pos(), 8)) + k, v);
                    lemma_with(before, zeros(padding_len(before.pos(), 8)) + k + v, Seq::empty());
                }
                Ok(())
            },
            _ => Ok(()),
        }
    }

    /// Writes a struct: padding to a multiple of 8 and the fields.
    fn serialize_struct(&self, serializer: &mut Serializer) -> (r: Result<(), SerializeError>)
        requires
            old(serializer)@.wf(),
            self is Struct,
        ensures
            final(serializer)@.extends(old(serializer)@),
            match encode(self@, old(serializer)@.pos(), old(serializer)@.endianness) {
                Some(bytes) => r is Ok && final(serializer)@ == old(serializer)@.with(bytes),
                None => r is Err,
            },
        decreases self, 0nat,
    {
        let ghost before = serializer@;
        let ghost e = before.endianness;
        proof {
            lemma_with(before, Seq::empty(), Seq::empty());
            lemma_extends_self(before);
        }
        match self {
            Variant::Struct { fields } => {
                serializer.serialize_struct();
                let ghost padded = serializer@;
                proof {
                    lemma_with(before, zeros(padding_len(before.pos(), 8)), Seq::empty());
                }
                match Variant::write_all(fields, serializer) {
                    Ok(()) => {},
                    Err(err) => {
                        proof {
                            lemma_extends(before, padded, serializer@);
                        }
                        return Err(err);
                    },
                }
                proof {
                    let body = encode_all(variant_views(fields@), padded.pos(), e)->0;
                    lemma_with(before, zeros(padding_len(before.pos(), 8)), body);
                    lemma_with(before, zeros(padding_len(before.pos(), 8)) + body, Seq::empty());
                }
                Ok(())
            },
            _ => Ok(()),
        }
    }

    /// Writes a variant in a variant: the signature of the inner value and the value.
    fn serialize_variant(&self, serializer: &mut Serializer) -> (r: Result<(), SerializeError>)
        requires
            old(serializer)@.wf(),
            self is Variant,
        ensures
            final(serializer)@.extends(old(serializer)@),
            match encode(self@, old(serializer)@.pos(), old(serializer)@.endianness) {
                Some(bytes) => r is Ok && final(serializer)@ == old(serializer)@.with(bytes),
                None => r is Err,
            },
        decreases self, 0nat,
    {
        let ghost before = serializer@;
        let ghost e = before.endianness;
        proof {
            lemma_with(before, Seq::empty(), Seq::empty());
            lemma_extends_self(before);
        }
        match self {
            Variant::Variant(value) => {
                let signature = value.inner_signature();
                match signature.serialize(serializer) {
                    Ok(()) => {},
                    Err(err) => {
                        return Err(err);
                    },
                }
                let ghost s = encode_signature(value@.inner_signature())->0;
                let ghost middle = serializer@;
                proof {
                    lemma_with(before, s, Seq::empty());
                }
                match value.serialize(serializer) {
                    Ok(()) => {},
                    Err(err) => {
                        proof {
                            lemma_extends(before, middle, serializer@);
                        }
                        return Err(err);
                    },
                }
                proof {
                    let bytes = encode(value@, middle.pos(), e)->0;
                    lemma_with(before, s, bytes);
                    lemma_with(before, s + bytes, Seq::empty());
                }
                Ok(())
            },
            _ => Ok(()),
        }
    }

    /// Writes a value without parts.
    fn serialize_basic(&self, serializer: &mut Serializer) -> (r: Result<(), SerializeError>)
        requires
            old(serializer)@.wf(),
            self is Bool || self is F64 || self is I16 || self is I32 || self is I64
                || self is ObjectPath || self is Signature || self is String || self is U8
                || self is U16 || self is U32 || self is U64 || self is UnixFd,
        ensures
            final(serializer)@.extends(old(serializer)@),
            match encode(self@, old(serializer)@.pos(), old(serializer)@.endianness) {
                Some(bytes) => r is Ok && final(serializer)@ == old(serializer)@.with(bytes),
                None => r is Err,
            },
        decreases self, 0nat,
    {
        let ghost before = serializer@;
        let ghost e = before.endianness;
        proof {
            reveal(encode_basic);
            lemma_with(before, Seq::empty(), Seq::empty());
            lemma_extends_self(before);
        }
        match self {
            Variant::Bool(value) => {
                serializer.serialize_bool(*value);
                proof {
                    lemma_with(before, encode(self@, before.pos(), e)->0, Seq::empty());
                }
                Ok(())
            },
            Variant::F64(value) => {
                serializer.serialize_f64(*value);
                proof {
                    lemma_with(before, encode(self@, before.pos(), e)->0, Seq::empty());
                }
                Ok(())
            },
            Variant::I16(value) => {
                serializer.serialize_i16(*value);
                proof {
                    lemma_with(before, encode(self@, before.pos(), e)->0, Seq::empty());
                }
                Ok(())
            },
            Variant::I32(value) => {
                serializer.serialize_i32(*value);
                proof {
                    lemma_with(before, encode(self@, before.pos(), e)->0, Seq::empty());
                }
                Ok(())
            },
            Variant::I64(value) => {
                serializer.serialize_i64(*value);
                proof {
                    lemma_with(before, encode(self@, before.pos(), e)->0, Seq::empty());
                }
                Ok(())
            },
            Variant::ObjectPath(value) => {
                let r = value.serialize(serializer);
                proof {
                    if r is Ok {
                        lemma_with(before, encode(self@, before.pos(), e)->0, Seq::empty());
                    }
                }
                r
            },
            Variant::Signature(value) => {
                let r = value.serialize(serializer);
                proof {
                    if r is Ok {
                        lemma_with(before, encode(self@, before.pos(), e)->0, Seq::empty());
                    }
                }
                r
            },
            Variant::String(value) => {
                let r = serializer.serialize_string(value.as_str());
                proof {
                    if r is Ok {
                        lemma_with(before, encode(self@, before.pos(), e)->0, Seq::empty());
                    }
                }
                r
            },
            Variant::U8(value) => {
                serializer.serialize_u8(*value);
                proof {
                    lemma_with(before, encode(self@, before.pos(), e)->0, Seq::empty());
                }
                Ok(())
            },
            Variant::U16(value) => {
                serializer.serialize_u16(*value);
                proof {
                    lemma_with(before, encode(self@, before.pos(), e)->0, Seq::empty());
                }
                Ok(())
            },
            Variant::U32(value) => {
                serializer.serialize_u32(*value);
                proof {
                    lemma_with(before, encode(self@, before.pos(), e)->0, Seq::empty());
                }
                Ok(())
            },
            Variant::U64(value) => {
                serializer.serialize_u64(*value);
                proof {
                    lemma_with(before, encode(self@, before.pos(), e)->0, Seq::empty());
                }
                Ok(())
            },
            Variant::UnixFd(value) => {
                value.serialize(serializer);
                proof {
                    lemma_with(before, encode(self@, before.pos(), e)->0, Seq::empty());
                }
                Ok(())
            },
            _ => Ok(()),
        }
    }

    /// Writes the values `items` one after the other.
    ///
    /// Where it fails, the serializer is as it was.
    pub fn serialize_all(items: &Vec<Variant>, serializer: &mut Serializer) -> (r: Result<
        (),
        SerializeError,
    >)
        requires
            old(serializer)@.wf(),
        ensures
            final(serializer)@.extends(old(serializer)@),
            match encode_all(
                variant_views(items@),
                old(serializer)@.pos(),
                old(serializer)@.endianness,
            ) {
                Some(bytes) => r is Ok && final(serializer)@ == old(serializer)@.with(bytes),
                None => r is Err && final(serializer)@ == old(serializer)@,
            },
    {
        let len = serializer.len();
        let r = Variant::write_all(items, serializer);
        if r.is_err() {
            serializer.truncate(len);
            assert(serializer@.buf =~= old(serializer)@.buf);
        }
        proof {
            lemma_extends_self(old(serializer)@);
        }
        r
    }

    /// Writes the values `items` one after the other. Where it fails, the
    /// serializer holds what was written until then.
    fn write_all(items: &Vec<Variant>, serializer: &mut Serializer) -> (r: Result<
        (),
        SerializeError,
    >)
        requires
            old(serializer)@.wf(),
        ensures
            final(serializer)@.extends(old(serializer)@),
            match encode_all(
                variant_views(items@),
                old(serializer)@.pos(),
                old(serializer)@.endianness,
            ) {
                Some(bytes) => r is Ok && final(serializer)@ == old(serializer)@.with(bytes),
                None => r is Err,
            },
        decreases items, 0nat,
    {
        let ghost before = serializer@;
        let ghost e = before.endianness;
        let ghost vs = variant_views(items@);
        proof {
            lemma_with(before, Seq::empty(), Seq::empty());
            lemma_extends_self(before);
            assert(vs.skip(0) =~= vs);
        }
        let mut i: usize = 0;
        while i < items.len()
            invariant
                i <= items@.len(),
                vs == variant_views(items@),
                before == old(serializer)@,
                before.wf(),
                e == before.endianness,
                serializer@.extends(before),
                encode_all(vs, before.pos(), e) == written_then(
                    serializer@.buf.skip(before.buf.len() as int),
                    encode_all(vs.skip(i as int), serializer@.pos(), e),
                ),
            decreases items.len() - i,
        {
            let ghost here = serializer@;
            let ghost done = here.buf.skip(before.buf.len() as int);
            proof {
                assert(vs.skip(i as int)[0] == items@[i as int]@);
                assert(vs.skip(i as int).drop_first() =~= vs.skip(i + 1));
            }
            match items[i].serialize(serializer) {
                Ok(()) => {},
                Err(err) => {
                    proof {
                        lemma_extends(before, here, serializer@);
                    }
                    return Err(err);
                },
            }
            proof {
                let bytes = encode(items@[i as int]@, here.pos(), e)->0;
                lemma_with(here, bytes, Seq::empty());
                lemma_extends(before, here, serializer@);
                assert(serializer@.buf.skip(before.buf.len() as int) =~= done + bytes);
                match encode_all(vs.skip(i + 1), serializer@.pos(), e) {
                    Some(rest) => {
                        assert(done + (bytes + rest) =~= (done + bytes) + rest);
                    },
                    None => {},
                }
            }
            i += 1;
        }
        proof {
            let body = serializer@.buf.skip(before.buf.len() as int);
            assert(vs.skip(items@.len() as int) =~= Seq::<SpecVariant>::empty());
            assert(body + Seq::<u8>::empty() =~= body);
            assert(serializer@.buf =~= before.buf + body);
        }
        Ok(())
    }
}

} // verus!
