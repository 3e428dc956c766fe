//! The value model: a value of any type that a signature describes.

use crate::signature::{Signature, SpecSignature};
use crate::types::{ObjectPath, UnixFd};
use vstd::prelude::*;

verus! {

/// The mathematical value of a [`Variant`].
///
/// A 64-bit floating-point number is held as its bits.
pub enum SpecVariant {
    Array { element_signature: SpecSignature, elements: Seq<SpecVariant> },
    ArrayBool(Seq<bool>),
    ArrayF64(Seq<u64>),
    ArrayI16(Seq<i16>),
    ArrayI32(Seq<i32>),
    ArrayI64(Seq<i64>),
    ArrayString(Seq<Seq<char>>),
    ArrayU8(Seq<u8>),
    ArrayU16(Seq<u16>),
    ArrayU32(Seq<u32>),
    ArrayU64(Seq<u64>),
    ArrayUnixFd(Seq<UnixFd>),
    Bool(bool),
    DictEntry { key: Box<SpecVariant>, value: Box<SpecVariant> },
    F64(u64),
    I16(i16),
    I32(i32),
    I64(i64),
    ObjectPath(Seq<char>),
    Signature(SpecSignature),
    String(Seq<char>),
    Struct { fields: Seq<SpecVariant> },
    Tuple { elements: Seq<SpecVariant> },
    U8(u8),
    U16(u16),
    U32(u32),
    U64(u64),
    UnixFd(UnixFd),
    Variant(Box<SpecVariant>),
}

/// A variant. It can store any kind of data type that D-Bus supports.
///
/// A 64-bit floating-point number is held as its bits: `f64::to_bits` gives
/// them and `f64::from_bits` takes them.
#[derive(Debug, PartialEq)]
pub enum Variant {
    /// An array of variants. All variants must have the same signature as
    /// `element_signature`.
    ///
    /// Simpler arrays will be deserialized as the other `Array*` variants.
    /// For example, byte arrays (`ay`) will always be deserialized as
    /// `ArrayU8`.
    Array { element_signature: Signature, elements: Vec<Variant> },
    /// Simpler wrapper over a bool array (`ab`) than the generic `Array`.
    ArrayBool(Vec<bool>),
    /// Simpler wrapper over a double array (`ad`) than the generic `Array`.
    ArrayF64(Vec<u64>),
    /// Simpler wrapper over an i16 array (`an`) than the generic `Array`.
    ArrayI16(Vec<i16>),
    /// Simpler wrapper over an i32 array (`ai`) than the generic `Array`.
    ArrayI32(Vec<i32>),
    /// Simpler wrapper over an i64 array (`ax`) than the generic `Array`.
    ArrayI64(Vec<i64>),
    /// Simpler wrapper over a string array (`as`) than the generic `Array`.
    ArrayString(Vec<String>),
    /// Simpler wrapper over a u8 array (`ay`) than the generic `Array`.
    ArrayU8(Vec<u8>),
    /// Simpler wrapper over a u16 array (`aq`) than the generic `Array`.
    ArrayU16(Vec<u16>),
    /// Simpler wrapper over a u32 array (`au`) than the generic `Array`.
    ArrayU32(Vec<u32>),
    /// Simpler wrapper over a u64 array (`at`) than the generic `Array`.
    ArrayU64(Vec<u64>),
    /// Simpler wrapper over an array of file descriptor indices (`ah`) than
    /// the generic `Array`.
    ArrayUnixFd(Vec<UnixFd>),
    Bool(bool),
    DictEntry { key: Box<Variant>, value: Box<Variant> },
    F64(u64),
    I16(i16),
    I32(i32),
    I64(i64),
    ObjectPath(ObjectPath),
    Signature(Signature),
    String(String),
    Struct { fields: Vec<Variant> },
    /// A sequence of values side by side.
    ///
    /// A message body with one or more parameters is of this type. For
    /// example, if a method takes two parameters of type string and byte,
    /// the body is a `Variant::Tuple` of a `Variant::String` and a
    /// `Variant::U8`.
    Tuple { elements: Vec<Variant> },
    U8(u8),
    U16(u16),
    U32(u32),
    U64(u64),
    UnixFd(UnixFd),
    Variant(Box<Variant>),
}

/// The mathematical values of a sequence of variants.
pub open spec fn variant_views(v: Seq<Variant>) -> Seq<SpecVariant>
    decreases v,
{
    Seq::new(
        v.len(),
        |i: int|
            if 0 <= i < v.len() {
                v[i].model()
            } else {
                SpecVariant::Bool(false)
            },
    )
}

/// The mathematical values of a sequence of strings.
pub open spec fn string_views(v: Seq<String>) -> Seq<Seq<char>> {
    Seq::new(v.len(), |i: int| v[i]@)
}

impl Variant {
    /// The mathematical value of this variant.
    pub open spec fn model(&self) -> SpecVariant
        decreases self,
    {
        match self {
            Variant::Array { element_signature, elements } => SpecVariant::Array {
                element_signature: element_signature@,
                elements: variant_views(elements@),
            },
            Variant::ArrayBool(v) => SpecVariant::ArrayBool(v@),
            Variant::ArrayF64(v) => SpecVariant::ArrayF64(v@),
            Variant::ArrayI16(v) => SpecVariant::ArrayI16(v@),
            Variant::ArrayI32(v) => SpecVariant::ArrayI32(v@),
            Variant::ArrayI64(v) => SpecVariant::ArrayI64(v@),
            Variant::ArrayString(v) => SpecVariant::ArrayString(string_views(v@)),
            Variant::ArrayU8(v) => SpecVariant::ArrayU8(v@),
            Variant::ArrayU16(v) => SpecVariant::ArrayU16(v@),
            Variant::ArrayU32(v) => SpecVariant::ArrayU32(v@),
            Variant::ArrayU64(v) => SpecVariant::ArrayU64(v@),
            Variant::ArrayUnixFd(v) => SpecVariant::ArrayUnixFd(v@),
            Variant::Bool(v) => SpecVariant::Bool(*v),
            Variant::DictEntry { key, value } => SpecVariant::DictEntry {
                key: Box::new(key.model()),
                value: Box::new(value.model()),
            },
            Variant::F64(v) => SpecVariant::F64(*v),
            Variant::I16(v) => SpecVariant::I16(*v),
            Variant::I32(v) => SpecVariant::I32(*v),
            Variant::I64(v) => SpecVariant::I64(*v),
            Variant::ObjectPath(v) => SpecVariant::ObjectPath(v@),
            Variant::Signature(v) => SpecVariant::Signature(v@),
            Variant::String(v) => SpecVariant::String(v@),
            Variant::Struct { fields } => SpecVariant::Struct { fields: variant_views(fields@) },
            Variant::Tuple { elements } => SpecVariant::Tuple {
                elements: variant_views(elements@),
            },
            Variant::U8(v) => SpecVariant::U8(*v),
            Variant::U16(v) => SpecVariant::U16(*v),
            Variant::U32(v) => SpecVariant::U32(*v),
            Variant::U64(v) => SpecVariant::U64(*v),
            Variant::UnixFd(v) => SpecVariant::UnixFd(*v),
            Variant::Variant(v) => SpecVariant::Variant(Box::new(v.model())),
        }
    }
}

impl View for Variant {
    type V = SpecVariant;

    open spec fn view(&self) -> SpecVariant {
        self.model()
    }
}

impl SpecVariant {
    /// The signature of this value.
    pub open spec fn inner_signature(self) -> SpecSignature
        decreases self,
    {
        match self {
            SpecVariant::Array { element_signature, elements } => SpecSignature::Array {
                element: Box::new(element_signature),
            },
            SpecVariant::ArrayBool(_) => SpecSignature::Array {
                element: Box::new(SpecSignature::Bool),
            },
            SpecVariant::ArrayF64(_) => SpecSignature::Array {
                element: Box::new(SpecSignature::F64),
            },
            SpecVariant::ArrayI16(_) => SpecSignature::Array {
                element: Box::new(SpecSignature::I16),
            },
            SpecVariant::ArrayI32(_) => SpecSignature::Array {
                element: Box::new(SpecSignature::I32),
            },
            SpecVariant::ArrayI64(_) => SpecSignature::Array {
                element: Box::new(SpecSignature::I64),
            },
            SpecVariant::ArrayString(_) => SpecSignature::Array {
                element: Box::new(SpecSignature::String),
            },
            SpecVariant::ArrayU8(_) => SpecSignature::Array { element: Box::new(SpecSignature::U8) },
            SpecVariant::ArrayU16(_) => SpecSignature::Array {
                element: Box::new(SpecSignature::U16),
            },
            SpecVariant::ArrayU32(_) => SpecSignature::Array {
                element: Box::new(SpecSignature::U32),
            },
            SpecVariant::ArrayU64(_) => SpecSignature::Array {
                element: Box::new(SpecSignature::U64),
            },
            SpecVariant::ArrayUnixFd(_) => SpecSignature::Array {
                element: Box::new(SpecSignature::UnixFd),
            },
            SpecVariant::Bool(_) => SpecSignature::Bool,
            SpecVariant::DictEntry { key, value } => SpecSignature::DictEntry {
                key: Box::new(key.inner_signature()),
                value: Box::new(value.inner_signature()),
            },
            SpecVariant::F64(_) => SpecSignature::F64,
            SpecVariant::I16(_) => SpecSignature::I16,
            SpecVariant::I32(_) => SpecSignature::I32,
            SpecVariant::I64(_) => SpecSignature::I64,
            SpecVariant::ObjectPath(_) => SpecSignature::ObjectPath,
            SpecVariant::Signature(_) => SpecSignature::Signature,
            SpecVariant::String(_) => SpecSignature::String,
            SpecVariant::Struct { fields } => SpecSignature::Struct {
                fields: inner_signatures(fields),
            },
            SpecVariant::Tuple { elements } => SpecSignature::Tuple {
                elements: inner_signatures(elements),
            },
            SpecVariant::U8(_) => SpecSignature::U8,
            SpecVariant::U16(_) => SpecSignature::U16,
            SpecVariant::U32(_) => SpecSignature::U32,
            SpecVariant::U64(_) => SpecSignature::U64,
            SpecVariant::UnixFd(_) => SpecSignature::UnixFd,
            SpecVariant::Variant(_) => SpecSignature::Variant,
        }
    }
}

/// The signatures of the values `vs`, in order.
pub open spec fn inner_signatures(vs: Seq<SpecVariant>) -> Seq<SpecSignature>
    decreases vs,
{
    if vs.len() == 0 {
        Seq::empty()
    } else {
        seq![vs[0].inner_signature()] + inner_signatures(vs.drop_first())
    }
}

/// The signatures of several values are as many as the values, and each is
/// the signature of the value at its place.
pub proof fn lemma_inner_signatures(vs: Seq<SpecVariant>)
    ensures
        inner_signatures(vs).len() == vs.len(),
        forall|i: int| 0 <= i < vs.len() ==> inner_signatures(vs)[i] == vs[i].inner_signature(),
    decreases vs.len(),
{
    if vs.len() > 0 {
        lemma_inner_signatures(vs.drop_first());
        assert forall|i: int| 0 <= i < vs.len() implies inner_signatures(vs)[i]
            == vs[i].inner_signature() by {
            if i > 0 {
                assert(vs.drop_first()[i - 1] == vs[i]);
            }
        }
    }
}

impl Variant {
    /// Views this variant as a slice of variants if it is an array and its
    /// elements have the given signature.
    pub fn as_array(&self, expected_element_signature: &Signature) -> (r: Option<&[Variant]>)
        ensures
            match self {
                Variant::Array { element_signature, elements } => if element_signature@
                    == expected_element_signature@ {
                    r matches Some(v) && v@ == elements@
                } else {
                    r is None
                },
                _ => r is None,
            },
    {
        match self {
            Variant::Array { element_signature, elements } => {
                if element_signature.same(expected_element_signature) {
                    Some(elements.as_slice())
                } else {
                    None
                }
            },
            _ => None,
        }
    }

    /// Views this variant as a slice of strings if it is an array of
    /// strings.
    pub fn as_array_string(&self) -> (r: Option<&[String]>)
        ensures
            match self {
                Variant::ArrayString(elements) => r matches Some(v) && v@ == elements@,
                _ => r is None,
            },
    {
        match self {
            Variant::ArrayString(elements) => Some(elements.as_slice()),
            _ => None,
        }
    }

    /// Views this variant as a `bool` if it is one.
    pub fn as_bool(&self) -> (r: Option<bool>)
        ensures
            match self {
                Variant::Bool(value) => r == Some(*value),
                _ => r is None,
            },
    {
        match self {
            Variant::Bool(value) => Some(*value),
            _ => None,
        }
    }

    /// Views this variant as a `&str` if it is a string.
    pub fn as_string(&self) -> (r: Option<&str>)
        ensures
            match self {
                Variant::String(value) => r matches Some(s) && s@ == value@,
                _ => r is None,
            },
    {
        match self {
            Variant::String(value) => Some(value.as_str()),
            _ => None,
        }
    }

    /// Views this variant as a `u32` if it is one.
    pub fn as_u32(&self) -> (r: Option<u32>)
        ensures
            match self {
                Variant::U32(value) => r == Some(*value),
                _ => r is None,
            },
    {
        match self {
            Variant::U32(value) => Some(*value),
            _ => None,
        }
    }

    /// Views this variant as its inner variant if it has one.
    pub fn as_variant(&self) -> (r: Option<&Variant>)
        ensures
            match self {
                Variant::Variant(value) => r matches Some(v) && *v == **value,
                _ => r is None,
            },
    {
        match self {
            Variant::Variant(value) => Some(&**value),
            _ => None,
        }
    }

    /// This variant, which owns all that it holds.
    pub fn into_owned(self) -> (r: Variant)
        ensures
            r == self,
    {
        self
    }

    /// The signatures of the variants `v`, in order.
    fn inner_signatures_of(v: &Vec<Variant>) -> (r: Vec<Signature>)
        ensures
            crate::signature::signature_views(r@) == inner_signatures(variant_views(v@)),
        decreases v,
    {
        let mut out: Vec<Signature> = Vec::new();
        let mut i: usize = 0;
        proof {
            lemma_inner_signatures(variant_views(v@));
        }
        while i < v.len()
            invariant
                i <= v.len(),
                out@.len() == i,
                forall|j: int| 0 <= j < i ==> out@[j]@ == v@[j]@.inner_signature(),
            decreases v.len() - i,
        {
            out.push(v[i].inner_signature());
            i += 1;
        }
        assert(crate::signature::signature_views(out@) =~= inner_signatures(variant_views(v@)));
        out
    }

    /// The signature of this variant.
    pub fn inner_signature(&self) -> (r: Signature)
        ensures
            r@ == self@.inner_signature(),
        decreases self,
    {
        proof {
            reveal_with_fuel(Signature::model, 2);
        }
        match self {
            Variant::Array { element_signature, elements: _ } => Signature::Array {
                element: Box::new(element_signature.clone()),
            },
            Variant::ArrayBool(_) => Signature::Array { element: Box::new(Signature::Bool) },
            Variant::ArrayF64(_) => Signature::Array { element: Box::new(Signature::F64) },
            Variant::ArrayI16(_) => Signature::Array { element: Box::new(Signature::I16) },
            Variant::ArrayI32(_) => Signature::Array { element: Box::new(Signature::I32) },
            Variant::ArrayI64(_) => Signature::Array { element: Box::new(Signature::I64) },
            Variant::ArrayString(_) => Signature::Array { element: Box::new(Signature::String) },
            Variant::ArrayU8(_) => Signature::Array { element: Box::new(Signature::U8) },
            Variant::ArrayU16(_) => Signature::Array { element: Box::new(Signature::U16) },
            Variant::ArrayU32(_) => Signature::Array { element: Box::new(Signature::U32) },
            Variant::ArrayU64(_) => Signature::Array { element: Box::new(Signature::U64) },
            Variant::ArrayUnixFd(_) => Signature::Array { element: Box::new(Signature::UnixFd) },
            Variant::Bool(_) => Signature::Bool,
            Variant::DictEntry { key, value } => Signature::DictEntry {
                key: Box::new(key.inner_signature()),
                value: Box::new(value.inner_signature()),
            },
            Variant::F64(_) => Signature::F64,
            Variant::I16(_) => Signature::I16,
            Variant::I32(_) => Signature::I32,
            Variant::I64(_) => Signature::I64,
            Variant::ObjectPath(_) => Signature::ObjectPath,
            Variant::Signature(_) => Signature::Signature,
            Variant::String(_) => Signature::String,
            Variant::Struct { fields } => Signature::Struct {
                fields: Variant::inner_signatures_of(fields),
            },
            Variant::Tuple { elements } => Signature::Tuple {
                elements: Variant::inner_signatures_of(elements),
            },
            Variant::U8(_) => Signature::U8,
            Variant::U16(_) => Signature::U16,
            Variant::U32(_) => Signature::U32,
            Variant::U64(_) => Signature::U64,
            Variant::UnixFd(_) => Signature::UnixFd,
            Variant::Variant(_) => Signature::Variant,
        }
    }

    /// Copies of the variants of `v`, in order.
    fn clone_all(v: &Vec<Variant>) -> (r: Vec<Variant>)
        ensures
            variant_views(r@) == variant_views(v@),
        decreases v,
    {
        let mut out: Vec<Variant> = Vec::new();
        let mut i: usize = 0;
        while i < v.len()
            invariant
                i <= v.len(),
                out@.len() == i,
                forall|j: int| 0 <= j < i ==> out@[j]@ == v@[j]@,
            decreases v.len() - i,
        {
            out.push(v[i].clone());
            i += 1;
        }
        assert(variant_views(out@) =~= variant_views(v@));
        out
    }

    /// Copies of the strings of `v`, in order.
    fn clone_strings(v: &Vec<String>) -> (r: Vec<String>)
        ensures
            string_views(r@) == string_views(v@),
    {
        let mut out: Vec<String> = Vec::new();
        let mut i: usize = 0;
        while i < v.len()
            invariant
                i <= v.len(),
                out@.len() == i,
                forall|j: int| 0 <= j < i ==> out@[j]@ == v@[j]@,
            decreases v.len() - i,
        {
            out.push(v[i].clone());
            i += 1;
        }
        assert(string_views(out@) =~= string_views(v@));
        out
    }
}

impl Clone for Variant {
    fn clone(&self) -> (r: Self)
        ensures
            r@ == self@,
        decreases self,
    {
        match self {
            Variant::Array { element_signature, elements } => Variant::Array {
                element_signature: element_signature.clone(),
                elements: Variant::clone_all(elements),
            },
            Variant::ArrayBool(v) => {
                let c = v.clone();
                assert(c@ =~= v@);
                Variant::ArrayBool(c)
            },
            Variant::ArrayF64(v) => {
                let c = v.clone();
                assert(c@ =~= v@);
                Variant::ArrayF64(c)
            },
            Variant::ArrayI16(v) => {
                let c = v.clone();
                assert(c@ =~= v@);
                Variant::ArrayI16(c)
            },
            Variant::ArrayI32(v) => {
                let c = v.clone();
                assert(c@ =~= v@);
                Variant::ArrayI32(c)
            },
            Variant::ArrayI64(v) => {
                let c = v.clone();
                assert(c@ =~= v@);
                Variant::ArrayI64(c)
            },
            Variant::ArrayString(v) => Variant::ArrayString(Variant::clone_strings(v)),
            Variant::ArrayU8(v) => {
                let c = v.clone();
                assert(c@ =~= v@);
                Variant::ArrayU8(c)
            },
            Variant::ArrayU16(v) => {
                let c = v.clone();
                assert(c@ =~= v@);
                Variant::ArrayU16(c)
            },
            Variant::ArrayU32(v) => {
                let c = v.clone();
                assert(c@ =~= v@);
                Variant::ArrayU32(c)
            },
            Variant::ArrayU64(v) => {
                let c = v.clone();
                assert(c@ =~= v@);
                Variant::ArrayU64(c)
            },
            Variant::ArrayUnixFd(v) => {
                let c = v.clone();
                assert(c@ =~= v@);
                Variant::ArrayUnixFd(c)
            },
            Variant::Bool(v) => Variant::Bool(*v),
            Variant::DictEntry { key, value } => Variant::DictEntry {
                key: Box::new((&**key).clone()),
                value: Box::new((&**value).clone()),
            },
            Variant::F64(v) => Variant::F64(*v),
            Variant::I16(v) => Variant::I16(*v),
            Variant::I32(v) => Variant::I32(*v),
            Variant::I64(v) => Variant::I64(*v),
            Variant::ObjectPath(v) => Variant::ObjectPath(v.clone()),
            Variant::Signature(v) => Variant::Signature(v.clone()),
            Variant::String(v) => Variant::String(v.clone()),
            Variant::Struct { fields } => Variant::Struct { fields: Variant::clone_all(fields) },
            Variant::Tuple { elements } => Variant::Tuple {
                elements: Variant::clone_all(elements),
            },
            Variant::U8(v) => Variant::U8(*v),
            Variant::U16(v) => Variant::U16(*v),
            Variant::U32(v) => Variant::U32(*v),
            Variant::U64(v) => Variant::U64(*v),
            Variant::UnixFd(v) => Variant::UnixFd(*v),
            Variant::Variant(v) => Variant::Variant(Box::new((&**v).clone())),
        }
    }
}

} // verus!
