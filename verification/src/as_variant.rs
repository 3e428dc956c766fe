//! Values of the program as variants.

use crate::signature::{Signature, SpecSignature};
use crate::types::{ObjectPath, UnixFd};
use crate::variant::{SpecVariant, Variant};
use vstd::prelude::*;

verus! {

/// A trait to convert a Rust value to a [`Variant`].
///
/// This is useful to allow a value of this type to be serialized into a
/// message body.
pub trait AsVariant {
    /// The signature of every value of this type.
    spec fn spec_signature() -> SpecSignature;

    /// The variant that this value is converted to.
    spec fn spec_variant(&self) -> SpecVariant;

    /// Get the D-Bus signature of a value of this type.
    fn signature() -> (s: Signature)
        ensures
            s@ == Self::spec_signature(),
    ;

    /// Convert this value to a variant.
    fn as_variant(&self) -> (v: Variant)
        ensures
            v@ == self.spec_variant(),
    ;

    /// The variant of a value has the signature of its type.
    proof fn lemma_signature(&self)
        ensures
            self.spec_variant().inner_signature() == Self::spec_signature(),
    ;
}

impl AsVariant for bool {
    open spec fn spec_signature() -> SpecSignature {
        SpecSignature::Bool
    }

    open spec fn spec_variant(&self) -> SpecVariant {
        SpecVariant::Bool(*self)
    }

    fn signature() -> (s: Signature) {
        Signature::Bool
    }

    fn as_variant(&self) -> (v: Variant) {
        Variant::Bool(*self)
    }

    proof fn lemma_signature(&self) {
    }
}

impl AsVariant for i16 {
    open spec fn spec_signature() -> SpecSignature {
        SpecSignature::I16
    }

    open spec fn spec_variant(&self) -> SpecVariant {
        SpecVariant::I16(*self)
    }

    fn signature() -> (s: Signature) {
        Signature::I16
    }

    fn as_variant(&self) -> (v: Variant) {
        Variant::I16(*self)
    }

    proof fn lemma_signature(&self) {
    }
}

impl AsVariant for i32 {
    open spec fn spec_signature() -> SpecSignature {
        SpecSignature::I32
    }

    open spec fn spec_variant(&self) -> SpecVariant {
        SpecVariant::I32(*self)
    }

    fn signature() -> (s: Signature) {
        Signature::I32
    }

    fn as_variant(&self) -> (v: Variant) {
        Variant::I32(*self)
    }

    proof fn lemma_signature(&self) {
    }
}

impl AsVariant for i64 {
    open spec fn spec_signature() -> SpecSignature {
        SpecSignature::I64
    }

    open spec fn spec_variant(&self) -> SpecVariant {
        SpecVariant::I64(*self)
    }

    fn signature() -> (s: Signature) {
        Signature::I64
    }

    fn as_variant(&self) -> (v: Variant) {
        Variant::I64(*self)
    }

    proof fn lemma_signature(&self) {
    }
}

impl AsVariant for ObjectPath {
    open spec fn spec_signature() -> SpecSignature {
        SpecSignature::ObjectPath
    }

    open spec fn spec_variant(&self) -> SpecVariant {
        SpecVariant::ObjectPath(self@)
    }

    fn signature() -> (s: Signature) {
        Signature::ObjectPath
    }

    fn as_variant(&self) -> (v: Variant) {
        Variant::ObjectPath(self.clone())
    }

    proof fn lemma_signature(&self) {
    }
}

impl AsVariant for Signature {
    open spec fn spec_signature() -> SpecSignature {
        SpecSignature::Signature
    }

    open spec fn spec_variant(&self) -> SpecVariant {
        SpecVariant::Signature(self@)
    }

    fn signature() -> (s: Signature) {
        Signature::Signature
    }

    fn as_variant(&self) -> (v: Variant) {
        Variant::Signature(self.clone())
    }

    proof fn lemma_signature(&self) {
    }
}

impl AsVariant for str {
    open spec fn spec_signature() -> SpecSignature {
        SpecSignature::String
    }

    open spec fn spec_variant(&self) -> SpecVariant {
        SpecVariant::String(self@)
    }

    fn signature() -> (s: Signature) {
        Signature::String
    }

    fn as_variant(&self) -> (v: Variant) {
        Variant::String(self.to_owned())
    }

    proof fn lemma_signature(&self) {
    }
}

impl AsVariant for String {
    open spec fn spec_signature() -> SpecSignature {
        SpecSignature::String
    }

    open spec fn spec_variant(&self) -> SpecVariant {
        SpecVariant::String(self@)
    }

    fn signature() -> (s: Signature) {
        Signature::String
    }

    fn as_variant(&self) -> (v: Variant) {
        Variant::String(self.clone())
    }

    proof fn lemma_signature(&self) {
    }
}

impl AsVariant for u8 {
    open spec fn spec_signature() -> SpecSignature {
        SpecSignature::U8
    }

    open spec fn spec_variant(&self) -> SpecVariant {
        SpecVariant::U8(*self)
    }

    fn signature() -> (s: Signature) {
        Signature::U8
    }

    fn as_variant(&self) -> (v: Variant) {
        Variant::U8(*self)
    }

    proof fn lemma_signature(&self) {
    }
}

impl AsVariant for u16 {
    open spec fn spec_signature() -> SpecSignature {
        SpecSignature::U16
    }

    open spec fn spec_variant(&self) -> SpecVariant {
        SpecVariant::U16(*self)
    }

    fn signature() -> (s: Signature) {
        Signature::U16
    }

    fn as_variant(&self) -> (v: Variant) {
        Variant::U16(*self)
    }

    proof fn lemma_signature(&self) {
    }
}

impl AsVariant for u32 {
    open spec fn spec_signature() -> SpecSignature {
        SpecSignature::U32
    }

    open spec fn spec_variant(&self) -> SpecVariant {
        SpecVariant::U32(*self)
    }

    fn signature() -> (s: Signature) {
        Signature::U32
    }

    fn as_variant(&self) -> (v: Variant) {
        Variant::U32(*self)
    }

    proof fn lemma_signature(&self) {
    }
}

impl AsVariant for u64 {
    open spec fn spec_signature() -> SpecSignature {
        SpecSignature::U64
    }

    open spec fn spec_variant(&self) -> SpecVariant {
        SpecVariant::U64(*self)
    }

    fn signature() -> (s: Signature) {
        Signature::U64
    }

    fn as_variant(&self) -> (v: Variant) {
        Variant::U64(*self)
    }

    proof fn lemma_signature(&self) {
    }
}

impl AsVariant for UnixFd {
    open spec fn spec_signature() -> SpecSignature {
        SpecSignature::UnixFd
    }

    open spec fn spec_variant(&self) -> SpecVariant {
        SpecVariant::UnixFd(*self)
    }

    fn signature() -> (s: Signature) {
        Signature::UnixFd
    }

    fn as_variant(&self) -> (v: Variant) {
        Variant::UnixFd(*self)
    }

    proof fn lemma_signature(&self) {
    }
}

/// The variants that the values `items` are converted to.
pub open spec fn spec_variants<T: AsVariant>(items: Seq<T>) -> Seq<SpecVariant> {
    Seq::new(items.len(), |i: int| items[i].spec_variant())
}

/// The variants that the values `items` are converted to.
pub fn as_variants<T: AsVariant>(items: &[T]) -> (r: Vec<Variant>)
    ensures
        crate::variant::variant_views(r@) == spec_variants(items@),
{
    let mut out: Vec<Variant> = Vec::new();
    let mut i: usize = 0;
    while i < items.len()
        invariant
            i <= items@.len(),
            out@.len() == i,
            forall|j: int| 0 <= j < i ==> out@[j]@ == items@[j].spec_variant(),
        decreases items.len() - i,
    {
        out.push(items[i].as_variant());
        i += 1;
    }
    assert(crate::variant::variant_views(out@) =~= spec_variants(items@));
    out
}

// Every array of values is converted to an array of variants, also where a
// specialized array would hold the values.
impl<T: AsVariant> AsVariant for Vec<T> {
    open spec fn spec_signature() -> SpecSignature {
        SpecSignature::Array { element: Box::new(T::spec_signature()) }
    }

    open spec fn spec_variant(&self) -> SpecVariant {
        SpecVariant::Array {
            element_signature: T::spec_signature(),
            elements: spec_variants(self@),
        }
    }

    fn signature() -> (s: Signature) {
        Signature::Array { element: Box::new(T::signature()) }
    }

    fn as_variant(&self) -> (v: Variant) {
        Variant::Array {
            element_signature: T::signature(),
            elements: as_variants(self.as_slice()),
        }
    }

    proof fn lemma_signature(&self) {
    }
}

/// The entries of a dictionary, in the order in which they are written.
#[derive(Debug)]
pub struct Entries<K, V>(pub Vec<(K, V)>);

/// The dict entries that the pairs `items` are converted to.
pub open spec fn spec_entries<K: AsVariant, V: AsVariant>(items: Seq<(K, V)>) -> Seq<SpecVariant> {
    Seq::new(
        items.len(),
        |i: int|
            SpecVariant::DictEntry {
                key: Box::new(items[i].0.spec_variant()),
                value: Box::new(items[i].1.spec_variant()),
            },
    )
}

impl<K: AsVariant, V: AsVariant> AsVariant for Entries<K, V> {
    open spec fn spec_signature() -> SpecSignature {
        SpecSignature::Array {
            element: Box::new(
                SpecSignature::DictEntry {
                    key: Box::new(K::spec_signature()),
                    value: Box::new(V::spec_signature()),
                },
            ),
        }
    }

    open spec fn spec_variant(&self) -> SpecVariant {
        SpecVariant::Array {
            element_signature: SpecSignature::DictEntry {
                key: Box::new(K::spec_signature()),
                value: Box::new(V::spec_signature()),
            },
            elements: spec_entries(self.0@),
        }
    }

    fn signature() -> (s: Signature) {
        let entry = Signature::DictEntry {
            key: Box::new(K::signature()),
            value: Box::new(V::signature()),
        };
        assert(entry@ == SpecSignature::DictEntry {
            key: Box::new(K::spec_signature()),
            value: Box::new(V::spec_signature()),
        });
        Signature::Array { element: Box::new(entry) }
    }

    fn as_variant(&self) -> (v: Variant) {
        let mut elements: Vec<Variant> = Vec::new();
        let mut i: usize = 0;
        while i < self.0.len()
            invariant
                i <= self.0@.len(),
                elements@.len() == i,
                forall|j: int| 0 <= j < i ==> elements@[j]@ == spec_entries(self.0@)[j],
            decreases self.0.len() - i,
        {
            let entry = Variant::DictEntry {
                key: Box::new(self.0[i].0.as_variant()),
                value: Box::new(self.0[i].1.as_variant()),
            };
            elements.push(entry);
            i += 1;
        }
        assert(crate::variant::variant_views(elements@) =~= spec_entries(self.0@));
        let entry = Signature::DictEntry {
            key: Box::new(K::signature()),
            value: Box::new(V::signature()),
        };
        assert(entry@ == SpecSignature::DictEntry {
            key: Box::new(K::spec_signature()),
            value: Box::new(V::spec_signature()),
        });
        Variant::Array { element_signature: entry, elements }
    }

    proof fn lemma_signature(&self) {
    }
}

/// A trait to convert a Rust value to a [`Variant`]: every type that has
/// [`AsVariant`] has it.
pub trait ToVariant: AsVariant {
    /// Convert this value to a variant.
    fn to_variant(&self) -> (v: Variant)
        ensures
            v@ == self.spec_variant(),
    ;
}

impl<T: AsVariant + ?Sized> ToVariant for T {
    fn to_variant(&self) -> (v: Variant) {
        self.as_variant()
    }
}

/// A trait representing a generic object on a message bus.
pub trait Object {
    /// The name of the destination that the object lives at.
    fn name(&self) -> &str;

    /// The path of the object.
    fn path(&self) -> ObjectPath;
}

} // verus!
