//! The recursive type descriptor of a value, its text, and its alignment.

use vstd::prelude::*;

verus! {

/// The mathematical value of a [`Signature`].
pub enum SpecSignature {
    Array { element: Box<SpecSignature> },
    Bool,
    DictEntry { key: Box<SpecSignature>, value: Box<SpecSignature> },
    F64,
    I16,
    I32,
    I64,
    ObjectPath,
    Signature,
    String,
    Struct { fields: Seq<SpecSignature> },
    Tuple { elements: Seq<SpecSignature> },
    U8,
    U16,
    U32,
    U64,
    UnixFd,
    Variant,
}

/// A signature: the type of a value on the wire.
///
/// Use [`Signature::to_string`] to get its text, and [`Signature::parse`] to
/// read one from text.
#[derive(Debug)]
pub enum Signature {
    Array { element: Box<Signature> },
    Bool,
    DictEntry { key: Box<Signature>, value: Box<Signature> },
    F64,
    I16,
    I32,
    I64,
    ObjectPath,
    Signature,
    String,
    Struct { fields: Vec<Signature> },
    /// A sequence of signatures side by side, as in a message body. It has no
    /// code of its own in the text of a signature.
    Tuple { elements: Vec<Signature> },
    U8,
    U16,
    U32,
    U64,
    UnixFd,
    Variant,
}

/// The mathematical values of a sequence of signatures.
pub open spec fn signature_views(v: Seq<Signature>) -> Seq<SpecSignature>
    decreases v,
{
    Seq::new(
        v.len(),
        |i: int|
            if 0 <= i < v.len() {
                v[i].model()
            } else {
                SpecSignature::Bool
            },
    )
}

impl Signature {
    /// The mathematical value of this signature.
    pub open spec fn model(&self) -> SpecSignature
        decreases self,
    {
        match self {
            Signature::Array { element } => SpecSignature::Array {
                element: Box::new(element.model()),
            },
            Signature::Bool => SpecSignature::Bool,
            Signature::DictEntry { key, value } => SpecSignature::DictEntry {
                key: Box::new(key.model()),
                value: Box::new(value.model()),
            },
            Signature::F64 => SpecSignature::F64,
            Signature::I16 => SpecSignature::I16,
            Signature::I32 => SpecSignature::I32,
            Signature::I64 => SpecSignature::I64,
            Signature::ObjectPath => SpecSignature::ObjectPath,
            Signature::Signature => SpecSignature::Signature,
            Signature::String => SpecSignature::String,
            Signature::Struct { fields } => SpecSignature::Struct {
                fields: signature_views(fields@),
            },
            Signature::Tuple { elements } => SpecSignature::Tuple {
                elements: signature_views(elements@),
            },
            Signature::U8 => SpecSignature::U8,
            Signature::U16 => SpecSignature::U16,
            Signature::U32 => SpecSignature::U32,
            Signature::U64 => SpecSignature::U64,
            Signature::UnixFd => SpecSignature::UnixFd,
            Signature::Variant => SpecSignature::Variant,
        }
    }
}

impl View for Signature {
    type V = SpecSignature;

    open spec fn view(&self) -> SpecSignature {
        self.model()
    }
}

impl SpecSignature {
    /// The alignment, in bytes, of a value of this signature.
    pub open spec fn alignment(self) -> int {
        match self {
            SpecSignature::U8 | SpecSignature::Signature | SpecSignature::Variant
            | SpecSignature::Tuple { .. } => 1,
            SpecSignature::U16 | SpecSignature::I16 => 2,
            SpecSignature::Bool | SpecSignature::U32 | SpecSignature::I32 | SpecSignature::UnixFd
            | SpecSignature::ObjectPath | SpecSignature::String | SpecSignature::Array {
                ..
            } => 4,
            SpecSignature::U64 | SpecSignature::I64 | SpecSignature::F64
            | SpecSignature::DictEntry { .. } | SpecSignature::Struct { .. } => 8,
        }
    }
}

impl Signature {
    /// The alignment, in bytes, of a value of this signature.
    pub fn alignment(&self) -> (a: usize)
        ensures
            a == self@.alignment(),
            a == 1 || a == 2 || a == 4 || a == 8,
    {
        match self {
            Signature::Array { .. } => 4,
            Signature::Bool => 4,
            Signature::DictEntry { .. } => 8,
            Signature::F64 => 8,
            Signature::I16 => 2,
            Signature::I32 => 4,
            Signature::I64 => 8,
            Signature::ObjectPath => 4,
            Signature::Signature => 1,
            Signature::String => 4,
            Signature::Struct { .. } => 8,
            Signature::Tuple { .. } => 1,
            Signature::U8 => 1,
            Signature::U16 => 2,
            Signature::U32 => 4,
            Signature::U64 => 8,
            Signature::UnixFd => 4,
            Signature::Variant => 1,
        }
    }

    /// Whether two sequences of signatures are the same, one by one.
    fn all_equal(a: &Vec<Signature>, b: &Vec<Signature>) -> (r: bool)
        ensures
            r == (signature_views(a@) == signature_views(b@)),
        decreases a,
    {
        if a.len() != b.len() {
            assert(signature_views(a@).len() != signature_views(b@).len());
            return false;
        }
        let mut i: usize = 0;
        while i < a.len()
            invariant
                i <= a.len() == b.len(),
                forall|j: int| 0 <= j < i ==> a@[j]@ == b@[j]@,
            decreases a.len() - i,
        {
            if !a[i].same(&b[i]) {
                assert(signature_views(a@)[i as int] != signature_views(b@)[i as int]);
                return false;
            }
            i += 1;
        }
        assert(signature_views(a@) =~= signature_views(b@));
        true
    }

    /// Whether this signature and `other` are the same.
    pub fn same(&self, other: &Signature) -> (r: bool)
        ensures
            r == (self@ == other@),
        decreases self,
    {
        match (self, other) {
            (Signature::Array { element: a }, Signature::Array { element: b }) => a.same(b),
            (Signature::Bool, Signature::Bool) => true,
            (
                Signature::DictEntry { key: ka, value: va },
                Signature::DictEntry { key: kb, value: vb },
            ) => ka.same(kb) && va.same(vb),
            (Signature::F64, Signature::F64) => true,
            (Signature::I16, Signature::I16) => true,
            (Signature::I32, Signature::I32) => true,
            (Signature::I64, Signature::I64) => true,
            (Signature::ObjectPath, Signature::ObjectPath) => true,
            (Signature::Signature, Signature::Signature) => true,
            (Signature::String, Signature::String) => true,
            (Signature::Struct { fields: a }, Signature::Struct { fields: b }) => {
                Signature::all_equal(a, b)
            },
            (Signature::Tuple { elements: a }, Signature::Tuple { elements: b }) => {
                Signature::all_equal(a, b)
            },
            (Signature::U8, Signature::U8) => true,
            (Signature::U16, Signature::U16) => true,
            (Signature::U32, Signature::U32) => true,
            (Signature::U64, Signature::U64) => true,
            (Signature::UnixFd, Signature::UnixFd) => true,
            (Signature::Variant, Signature::Variant) => true,
            _ => false,
        }
    }

    /// Copies of the signatures of `v`, in order.
    fn clone_all(v: &Vec<Signature>) -> (r: Vec<Signature>)
        ensures
            signature_views(r@) == signature_views(v@),
        decreases v,
    {
        let mut out: Vec<Signature> = Vec::new();
        let mut i: usize = 0;
        while i < v.len()
            invariant
                i <= v.len(),
                out@.len() == i,
                forall|j: int| 0 <= j < i ==> out@[j]@ == v@[j]@,
            decreases v.len() - i,
        {
            out.push(v[i].clone());
            i += 1;
        }
        assert(signature_views(out@) =~= signature_views(v@));
        out
    }
}

impl Clone for Signature {
    fn clone(&self) -> (r: Self)
        ensures
            r@ == self@,
        decreases self,
    {
        match self {
            Signature::Array { element } => Signature::Array {
                element: Box::new((&**element).clone()),
            },
            Signature::Bool => Signature::Bool,
            Signature::DictEntry { key, value } => Signature::DictEntry {
                key: Box::new((&**key).clone()),
                value: Box::new((&**value).clone()),
            },
            Signature::F64 => Signature::F64,
            Signature::I16 => Signature::I16,
            Signature::I32 => Signature::I32,
            Signature::I64 => Signature::I64,
            Signature::ObjectPath => Signature::ObjectPath,
            Signature::Signature => Signature::Signature,
            Signature::String => Signature::String,
            Signature::Struct { fields } => Signature::Struct {
                fields: Signature::clone_all(fields),
            },
            Signature::Tuple { elements } => Signature::Tuple {
                elements: Signature::clone_all(elements),
            },
            Signature::U8 => Signature::U8,
            Signature::U16 => Signature::U16,
            Signature::U32 => Signature::U32,
            Signature::U64 => Signature::U64,
            Signature::UnixFd => Signature::UnixFd,
            Signature::Variant => Signature::Variant,
        }
    }
}

impl PartialEq for Signature {
    fn eq(&self, other: &Signature) -> (r: bool) {
        self.same(other)
    }
}

impl vstd::std_specs::cmp::PartialEqSpecImpl for Signature {
    open spec fn obeys_eq_spec() -> bool {
        true
    }

    open spec fn eq_spec(&self, other: &Signature) -> bool {
        self@ == other@
    }
}

impl Eq for Signature {

}

} // verus!
