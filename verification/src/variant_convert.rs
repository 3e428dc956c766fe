//! From a variant to a value of a type of the program.

use crate::signature_text::signature_text;
use crate::text::{debug_text, debug_text_of, describe_invalid_value, invalid_value_sentence};
use crate::variant::{SpecVariant, Variant};
use vstd::prelude::*;
use vstd::utf8::decode_utf8;

verus! {

/// An error from converting a variant to a value of another type.
#[derive(Debug, PartialEq, Eq)]
pub enum VariantDeserializeError {
    Custom(String),
    InvalidValue { expected: &'static str, actual: String },
}

impl VariantDeserializeError {
    /// The sentence that says what went wrong.
    pub open spec fn sentence(&self) -> Seq<char> {
        match self {
            VariantDeserializeError::Custom(message) => message@,
            VariantDeserializeError::InvalidValue { expected, actual } => invalid_value_sentence(
                expected@,
                actual@,
            ),
        }
    }

    /// A sentence that says what went wrong.
    pub fn to_string(&self) -> (r: String)
        ensures
            r@ == self.sentence(),
    {
        match self {
            VariantDeserializeError::Custom(message) => message.clone(),
            VariantDeserializeError::InvalidValue { expected, actual } => describe_invalid_value(
                expected,
                actual,
            ),
        }
    }
}

impl SpecVariant {
    /// The value in this value that is no variant: the value itself, or
    /// what the variants in it hold in the end.
    pub open spec fn innermost(self) -> SpecVariant
        decreases self,
    {
        match self {
            SpecVariant::Variant(inner) => inner.innermost(),
            _ => self,
        }
    }

    /// The string that this value stands for: its text where it is a
    /// string or an object path, the text of the signature where it is one,
    /// and what the inner value stands for where it is a variant.
    pub open spec fn as_text(self) -> Option<Seq<char>>
        decreases self,
    {
        match self {
            SpecVariant::String(s) => Some(s),
            SpecVariant::ObjectPath(s) => Some(s),
            SpecVariant::Signature(s) => Some(decode_utf8(signature_text(s))),
            SpecVariant::Variant(inner) => inner.as_text(),
            _ => None,
        }
    }
}

impl Variant {
    /// The string that this variant stands for.
    ///
    /// A string and an object path give their text, a signature its text,
    /// and a variant what its inner value stands for. Any other value is
    /// an error.
    pub fn into_string(self) -> (r: Result<String, VariantDeserializeError>)
        ensures
            match self@.as_text() {
                Some(text) => r matches Ok(s) && s@ == text,
                None => r matches Err(VariantDeserializeError::InvalidValue { expected, actual })
                    && expected@ == "a string"@ && actual@ == debug_text_of(self@.innermost()),
            },
        decreases self,
    {
        match self {
            Variant::String(s) => Ok(s),
            Variant::ObjectPath(p) => Ok(p.0),
            Variant::Signature(signature) => {
                let s = signature.to_string();
                proof {
                    vstd::utf8::encode_utf8_decode_utf8(s@);
                }
                Ok(s)
            },
            Variant::Variant(inner) => (*inner).into_string(),
            other => Err(
                VariantDeserializeError::InvalidValue {
                    expected: "a string",
                    actual: debug_text(&other),
                },
            ),
        }
    }
}

} // verus!
