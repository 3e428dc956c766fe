//! The text of a signature: how it is printed and how it is parsed.

use crate::signature::{signature_views, Signature, SpecSignature};
use crate::utf8::string_from_utf8;
use vstd::prelude::*;
use vstd::string::StringSliceAdditionalSpecFns;
use vstd::utf8::{encode_utf8, valid_utf8};

verus! {

/// The code `a` in the text of a signature.
pub const CODE_ARRAY: u8 = 0x61;

/// The code `b` in the text of a signature.
pub const CODE_BOOL: u8 = 0x62;

/// The code `d` in the text of a signature.
pub const CODE_F64: u8 = 0x64;

/// The code `g` in the text of a signature.
pub const CODE_SIGNATURE: u8 = 0x67;

/// The code `h` in the text of a signature.
pub const CODE_UNIX_FD: u8 = 0x68;

/// The code `i` in the text of a signature.
pub const CODE_I32: u8 = 0x69;

/// The code `n` in the text of a signature.
pub const CODE_I16: u8 = 0x6e;

/// The code `o` in the text of a signature.
pub const CODE_OBJECT_PATH: u8 = 0x6f;

/// The code `q` in the text of a signature.
pub const CODE_U16: u8 = 0x71;

/// The code `s` in the text of a signature.
pub const CODE_STRING: u8 = 0x73;

/// The code `t` in the text of a signature.
pub const CODE_U64: u8 = 0x74;

/// The code `u` in the text of a signature.
pub const CODE_U32: u8 = 0x75;

/// The code `v` in the text of a signature.
pub const CODE_VARIANT: u8 = 0x76;

/// The code `x` in the text of a signature.
pub const CODE_I64: u8 = 0x78;

/// The code `y` in the text of a signature.
pub const CODE_U8: u8 = 0x79;

/// The code `(` in the text of a signature.
pub const CODE_STRUCT_OPEN: u8 = 0x28;

/// The code `)` in the text of a signature.
pub const CODE_STRUCT_CLOSE: u8 = 0x29;

/// The code `{` in the text of a signature.
pub const CODE_DICT_ENTRY_OPEN: u8 = 0x7b;

/// The code `}` in the text of a signature.
pub const CODE_DICT_ENTRY_CLOSE: u8 = 0x7d;

/// The signature that the single code `c` stands for, if it is the code of a
/// type without parts.
pub open spec fn basic_of_code(c: u8) -> Option<SpecSignature> {
    if c == CODE_BOOL {
        Some(SpecSignature::Bool)
    } else if c == CODE_F64 {
        Some(SpecSignature::F64)
    } else if c == CODE_SIGNATURE {
        Some(SpecSignature::Signature)
    } else if c == CODE_UNIX_FD {
        Some(SpecSignature::UnixFd)
    } else if c == CODE_I32 {
        Some(SpecSignature::I32)
    } else if c == CODE_I16 {
        Some(SpecSignature::I16)
    } else if c == CODE_OBJECT_PATH {
        Some(SpecSignature::ObjectPath)
    } else if c == CODE_U16 {
        Some(SpecSignature::U16)
    } else if c == CODE_STRING {
        Some(SpecSignature::String)
    } else if c == CODE_U64 {
        Some(SpecSignature::U64)
    } else if c == CODE_U32 {
        Some(SpecSignature::U32)
    } else if c == CODE_VARIANT {
        Some(SpecSignature::Variant)
    } else if c == CODE_I64 {
        Some(SpecSignature::I64)
    } else if c == CODE_U8 {
        Some(SpecSignature::U8)
    } else {
        None
    }
}

/// The text of the signature `s`.
pub open spec fn signature_text(s: SpecSignature) -> Seq<u8>
    decreases s,
{
    match s {
        SpecSignature::Array { element } => seq![CODE_ARRAY] + signature_text(*element),
        SpecSignature::Bool => seq![CODE_BOOL],
        SpecSignature::DictEntry { key, value } => seq![CODE_DICT_ENTRY_OPEN] + signature_text(*key)
            + signature_text(*value) + seq![CODE_DICT_ENTRY_CLOSE],
        SpecSignature::F64 => seq![CODE_F64],
        SpecSignature::I16 => seq![CODE_I16],
        SpecSignature::I32 => seq![CODE_I32],
        SpecSignature::I64 => seq![CODE_I64],
        SpecSignature::ObjectPath => seq![CODE_OBJECT_PATH],
        SpecSignature::Signature => seq![CODE_SIGNATURE],
        SpecSignature::String => seq![CODE_STRING],
        SpecSignature::Struct { fields } => seq![CODE_STRUCT_OPEN] + signatures_text(fields) + seq![CODE_STRUCT_CLOSE],
        SpecSignature::Tuple { elements } => signatures_text(elements),
        SpecSignature::U8 => seq![CODE_U8],
        SpecSignature::U16 => seq![CODE_U16],
        SpecSignature::U32 => seq![CODE_U32],
        SpecSignature::U64 => seq![CODE_U64],
        SpecSignature::UnixFd => seq![CODE_UNIX_FD],
        SpecSignature::Variant => seq![CODE_VARIANT],
    }
}

/// The texts of the signatures `ss`, one after the other.
pub open spec fn signatures_text(ss: Seq<SpecSignature>) -> Seq<u8>
    decreases ss,
{
    if ss.len() == 0 {
        Seq::empty()
    } else {
        signature_text(ss[0]) + signatures_text(ss.drop_first())
    }
}

/// One complete type read from `t` at `pos`, with the position behind it.
///
/// A dict entry is read only where it is the element of an array.
pub open spec fn parse_single(t: Seq<u8>, pos: int) -> Option<(SpecSignature, int)>
    decreases t.len() - pos, 0nat,
{
    if pos < 0 || pos >= t.len() {
        None
    } else if t[pos] == CODE_ARRAY {
        if pos + 1 < t.len() && t[pos + 1] == CODE_DICT_ENTRY_OPEN {
            match parse_single(t, pos + 2) {
                None => None,
                Some((key, p1)) => if p1 <= pos || p1 > t.len() {
                    None
                } else {
                    match parse_single(t, p1) {
                        None => None,
                        Some((value, p2)) => if 0 <= p2 < t.len() && t[p2] == CODE_DICT_ENTRY_CLOSE {
                            Some(
                                (
                                    SpecSignature::Array {
                                        element: Box::new(
                                            SpecSignature::DictEntry {
                                                key: Box::new(key),
                                                value: Box::new(value),
                                            },
                                        ),
                                    },
                                    p2 + 1,
                                ),
                            )
                        } else {
                            None
                        },
                    }
                },
            }
        } else {
            match parse_single(t, pos + 1) {
                None => None,
                Some((element, p)) => Some(
                    (SpecSignature::Array { element: Box::new(element) }, p),
                ),
            }
        }
    } else if t[pos] == CODE_STRUCT_OPEN {
        match parse_fields(t, pos + 1) {
            None => None,
            Some((fields, p)) => Some((SpecSignature::Struct { fields }, p)),
        }
    } else {
        match basic_of_code(t[pos]) {
            None => None,
            Some(s) => Some((s, pos + 1)),
        }
    }
}

/// The fields of a struct read from `t` at `pos`, up to and with the closing
/// bracket, with the position behind it.
pub open spec fn parse_fields(t: Seq<u8>, pos: int) -> Option<(Seq<SpecSignature>, int)>
    decreases t.len() - pos, 1nat,
{
    if pos < 0 || pos >= t.len() {
        None
    } else if t[pos] == CODE_STRUCT_CLOSE {
        Some((Seq::empty(), pos + 1))
    } else {
        match parse_single(t, pos) {
            None => None,
            Some((field, p1)) => if p1 <= pos || p1 > t.len() {
                None
            } else {
                match parse_fields(t, p1) {
                    None => None,
                    Some((rest, p2)) => Some((seq![field] + rest, p2)),
                }
            },
        }
    }
}

/// The complete types that `t` holds from `pos` to its end.
pub open spec fn parse_sequence(t: Seq<u8>, pos: int) -> Option<Seq<SpecSignature>>
    decreases t.len() - pos,
{
    if pos < 0 || pos >= t.len() {
        Some(Seq::empty())
    } else {
        match parse_single(t, pos) {
            None => None,
            Some((first, p1)) => if p1 <= pos || p1 > t.len() {
                None
            } else {
                match parse_sequence(t, p1) {
                    None => None,
                    Some(rest) => Some(seq![first] + rest),
                }
            },
        }
    }
}

/// The signature that the text `t` stands for: the one type it holds, or
/// else the tuple of the types it holds.
pub open spec fn parse_text(t: Seq<u8>) -> Option<SpecSignature> {
    match parse_sequence(t, 0) {
        None => None,
        Some(ss) => if ss.len() == 1 {
            Some(ss[0])
        } else {
            Some(SpecSignature::Tuple { elements: ss })
        },
    }
}

/// The text of several signatures is the text of the first ones followed by
/// the text of the others.
pub proof fn lemma_signatures_text_concat(a: Seq<SpecSignature>, b: Seq<SpecSignature>)
    ensures
        signatures_text(a + b) == signatures_text(a) + signatures_text(b),
    decreases a.len(),
{
    if a.len() == 0 {
        assert(a + b =~= b);
    } else {
        lemma_signatures_text_concat(a.drop_first(), b);
        assert((a + b).drop_first() =~= a.drop_first() + b);
        assert(signatures_text(a + b) =~= signatures_text(a) + signatures_text(b));
    }
}

/// Adding one signature at the end adds its text at the end.
pub proof fn lemma_signatures_text_push(a: Seq<SpecSignature>, s: SpecSignature)
    ensures
        signatures_text(a.push(s)) == signatures_text(a) + signature_text(s),
{
    lemma_signatures_text_concat(a, seq![s]);
    assert(a.push(s) =~= a + seq![s]);
    assert(seq![s].drop_first() =~= Seq::<SpecSignature>::empty());
    assert(seq![s][0] == s);
    assert(signatures_text(seq![s].drop_first()) =~= Seq::<u8>::empty());
    assert(signatures_text(seq![s]) =~= signature_text(s));
}

/// Whether every byte of `b` is an ASCII character.
pub open spec fn all_ascii(b: Seq<u8>) -> bool {
    forall|i: int| 0 <= i < b.len() ==> #[trigger] b[i] < 0x80
}

/// Every byte of the text of a signature is an ASCII character.
pub proof fn lemma_signature_text_ascii(s: SpecSignature)
    ensures
        all_ascii(signature_text(s)),
    decreases s,
{
    match s {
        SpecSignature::Array { element } => {
            lemma_signature_text_ascii(*element);
        },
        SpecSignature::DictEntry { key, value } => {
            lemma_signature_text_ascii(*key);
            lemma_signature_text_ascii(*value);
        },
        SpecSignature::Struct { fields } => {
            lemma_signatures_text_ascii(fields);
        },
        SpecSignature::Tuple { elements } => {
            lemma_signatures_text_ascii(elements);
        },
        _ => {},
    }
}

/// Every byte of the text of several signatures is an ASCII character.
pub proof fn lemma_signatures_text_ascii(ss: Seq<SpecSignature>)
    ensures
        all_ascii(signatures_text(ss)),
    decreases ss,
{
    if ss.len() > 0 {
        lemma_signature_text_ascii(ss[0]);
        lemma_signatures_text_ascii(ss.drop_first());
    }
}

/// The text of a signature is valid UTF-8.
pub proof fn lemma_signature_text_utf8(s: SpecSignature)
    ensures
        valid_utf8(signature_text(s)),
{
    let t = signature_text(s);
    lemma_signature_text_ascii(s);
    assert(t.subrange(0, 0) =~= Seq::<u8>::empty());
    assert(valid_utf8(t.subrange(0, 0)));
    vstd::utf8::partial_valid_utf8_extend_ascii_block(t, 0, t.len() as int);
    assert(t.subrange(0, t.len() as int) =~= t);
}

impl Signature {
    /// Appends the text of this signature to `out`.
    pub fn write_text(&self, out: &mut Vec<u8>)
        ensures
            final(out)@ == old(out)@ + signature_text(self@),
        decreases self,
    {
        let ghost before = out@;
        match self {
            Signature::Array { element } => {
                out.push(CODE_ARRAY);
                element.write_text(out);
                assert(out@ =~= before + signature_text(self@));
            },
            Signature::Bool => {
                out.push(CODE_BOOL);
                assert(out@ =~= before + signature_text(self@));
            },
            Signature::DictEntry { key, value } => {
                out.push(CODE_DICT_ENTRY_OPEN);
                key.write_text(out);
                value.write_text(out);
                out.push(CODE_DICT_ENTRY_CLOSE);
                assert(out@ =~= before + signature_text(self@));
            },
            Signature::F64 => {
                out.push(CODE_F64);
                assert(out@ =~= before + signature_text(self@));
            },
            Signature::I16 => {
                out.push(CODE_I16);
                assert(out@ =~= before + signature_text(self@));
            },
            Signature::I32 => {
                out.push(CODE_I32);
                assert(out@ =~= before + signature_text(self@));
            },
            Signature::I64 => {
                out.push(CODE_I64);
                assert(out@ =~= before + signature_text(self@));
            },
            Signature::ObjectPath => {
                out.push(CODE_OBJECT_PATH);
                assert(out@ =~= before + signature_text(self@));
            },
            Signature::Signature => {
                out.push(CODE_SIGNATURE);
                assert(out@ =~= before + signature_text(self@));
            },
            Signature::String => {
                out.push(CODE_STRING);
                assert(out@ =~= before + signature_text(self@));
            },
            Signature::Struct { fields } => {
                out.push(CODE_STRUCT_OPEN);
                Signature::write_texts(fields, out);
                out.push(CODE_STRUCT_CLOSE);
                assert(out@ =~= before + signature_text(self@));
            },
            Signature::Tuple { elements } => {
                Signature::write_texts(elements, out);
            },
            Signature::U8 => {
                out.push(CODE_U8);
                assert(out@ =~= before + signature_text(self@));
            },
            Signature::U16 => {
                out.push(CODE_U16);
                assert(out@ =~= before + signature_text(self@));
            },
            Signature::U32 => {
                out.push(CODE_U32);
                assert(out@ =~= before + signature_text(self@));
            },
            Signature::U64 => {
                out.push(CODE_U64);
                assert(out@ =~= before + signature_text(self@));
            },
            Signature::UnixFd => {
                out.push(CODE_UNIX_FD);
                assert(out@ =~= before + signature_text(self@));
            },
            Signature::Variant => {
                out.push(CODE_VARIANT);
                assert(out@ =~= before + signature_text(self@));
            },
        }
    }

    /// Appends the texts of the signatures `v`, in order, to `out`.
    fn write_texts(v: &Vec<Signature>, out: &mut Vec<u8>)
        ensures
            final(out)@ == old(out)@ + signatures_text(signature_views(v@)),
        decreases v,
    {
        let ghost before = out@;
        let ghost views = signature_views(v@);
        let mut i: usize = 0;
        assert(views.take(0) =~= Seq::<SpecSignature>::empty());
        while i < v.len()
            invariant
                i <= v.len(),
                views == signature_views(v@),
                out@ == before + signatures_text(views.take(i as int)),
            decreases v.len() - i,
        {
            proof {
                lemma_signatures_text_push(views.take(i as int), views[i as int]);
                assert(views.take(i as int).push(views[i as int]) =~= views.take(i + 1));
            }
            v[i].write_text(out);
            i += 1;
            assert(out@ =~= before + signatures_text(views.take(i as int)));
        }
        assert(views.take(v.len() as int) =~= views);
    }

    /// The text of this signature.
    pub fn to_string(&self) -> (s: String)
        ensures
            encode_utf8(s@) == signature_text(self@),
    {
        let mut text: Vec<u8> = Vec::new();
        self.write_text(&mut text);
        proof {
            lemma_signature_text_utf8(self@);
            assert(text@ =~= signature_text(self@));
            vstd::utf8::decode_utf8_encode_utf8(text@);
        }
        match string_from_utf8(text) {
            Some(s) => s,
            None => String::new(),
        }
    }

    /// One complete type read from `text` at `pos`, with the position behind
    /// it.
    fn parse_one(text: &[u8], pos: usize) -> (r: Option<(Signature, usize)>)
        ensures
            match parse_single(text@, pos as int) {
                Some((s, p)) => r matches Some((sig, end)) && sig@ == s && end == p && pos < end
                    <= text@.len(),
                None => r is None,
            },
        decreases text@.len() - pos, 0nat,
    {
        if pos >= text.len() {
            return None;
        }
        let c = text[pos];
        if c == CODE_ARRAY {
            if pos + 1 < text.len() && text[pos + 1] == CODE_DICT_ENTRY_OPEN {
                let (key, p1) = match Signature::parse_one(text, pos + 2) {
                    None => {
                        return None;
                    },
                    Some(found) => found,
                };
                let (value, p2) = match Signature::parse_one(text, p1) {
                    None => {
                        return None;
                    },
                    Some(found) => found,
                };
                if p2 < text.len() && text[p2] == CODE_DICT_ENTRY_CLOSE {
                    let entry = Signature::DictEntry { key: Box::new(key), value: Box::new(value) };
                    assert(entry@ == SpecSignature::DictEntry {
                        key: Box::new(key@),
                        value: Box::new(value@),
                    });
                    Some((Signature::Array { element: Box::new(entry) }, p2 + 1))
                } else {
                    None
                }
            } else {
                match Signature::parse_one(text, pos + 1) {
                    None => None,
                    Some((element, p)) => Some((Signature::Array { element: Box::new(element) }, p)),
                }
            }
        } else if c == CODE_STRUCT_OPEN {
            let mut fields: Vec<Signature> = Vec::new();
            let mut p: usize = pos + 1;
            loop
                invariant
                    pos < p <= text@.len(),
                    text@[pos as int] == CODE_STRUCT_OPEN,
                    match parse_fields(text@, p as int) {
                        Some((rest, end)) => parse_fields(text@, pos + 1) == Some(
                            (signature_views(fields@) + rest, end),
                        ),
                        None => parse_fields(text@, pos + 1) is None,
                    },
                decreases text@.len() - p,
            {
                if p >= text.len() {
                    return None;
                }
                if text[p] == CODE_STRUCT_CLOSE {
                    assert(signature_views(fields@) + Seq::<SpecSignature>::empty()
                        =~= signature_views(fields@));
                    return Some((Signature::Struct { fields }, p + 1));
                }
                let ghost done = signature_views(fields@);
                let (field, p1) = match Signature::parse_one(text, p) {
                    None => {
                        return None;
                    },
                    Some(found) => found,
                };
                fields.push(field);
                proof {
                    assert(signature_views(fields@) =~= done.push(field@));
                    match parse_fields(text@, p1 as int) {
                        Some((rest, end)) => {
                            assert(done + (seq![field@] + rest) =~= done.push(field@) + rest);
                        },
                        None => {},
                    }
                }
                p = p1;
            }
        } else {
            match Signature::basic(c) {
                None => None,
                Some(s) => Some((s, pos + 1)),
            }
        }
    }

    /// The signature without parts whose code is `c`.
    fn basic(c: u8) -> (r: Option<Signature>)
        ensures
            match basic_of_code(c) {
                Some(s) => r matches Some(sig) && sig@ == s,
                None => r is None,
            },
    {
        if c == CODE_BOOL {
            Some(Signature::Bool)
        } else if c == CODE_F64 {
            Some(Signature::F64)
        } else if c == CODE_SIGNATURE {
            Some(Signature::Signature)
        } else if c == CODE_UNIX_FD {
            Some(Signature::UnixFd)
        } else if c == CODE_I32 {
            Some(Signature::I32)
        } else if c == CODE_I16 {
            Some(Signature::I16)
        } else if c == CODE_OBJECT_PATH {
            Some(Signature::ObjectPath)
        } else if c == CODE_U16 {
            Some(Signature::U16)
        } else if c == CODE_STRING {
            Some(Signature::String)
        } else if c == CODE_U64 {
            Some(Signature::U64)
        } else if c == CODE_U32 {
            Some(Signature::U32)
        } else if c == CODE_VARIANT {
            Some(Signature::Variant)
        } else if c == CODE_I64 {
            Some(Signature::I64)
        } else if c == CODE_U8 {
            Some(Signature::U8)
        } else {
            None
        }
    }

    /// The signature that the bytes `text` stand for.
    ///
    /// An empty text is the empty tuple; a text of one complete type is that
    /// type; a text of several is their tuple. A dict entry is accepted only
    /// as the element of an array.
    pub fn parse_bytes(text: &[u8]) -> (r: Result<Signature, ()>)
        ensures
            match parse_text(text@) {
                Some(s) => r matches Ok(sig) && sig@ == s,
                None => r is Err,
            },
            r matches Ok(sig) ==> signature_text(sig@) == text@ && sig@.is_canonical(),
    {
        proof {
            if parse_text(text@) is Some {
                crate::signature_laws::lemma_text_of_parse(text@);
            }
        }
        let mut elements: Vec<Signature> = Vec::new();
        let mut p: usize = 0;
        while p < text.len()
            invariant
                p <= text@.len(),
                match parse_sequence(text@, p as int) {
                    Some(rest) => parse_sequence(text@, 0) == Some(signature_views(elements@) + rest),
                    None => parse_sequence(text@, 0) is None,
                },
            decreases text@.len() - p,
        {
            let ghost done = signature_views(elements@);
            let (element, p1) = match Signature::parse_one(text, p) {
                None => {
                    return Err(());
                },
                Some(found) => found,
            };
            elements.push(element);
            proof {
                assert(signature_views(elements@) =~= done.push(element@));
                match parse_sequence(text@, p1 as int) {
                    Some(rest) => {
                        assert(done + (seq![element@] + rest) =~= done.push(element@) + rest);
                    },
                    None => {},
                }
            }
            p = p1;
        }
        assert(signature_views(elements@) + Seq::<SpecSignature>::empty() =~= signature_views(
            elements@,
        ));
        if elements.len() == 1 {
            match elements.pop() {
                Some(only) => Ok(only),
                None => Err(()),
            }
        } else {
            Ok(Signature::Tuple { elements })
        }
    }

    /// The signature that the text `text` stands for.
    pub fn parse(text: &str) -> (r: Result<Signature, ()>)
        ensures
            match parse_text(text.spec_bytes()) {
                Some(s) => r matches Ok(sig) && sig@ == s,
                None => r is Err,
            },
            r matches Ok(sig) ==> signature_text(sig@) == text.spec_bytes() && sig@.is_canonical(),
    {
        Signature::parse_bytes(text.as_bytes())
    }
}

impl core::str::FromStr for Signature {
    type Err = ();

    fn from_str(s: &str) -> (r: Result<Self, Self::Err>)
        ensures
            match parse_text(s.spec_bytes()) {
                Some(sig) => r matches Ok(found) && found@ == sig,
                None => r is Err,
            },
            r matches Ok(found) ==> signature_text(found@) == s.spec_bytes()
                && found@.is_canonical(),
    {
        Signature::parse(s)
    }
}

} // verus!
