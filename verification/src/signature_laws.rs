//! What holds between the text of a signature and the signature read from a
//! text.

use crate::signature::SpecSignature;
use crate::signature_text::{
    basic_of_code, parse_fields, parse_sequence, parse_single, parse_text, signature_text,
    signatures_text, CODE_ARRAY, CODE_DICT_ENTRY_CLOSE, CODE_DICT_ENTRY_OPEN, CODE_STRUCT_CLOSE,
    CODE_STRUCT_OPEN,
};
use vstd::prelude::*;

verus! {

impl SpecSignature {
    /// Whether this signature is one complete type: it holds no tuple, and
    /// it holds a dict entry only as the element of an array.
    pub open spec fn is_single(self) -> bool
        decreases self,
    {
        match self {
            SpecSignature::Array { element } => match *element {
                SpecSignature::DictEntry { key, value } => key.is_single() && value.is_single(),
                _ => element.is_single(),
            },
            SpecSignature::DictEntry { .. } => false,
            SpecSignature::Struct { fields } => all_single(fields),
            SpecSignature::Tuple { .. } => false,
            _ => true,
        }
    }

    /// Whether this signature is what some text stands for: one complete
    /// type, or a tuple of none or of several complete types.
    pub open spec fn is_canonical(self) -> bool {
        self.is_single() || (self matches SpecSignature::Tuple { elements } && elements.len() != 1
            && all_single(elements))
    }
}

/// Whether each of the signatures `ss` is one complete type.
pub open spec fn all_single(ss: Seq<SpecSignature>) -> bool
    decreases ss,
{
    ss.len() == 0 || (ss[0].is_single() && all_single(ss.drop_first()))
}

/// Whether the bytes `piece` stand in `t` from `pos` on.
pub open spec fn occurs_at(t: Seq<u8>, pos: int, piece: Seq<u8>) -> bool {
    0 <= pos && pos + piece.len() <= t.len() && t.subrange(pos, pos + piece.len()) == piece
}

pub proof fn lemma_occurs_split(t: Seq<u8>, pos: int, a: Seq<u8>, b: Seq<u8>)
    requires
        occurs_at(t, pos, a + b),
    ensures
        occurs_at(t, pos, a),
        occurs_at(t, pos + a.len(), b),
{
    let whole = t.subrange(pos, pos + (a + b).len());
    assert(t.subrange(pos, pos + a.len()) =~= whole.subrange(0, a.len() as int));
    assert((a + b).subrange(0, a.len() as int) =~= a);
    assert(t.subrange(pos + a.len(), pos + a.len() + b.len()) =~= whole.subrange(
        a.len() as int,
        (a + b).len() as int,
    ));
    assert((a + b).subrange(a.len() as int, (a + b).len() as int) =~= b);
}

pub proof fn lemma_occurs_join(t: Seq<u8>, pos: int, a: Seq<u8>, b: Seq<u8>)
    requires
        occurs_at(t, pos, a),
        occurs_at(t, pos + a.len(), b),
    ensures
        occurs_at(t, pos, a + b),
{
    assert(t.subrange(pos, pos + (a + b).len()) =~= t.subrange(pos, pos + a.len()) + t.subrange(
        pos + a.len(),
        pos + a.len() + b.len(),
    ));
}

pub proof fn lemma_occurs_one(t: Seq<u8>, pos: int, c: u8)
    ensures
        occurs_at(t, pos, seq![c]) <==> (0 <= pos < t.len() && t[pos] == c),
{
    if 0 <= pos < t.len() {
        if t[pos] == c {
            assert(t.subrange(pos, pos + 1) =~= seq![c]);
        } else {
            assert(t.subrange(pos, pos + 1)[0] == t[pos]);
        }
    }
}

/// The text of a complete type starts with a code that opens a type.
pub proof fn lemma_first_code(s: SpecSignature)
    requires
        s.is_single(),
    ensures
        signature_text(s).len() >= 1,
        signature_text(s)[0] != CODE_STRUCT_CLOSE,
        signature_text(s)[0] != CODE_DICT_ENTRY_OPEN,
        signature_text(s)[0] != CODE_DICT_ENTRY_CLOSE,
        s is Array <==> signature_text(s)[0] == CODE_ARRAY,
        s is Struct <==> signature_text(s)[0] == CODE_STRUCT_OPEN,
        !(s is Array) && !(s is Struct) ==> signature_text(s) == seq![signature_text(s)[0]]
            && basic_of_code(signature_text(s)[0]) == Some(s),
{
}

/// A text that starts at `pos` with the text of a complete type is parsed
/// there as that type.
pub proof fn lemma_parse_single_of_text(s: SpecSignature, t: Seq<u8>, pos: int)
    requires
        s.is_single(),
        occurs_at(t, pos, signature_text(s)),
    ensures
        parse_single(t, pos) == Some((s, pos + signature_text(s).len())),
    decreases s, 0nat,
{
    lemma_first_code(s);
    let text = signature_text(s);
    assert(t[pos] == t.subrange(pos, pos + text.len())[0]);
    match s {
        SpecSignature::Array { element } => {
            let inner = signature_text(*element);
            lemma_occurs_split(t, pos, seq![CODE_ARRAY], inner);
            match *element {
                SpecSignature::DictEntry { key, value } => {
                    let k = signature_text(*key);
                    let v = signature_text(*value);
                    assert(inner == seq![CODE_DICT_ENTRY_OPEN] + k + v + seq![
                        CODE_DICT_ENTRY_CLOSE,
                    ]);
                    lemma_occurs_split(
                        t,
                        pos + 1,
                        seq![CODE_DICT_ENTRY_OPEN] + k + v,
                        seq![CODE_DICT_ENTRY_CLOSE],
                    );
                    lemma_occurs_split(t, pos + 1, seq![CODE_DICT_ENTRY_OPEN] + k, v);
                    lemma_occurs_split(t, pos + 1, seq![CODE_DICT_ENTRY_OPEN], k);
                    lemma_occurs_one(t, pos + 1, CODE_DICT_ENTRY_OPEN);
                    lemma_occurs_one(t, pos + 2 + k.len() + v.len(), CODE_DICT_ENTRY_CLOSE);
                    lemma_first_code(*key);
                    lemma_first_code(*value);
                    lemma_parse_single_of_text(*key, t, pos + 2);
                    lemma_parse_single_of_text(*value, t, pos + 2 + k.len());
                },
                _ => {
                    lemma_first_code(*element);
                    assert(t[pos + 1] == t.subrange(pos + 1, pos + 1 + inner.len())[0]);
                    lemma_parse_single_of_text(*element, t, pos + 1);
                },
            }
        },
        SpecSignature::Struct { fields } => {
            let inner = signatures_text(fields);
            lemma_occurs_split(t, pos, seq![CODE_STRUCT_OPEN] + inner, seq![CODE_STRUCT_CLOSE]);
            lemma_occurs_split(t, pos, seq![CODE_STRUCT_OPEN], inner);
            lemma_occurs_join(t, pos + 1, inner, seq![CODE_STRUCT_CLOSE]);
            lemma_parse_fields_of_text(fields, t, pos + 1);
        },
        _ => {},
    }
}

/// A text that holds at `pos` the texts of complete types and then a closing
/// bracket is parsed there as the fields of a struct.
pub proof fn lemma_parse_fields_of_text(fields: Seq<SpecSignature>, t: Seq<u8>, pos: int)
    requires
        all_single(fields),
        occurs_at(t, pos, signatures_text(fields) + seq![CODE_STRUCT_CLOSE]),
    ensures
        parse_fields(t, pos) == Some((fields, pos + signatures_text(fields).len() + 1)),
    decreases fields, 1nat,
{
    if fields.len() == 0 {
        lemma_occurs_split(t, pos, signatures_text(fields), seq![CODE_STRUCT_CLOSE]);
        lemma_occurs_one(t, pos, CODE_STRUCT_CLOSE);
        assert(fields =~= Seq::<SpecSignature>::empty());
    } else {
        let first = signature_text(fields[0]);
        let rest = signatures_text(fields.drop_first());
        assert(signatures_text(fields) + seq![CODE_STRUCT_CLOSE] =~= first + (rest + seq![
            CODE_STRUCT_CLOSE,
        ]));
        lemma_occurs_split(t, pos, first, rest + seq![CODE_STRUCT_CLOSE]);
        assert(fields[0].is_single());
        lemma_first_code(fields[0]);
        assert(t[pos] == t.subrange(pos, pos + first.len())[0]);
        lemma_parse_single_of_text(fields[0], t, pos);
        lemma_parse_fields_of_text(fields.drop_first(), t, pos + first.len());
        assert(seq![fields[0]] + fields.drop_first() =~= fields);
    }
}

/// A text that holds from `pos` to its end the texts of complete types is
/// parsed there as those types.
pub proof fn lemma_parse_sequence_of_text(ss: Seq<SpecSignature>, t: Seq<u8>, pos: int)
    requires
        all_single(ss),
        occurs_at(t, pos, signatures_text(ss)),
        pos + signatures_text(ss).len() == t.len(),
    ensures
        parse_sequence(t, pos) == Some(ss),
    decreases ss.len(),
{
    if ss.len() == 0 {
        assert(ss =~= Seq::<SpecSignature>::empty());
    } else {
        let first = signature_text(ss[0]);
        let rest = signatures_text(ss.drop_first());
        lemma_occurs_split(t, pos, first, rest);
        assert(ss[0].is_single());
        lemma_first_code(ss[0]);
        lemma_parse_single_of_text(ss[0], t, pos);
        lemma_parse_sequence_of_text(ss.drop_first(), t, pos + first.len());
        assert(seq![ss[0]] + ss.drop_first() =~= ss);
    }
}

/// Parsing the text of a signature gives the signature back, where the
/// signature is one that a text can stand for.
pub proof fn lemma_parse_of_text(s: SpecSignature)
    requires
        s.is_canonical(),
    ensures
        parse_text(signature_text(s)) == Some(s),
{
    let t = signature_text(s);
    assert(t.subrange(0, t.len() as int) =~= t);
    if s.is_single() {
        let ss = seq![s];
        assert(ss.drop_first() =~= Seq::<SpecSignature>::empty());
        assert(signatures_text(ss.drop_first()) =~= Seq::<u8>::empty());
        assert(ss[0] == s);
        assert(signatures_text(ss) =~= t);
        assert(all_single(ss.drop_first()));
        assert(all_single(ss));
        lemma_parse_sequence_of_text(ss, t, 0);
    } else {
        let elements = s->Tuple_elements;
        lemma_parse_sequence_of_text(elements, t, 0);
    }
}

/// What is parsed as one complete type is a complete type whose text stands
/// where it was read.
pub proof fn lemma_text_of_parse_single(t: Seq<u8>, pos: int)
    requires
        parse_single(t, pos) is Some,
    ensures
        parse_single(t, pos).unwrap().0.is_single(),
        occurs_at(t, pos, signature_text(parse_single(t, pos).unwrap().0)),
        parse_single(t, pos).unwrap().1 == pos + signature_text(parse_single(t, pos).unwrap().0).len(),
        signature_text(parse_single(t, pos).unwrap().0).len() >= 1,
    decreases t.len() - pos, 0nat,
{
    let s = parse_single(t, pos).unwrap().0;
    if t[pos] == CODE_ARRAY {
        if pos + 1 < t.len() && t[pos + 1] == CODE_DICT_ENTRY_OPEN {
            lemma_text_of_parse_single(t, pos + 2);
            let (key, p1) = parse_single(t, pos + 2).unwrap();
            lemma_text_of_parse_single(t, p1);
            let (value, p2) = parse_single(t, p1).unwrap();
            let k = signature_text(key);
            let v = signature_text(value);
            let entry = SpecSignature::DictEntry { key: Box::new(key), value: Box::new(value) };
            assert(signature_text(entry) == seq![CODE_DICT_ENTRY_OPEN] + k + v + seq![
                CODE_DICT_ENTRY_CLOSE,
            ]);
            lemma_occurs_one(t, pos, CODE_ARRAY);
            lemma_occurs_one(t, pos + 1, CODE_DICT_ENTRY_OPEN);
            lemma_occurs_one(t, p2, CODE_DICT_ENTRY_CLOSE);
            lemma_occurs_join(t, pos + 1, seq![CODE_DICT_ENTRY_OPEN], k);
            lemma_occurs_join(t, pos + 1, seq![CODE_DICT_ENTRY_OPEN] + k, v);
            lemma_occurs_join(
                t,
                pos + 1,
                seq![CODE_DICT_ENTRY_OPEN] + k + v,
                seq![CODE_DICT_ENTRY_CLOSE],
            );
            lemma_occurs_join(t, pos, seq![CODE_ARRAY], signature_text(entry));
            assert(s == SpecSignature::Array { element: Box::new(entry) });
            assert(s.is_single());
        } else {
            lemma_text_of_parse_single(t, pos + 1);
            let (element, p) = parse_single(t, pos + 1).unwrap();
            lemma_occurs_one(t, pos, CODE_ARRAY);
            lemma_occurs_join(t, pos, seq![CODE_ARRAY], signature_text(element));
            assert(!(element is DictEntry));
            assert(s == SpecSignature::Array { element: Box::new(element) });
            assert(s.is_single());
        }
    } else if t[pos] == CODE_STRUCT_OPEN {
        lemma_text_of_parse_fields(t, pos + 1);
        let (fields, p) = parse_fields(t, pos + 1).unwrap();
        lemma_occurs_one(t, pos, CODE_STRUCT_OPEN);
        lemma_occurs_split(t, pos + 1, signatures_text(fields), seq![CODE_STRUCT_CLOSE]);
        lemma_occurs_join(t, pos, seq![CODE_STRUCT_OPEN], signatures_text(fields));
        lemma_occurs_join(
            t,
            pos,
            seq![CODE_STRUCT_OPEN] + signatures_text(fields),
            seq![CODE_STRUCT_CLOSE],
        );
        assert(s == SpecSignature::Struct { fields });
        assert(s.is_single());
    } else {
        lemma_occurs_one(t, pos, t[pos]);
        assert(s.is_single());
    }
}

/// What is parsed as the fields of a struct are complete types whose texts,
/// with the closing bracket, stand where they were read.
pub proof fn lemma_text_of_parse_fields(t: Seq<u8>, pos: int)
    requires
        parse_fields(t, pos) is Some,
    ensures
        all_single(parse_fields(t, pos).unwrap().0),
        occurs_at(t, pos, signatures_text(parse_fields(t, pos).unwrap().0) + seq![CODE_STRUCT_CLOSE]),
        parse_fields(t, pos).unwrap().1 == pos + signatures_text(parse_fields(t, pos).unwrap().0).len() + 1,
    decreases t.len() - pos, 1nat,
{
    if t[pos] == CODE_STRUCT_CLOSE {
        lemma_occurs_one(t, pos, CODE_STRUCT_CLOSE);
        assert(signatures_text(Seq::<SpecSignature>::empty()) + seq![CODE_STRUCT_CLOSE] =~= seq![
            CODE_STRUCT_CLOSE,
        ]);
    } else {
        lemma_text_of_parse_single(t, pos);
        let (field, p1) = parse_single(t, pos).unwrap();
        lemma_text_of_parse_fields(t, p1);
        let (rest, p2) = parse_fields(t, p1).unwrap();
        let fields = seq![field] + rest;
        assert(fields.drop_first() =~= rest);
        assert(fields[0] == field);
        lemma_occurs_join(
            t,
            pos,
            signature_text(field),
            signatures_text(rest) + seq![CODE_STRUCT_CLOSE],
        );
        assert(signature_text(field) + (signatures_text(rest) + seq![CODE_STRUCT_CLOSE])
            =~= signatures_text(fields) + seq![CODE_STRUCT_CLOSE]);
    }
}

/// What is parsed as a sequence of complete types are complete types whose
/// texts fill the text from where they were read to its end.
pub proof fn lemma_text_of_parse_sequence(t: Seq<u8>, pos: int)
    requires
        0 <= pos <= t.len(),
        parse_sequence(t, pos) is Some,
    ensures
        all_single(parse_sequence(t, pos).unwrap()),
        t.subrange(pos, t.len() as int) == signatures_text(parse_sequence(t, pos).unwrap()),
    decreases t.len() - pos,
{
    if pos >= t.len() {
        assert(t.subrange(pos, t.len() as int) =~= Seq::<u8>::empty());
    } else {
        lemma_text_of_parse_single(t, pos);
        let (first, p1) = parse_single(t, pos).unwrap();
        lemma_text_of_parse_sequence(t, p1);
        let rest = parse_sequence(t, p1).unwrap();
        let ss = seq![first] + rest;
        assert(ss.drop_first() =~= rest);
        assert(ss[0] == first);
        assert(t.subrange(pos, t.len() as int) =~= t.subrange(pos, p1) + t.subrange(
            p1,
            t.len() as int,
        ));
    }
}

/// The signature parsed from a text is one that a text can stand for, and
/// its text is the text it was parsed from.
pub proof fn lemma_text_of_parse(t: Seq<u8>)
    requires
        parse_text(t) is Some,
    ensures
        parse_text(t).unwrap().is_canonical(),
        signature_text(parse_text(t).unwrap()) == t,
{
    lemma_text_of_parse_sequence(t, 0);
    let ss = parse_sequence(t, 0).unwrap();
    assert(t.subrange(0, t.len() as int) =~= t);
    if ss.len() == 1 {
        assert(ss[0].is_single());
        assert(ss.drop_first() =~= Seq::<SpecSignature>::empty());
        assert(signatures_text(ss.drop_first()) =~= Seq::<u8>::empty());
        assert(signatures_text(ss) =~= signature_text(ss[0]));
    }
}

/// No two signatures that a text can stand for have the same text.
pub proof fn lemma_text_decides_signature(a: SpecSignature, b: SpecSignature)
    requires
        a.is_canonical(),
        b.is_canonical(),
        signature_text(a) == signature_text(b),
    ensures
        a == b,
{
    lemma_parse_of_text(a);
    lemma_parse_of_text(b);
}

} // verus!
