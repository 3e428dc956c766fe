use dbus_pure::Signature;

fn parsed(text: &str) -> Signature {
    Signature::parse(text).unwrap()
}

#[test]
fn empty_text_is_the_empty_tuple() {
    assert_eq!(parsed(""), Signature::Tuple { elements: vec![] });
    assert_eq!(Signature::Tuple { elements: vec![] }.to_string(), "");
}

#[test]
fn every_basic_code_is_parsed_and_printed() {
    let cases = [
        ("y", Signature::U8),
        ("q", Signature::U16),
        ("u", Signature::U32),
        ("t", Signature::U64),
        ("n", Signature::I16),
        ("i", Signature::I32),
        ("x", Signature::I64),
        ("d", Signature::F64),
        ("b", Signature::Bool),
        ("s", Signature::String),
        ("o", Signature::ObjectPath),
        ("g", Signature::Signature),
        ("h", Signature::UnixFd),
        ("v", Signature::Variant),
    ];
    for (text, signature) in cases {
        assert_eq!(parsed(text), signature);
        assert_eq!(signature.to_string(), text);
    }
}

#[test]
fn several_types_are_a_tuple() {
    let signature = parsed("yat");
    assert_eq!(
        signature,
        Signature::Tuple {
            elements: vec![Signature::U8, Signature::Array { element: Box::new(Signature::U64) }],
        }
    );
    assert_eq!(signature.to_string(), "yat");
}

#[test]
fn nested_containers_round_trip() {
    for text in ["a{qs}", "(uuo(sou)s)", "aa(ya{sv})", "()", "a()", "(a{s(ii)}v)xa{yay}"] {
        assert_eq!(parsed(text).to_string(), text);
    }
    assert_eq!(
        parsed("a{us}"),
        Signature::Array {
            element: Box::new(Signature::DictEntry {
                key: Box::new(Signature::U32),
                value: Box::new(Signature::String),
            }),
        }
    );
    assert_eq!(parsed("()"), Signature::Struct { fields: vec![] });
}

#[test]
fn parse_of_print_gives_the_signature_back() {
    let signature = Signature::Struct {
        fields: vec![
            Signature::Array {
                element: Box::new(Signature::DictEntry {
                    key: Box::new(Signature::String),
                    value: Box::new(Signature::Variant),
                }),
            },
            Signature::Struct { fields: vec![Signature::I16, Signature::ObjectPath] },
        ],
    };
    assert_eq!(signature.to_string(), "(a{sv}(no))");
    assert_eq!(parsed(&signature.to_string()), signature);
}

#[test]
fn a_tuple_of_one_type_is_not_what_its_text_stands_for() {
    let tuple = Signature::Tuple { elements: vec![Signature::U8] };
    assert_eq!(tuple.to_string(), "y");
    assert_eq!(parsed("y"), Signature::U8);
}

#[test]
fn malformed_texts_are_rejected() {
    for text in ["a", "(", "(y", ")", "{ys}", "a{y}", "a{ysu}", "a{ys", "z", "y z", "(a)", "é"] {
        assert!(Signature::parse(text).is_err(), "{text:?} was accepted");
    }
}

#[test]
fn a_dict_entry_is_accepted_only_as_the_element_of_an_array() {
    assert!(Signature::parse("{ys}").is_err());
    assert!(Signature::parse("({ys})").is_err());
    assert!(Signature::parse("y{ys}").is_err());
    assert!(Signature::parse("a{ys}").is_ok());
    assert!(Signature::parse("(a{ys})").is_ok());
}

#[test]
fn from_str_parses() {
    let signature: Signature = "a(ys)".parse().unwrap();
    assert_eq!(signature.to_string(), "a(ys)");
    assert!("a(ys".parse::<Signature>().is_err());
}

#[test]
fn alignments() {
    let cases = [
        ("y", 1),
        ("g", 1),
        ("v", 1),
        ("yy", 1),
        ("q", 2),
        ("n", 2),
        ("b", 4),
        ("u", 4),
        ("i", 4),
        ("h", 4),
        ("o", 4),
        ("s", 4),
        ("ay", 4),
        ("t", 8),
        ("x", 8),
        ("d", 8),
        ("(y)", 8),
    ];
    for (text, alignment) in cases {
        assert_eq!(parsed(text).alignment(), alignment, "{text}");
    }
    let entry = Signature::DictEntry {
        key: Box::new(Signature::U8),
        value: Box::new(Signature::U8),
    };
    assert_eq!(entry.alignment(), 8);
}

#[test]
fn clone_and_same() {
    let signature = parsed("a{s(iv)}");
    let copy = signature.clone();
    assert!(signature.same(&copy));
    assert!(!signature.same(&parsed("a{s(iu)}")));
    assert_eq!(signature, copy);
}
