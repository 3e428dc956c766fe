use dbus_pure::as_variant::Entries;
use dbus_pure::std2::{CowRef, CowSlice};
use dbus_pure::{AsVariant, Object, ObjectPath, Signature, ToVariant, UnixFd, Variant};

#[test]
fn cow_ref_gives_its_value() {
    let value = "abc".to_string();
    let borrowed = CowRef::borrowed(&value);
    assert_eq!(borrowed.get(), "abc");
    assert_eq!(borrowed.into_owned(), "abc");
    let owned = CowRef::owned(Box::new(7_u32));
    assert_eq!(*owned.get(), 7);
    assert_eq!(owned.into_owned(), 7);
    assert!(matches!(CowRef::borrowed(&1_u8), CowRef::Borrowed(&1)));
}

#[test]
fn cow_slice_gives_its_elements() {
    let values = vec!["a".to_string(), "b".to_string()];
    let borrowed = CowSlice::borrowed(&values[..]);
    assert_eq!(borrowed.as_slice(), &values[..]);
    assert_eq!(borrowed.into_owned(), values);
    let owned = CowSlice::owned(vec![1_u8, 2, 3]);
    assert_eq!(owned.as_slice(), [1, 2, 3]);
    assert_eq!(owned.into_owned(), [1, 2, 3]);
    assert!(CowSlice::<u8>::borrowed(&[]).into_owned().is_empty());
}

#[test]
fn basic_values_as_variants() {
    assert_eq!(true.as_variant(), Variant::Bool(true));
    assert_eq!((-1_i16).as_variant(), Variant::I16(-1));
    assert_eq!((-2_i32).as_variant(), Variant::I32(-2));
    assert_eq!((-3_i64).as_variant(), Variant::I64(-3));
    assert_eq!(1_u8.as_variant(), Variant::U8(1));
    assert_eq!(2_u16.as_variant(), Variant::U16(2));
    assert_eq!(3_u32.as_variant(), Variant::U32(3));
    assert_eq!(4_u64.as_variant(), Variant::U64(4));
    assert_eq!("a".as_variant(), Variant::String("a".into()));
    assert_eq!("b".to_string().as_variant(), Variant::String("b".into()));
    assert_eq!(UnixFd(5).as_variant(), Variant::UnixFd(UnixFd(5)));
    assert_eq!(
        ObjectPath("/p".into()).as_variant(),
        Variant::ObjectPath(ObjectPath("/p".into()))
    );
    assert_eq!(Signature::U8.as_variant(), Variant::Signature(Signature::U8));
    assert_eq!(6_u32.to_variant(), Variant::U32(6));
}

#[test]
fn signatures_of_types() {
    assert_eq!(<bool as AsVariant>::signature(), Signature::Bool);
    assert_eq!(<i16 as AsVariant>::signature(), Signature::I16);
    assert_eq!(<i32 as AsVariant>::signature(), Signature::I32);
    assert_eq!(<i64 as AsVariant>::signature(), Signature::I64);
    assert_eq!(<u8 as AsVariant>::signature(), Signature::U8);
    assert_eq!(<u16 as AsVariant>::signature(), Signature::U16);
    assert_eq!(<u32 as AsVariant>::signature(), Signature::U32);
    assert_eq!(<u64 as AsVariant>::signature(), Signature::U64);
    assert_eq!(<str as AsVariant>::signature(), Signature::String);
    assert_eq!(<String as AsVariant>::signature(), Signature::String);
    assert_eq!(<UnixFd as AsVariant>::signature(), Signature::UnixFd);
    assert_eq!(<ObjectPath as AsVariant>::signature(), Signature::ObjectPath);
    assert_eq!(<Signature as AsVariant>::signature(), Signature::Signature);
    assert_eq!(<Vec<Vec<u8>> as AsVariant>::signature().to_string(), "aay");
    assert_eq!(<Entries<String, Vec<u32>> as AsVariant>::signature().to_string(), "a{sau}");
}

#[test]
fn a_vector_is_an_array_of_variants() {
    let value = vec![1_u32, 2];
    assert_eq!(
        value.as_variant(),
        Variant::Array {
            element_signature: Signature::U32,
            elements: vec![Variant::U32(1), Variant::U32(2)],
        }
    );
    assert_eq!(value.as_variant().inner_signature(), <Vec<u32> as AsVariant>::signature());
}

#[test]
fn entries_are_an_array_of_dict_entries() {
    let value = Entries(vec![("a".to_string(), 1_u8), ("b".to_string(), 2)]);
    let variant = value.as_variant();
    assert_eq!(
        variant,
        Variant::Array {
            element_signature: Signature::DictEntry {
                key: Box::new(Signature::String),
                value: Box::new(Signature::U8),
            },
            elements: vec![
                Variant::DictEntry {
                    key: Box::new(Variant::String("a".into())),
                    value: Box::new(Variant::U8(1)),
                },
                Variant::DictEntry {
                    key: Box::new(Variant::String("b".into())),
                    value: Box::new(Variant::U8(2)),
                },
            ],
        }
    );
    assert_eq!(variant.inner_signature().to_string(), "a{sy}");
}

struct Bus;

impl Object for Bus {
    fn name(&self) -> &str {
        "org.freedesktop.DBus"
    }

    fn path(&self) -> ObjectPath {
        ObjectPath("/org/freedesktop/DBus".into())
    }
}

#[test]
fn an_object_has_a_name_and_a_path() {
    assert_eq!(Bus.name(), "org.freedesktop.DBus");
    assert_eq!(Bus.path(), ObjectPath("/org/freedesktop/DBus".into()));
}
