use serde_nbt::value::list::MismatchError;
use serde_nbt::value::{Byte, Compound, List, Type, TypeId, Value};

#[test]
fn tag_codes() {
    let tags = [
        TypeId::End,
        TypeId::Byte,
        TypeId::Short,
        TypeId::Int,
        TypeId::Long,
        TypeId::Float,
        TypeId::Double,
        TypeId::ByteArray,
        TypeId::String,
        TypeId::List,
        TypeId::Compound,
        TypeId::IntArray,
        TypeId::LongArray,
    ];
    for (code, tag) in tags.iter().enumerate() {
        assert_eq!(tag.to_u8() as usize, code);
        assert_eq!(TypeId::from_u8(code as u8), Some(*tag));
    }
    assert_eq!(TypeId::from_u8(0x0D), None);
    assert_eq!(TypeId::from_u8(0xFF), None);
    assert_eq!(TypeId::End.to_type(), None);
    assert_eq!(TypeId::Compound.to_type(), Some(Type::Compound));
    assert_eq!(Type::LongArray.to_id(), TypeId::LongArray);
    assert_eq!(Type::Byte.to_id().to_u8(), 1);
    assert_eq!(TypeId::IntArray.as_str(), "IntArray");
}

#[test]
fn byte_remembers_where_it_came_from() {
    assert_eq!(Byte::Boolean(true).to_i8(), 1);
    assert_eq!(Byte::Boolean(false).to_i8(), 0);
    assert_eq!(Byte::Integer(-5).to_i8(), -5);
    assert!(Byte::Integer(-5).to_bool());
    assert!(!Byte::Integer(0).to_bool());
    assert!(Byte::Boolean(true).to_bool());
    assert_eq!(Byte::Boolean(true).get_bool(), Some(true));
    assert_eq!(Byte::Boolean(true).get_i8(), None);
    assert_eq!(Byte::Integer(7).get_i8(), Some(7));
    assert_eq!(Byte::Integer(7).get_bool(), None);
    assert_eq!(Byte::default().get_i8(), Some(0));
    assert_eq!(Byte::from(true).get_bool(), Some(true));
    assert_eq!(Byte::from(3i8).get_i8(), Some(3));
}

#[test]
fn bytes_are_compared_by_number() {
    assert_eq!(Byte::Boolean(true), Byte::Integer(1));
    assert_eq!(Byte::Boolean(false), Byte::Integer(0));
    assert_ne!(Byte::Boolean(true), Byte::Integer(2));
    assert!(Byte::Integer(-1) < Byte::Boolean(false));
    assert!(Byte::Boolean(true) < Byte::Integer(2));
    assert!(Byte::Boolean(true) <= Byte::Integer(1));
}

#[test]
fn value_accessors() {
    let value = Value::Int(5);
    assert_eq!(value.ty(), Type::Int);
    assert!(value.is_int());
    assert!(!value.is_long());
    assert_eq!(value.as_int(), Some(5));
    assert_eq!(value.as_long(), None);
    assert_eq!(value.clone().try_into_int(), Ok(5));
    assert_eq!(value.clone().try_into_short(), Err(Value::Int(5)));
    let text = Value::String("x".to_owned());
    assert_eq!(text.as_string().map(|s| s.as_str()), Some("x"));
    assert_eq!(text.clone().try_into_string(), Ok("x".to_owned()));
    assert!(Value::Float(1.5f32.to_bits()).is_float());
    assert_eq!(Value::Double(2.5f64.to_bits()).as_double(), Some(2.5f64.to_bits()));
    assert!(Value::ByteArray(vec![]).is_byte_array());
    assert!(Value::IntArray(vec![1]).as_int_array().is_some());
    assert!(Value::LongArray(vec![1]).as_long_array().is_some());
    assert!(Value::List(List::Empty).is_list());
    assert!(Value::Compound(Compound::new()).is_compound());
    assert_eq!(Value::Byte(Byte::Integer(1)).as_byte(), Some(Byte::Boolean(true)));
    assert_eq!(Value::Short(3).as_short(), Some(3));
    assert_eq!(Value::Long(3).try_into_long(), Ok(3));
}

#[test]
fn value_clone_is_deep() {
    let mut inner = Compound::new();
    inner.insert("k".to_owned(), Value::List(List::String(vec!["a".to_owned()])));
    let value = Value::List(List::Compound(vec![inner]));
    let copy = value.clone();
    assert_eq!(copy, value);
}

#[test]
fn pushing_another_kind_is_refused_and_changes_nothing() {
    let mut list = List::Empty;
    assert_eq!(list.push_checked(Value::Int(1)), Ok(()));
    assert_eq!(list.push_checked(Value::Int(2)), Ok(()));
    let before = list.clone();
    assert_eq!(
        list.push_checked(Value::String("x".to_owned())),
        Err(Value::String("x".to_owned()))
    );
    assert_eq!(list, before);
    assert_eq!(list, List::Int(vec![1, 2]));
    assert_eq!(list.push_checked(Value::Long(3)), Err(Value::Long(3)));
    assert_eq!(list.len(), 2);
    assert_eq!(list.ty(), Some(Type::Int));
}

#[test]
fn a_typed_empty_list_keeps_its_kind() {
    let mut list = List::with_capacity_and_type(4, Type::Short);
    assert_eq!(list.ty(), Some(Type::Short));
    assert!(list.is_empty());
    assert_eq!(list.push_checked(Value::Int(1)), Err(Value::Int(1)));
    assert_eq!(list.push_checked(Value::Short(1)), Ok(()));
    assert_eq!(list.pop(), Some(Value::Short(1)));
    assert_eq!(list.pop(), None);
    assert_eq!(list.ty(), Some(Type::Short));
    assert_eq!(List::Empty.ty(), None);
    assert_eq!(List::Empty.id(), TypeId::End);
    assert_eq!(List::default(), List::Empty);
}

#[test]
fn list_editing() {
    let mut list = List::from_vec(vec![Value::Int(1), Value::Int(2), Value::Int(3)]);
    assert_eq!(list, List::Int(vec![1, 2, 3]));
    list.insert(1, Value::Int(9));
    assert_eq!(list, List::Int(vec![1, 9, 2, 3]));
    assert_eq!(list.insert_checked(0, Value::Byte(Byte::Integer(0))), Err(Value::Byte(Byte::Integer(0))));
    assert_eq!(list.insert_checked(4, Value::Int(4)), Ok(()));
    assert_eq!(list.remove(0), Value::Int(1));
    assert_eq!(list.swap_remove(0), Value::Int(9));
    assert_eq!(list, List::Int(vec![4, 2, 3]));
    list.truncate(2);
    assert_eq!(list, List::Int(vec![4, 2]));
    list.truncate(5);
    assert_eq!(list.len(), 2);
    assert_eq!(list.clone().into_vec(), vec![Value::Int(4), Value::Int(2)]);
    list.clear();
    assert!(list.is_empty());
    assert_eq!(list.ty(), Some(Type::Int));
    assert_eq!(List::from_vec(vec![]), List::Empty);
    assert_eq!(List::from_value(Value::Long(1)), List::Long(vec![1]));
    assert!(List::String(vec![]).is_string());
    assert_eq!(List::Int(vec![1]).as_int(), Some(&vec![1]));
    assert_eq!(List::Int(vec![1]).try_into_long(), Err(List::Int(vec![1])));
    assert_eq!(List::Int(vec![1]).try_into_int(), Ok(vec![1]));
}

#[test]
fn list_append() {
    let mut a = List::Int(vec![1]);
    let mut b = List::Int(vec![2, 3]);
    a.append(&mut b);
    assert_eq!(a, List::Int(vec![1, 2, 3]));
    assert_eq!(b, List::Empty);
    let mut empty = List::Empty;
    let mut c = List::Long(vec![7]);
    empty.append(&mut c);
    assert_eq!(empty, List::Long(vec![7]));
    assert_eq!(c, List::Empty);
    let mut d = List::String(vec!["x".to_owned()]);
    assert!(a.append_checked(&mut d).is_err());
    assert_eq!(a, List::Int(vec![1, 2, 3]));
    assert_eq!(d, List::String(vec!["x".to_owned()]));
    let mut none = List::Empty;
    assert!(a.append_checked(&mut none).is_err());
    let mut e = List::Int(vec![4]);
    assert!(a.append_checked(&mut e).is_ok());
    assert_eq!(a, List::Int(vec![1, 2, 3, 4]));
    assert_eq!(MismatchError.display(), "the given datatypes did not match");
}

#[test]
fn compound_keeps_insertion_order() {
    let mut compound = Compound::new();
    assert!(compound.is_empty());
    assert_eq!(compound.insert("b".to_owned(), Value::Int(1)), None);
    assert_eq!(compound.insert("a".to_owned(), Value::Int(2)), None);
    assert_eq!(compound.insert("c".to_owned(), Value::Int(3)), None);
    assert_eq!(compound.insert("a".to_owned(), Value::Int(4)), Some(Value::Int(2)));
    assert_eq!(compound.len(), 3);
    assert!(!compound.is_empty());
    let keys: Vec<&str> = (0..3).map(|i| compound.get_index(i).unwrap().0.as_str()).collect();
    assert_eq!(keys, vec!["b", "a", "c"]);
    assert_eq!(compound.get_index(1).unwrap().1, &Value::Int(4));
    assert!(compound.get_index(3).is_none());
    assert_eq!(compound.get("a"), Some(&Value::Int(4)));
    assert_eq!(compound.get("z"), None);
    assert!(compound.contains_key("c"));
    assert!(!compound.contains_key("z"));
}

#[test]
fn compound_removal() {
    let mut compound = Compound::with_capacity(4);
    compound.insert("a".to_owned(), Value::Int(1));
    compound.insert("b".to_owned(), Value::Int(2));
    compound.insert("c".to_owned(), Value::Int(3));
    let copy = compound.clone();
    assert!(copy == compound);
    assert_eq!(compound.shift_remove("a"), Some(Value::Int(1)));
    assert_eq!(compound.shift_remove("a"), None);
    assert_eq!(compound.get_index(0).unwrap().0, "b");
    assert_eq!(compound.get_index(1).unwrap().0, "c");
    assert!(copy != compound);
    assert_eq!(copy.len(), 3);
    assert_eq!(compound.pop(), Some(("c".to_owned(), Value::Int(3))));
    assert_eq!(compound.len(), 1);
    compound.clear();
    assert!(compound.is_empty());
    assert_eq!(compound.pop(), None);
    assert!(Compound::default().is_empty());
}

#[test]
fn checked_list_construction() {
    assert_eq!(List::try_from_vec(vec![]), Ok(List::Empty));
    assert_eq!(
        List::try_from_vec(vec![Value::Short(1), Value::Short(2)]),
        Ok(List::Short(vec![1, 2]))
    );
    let mixed = vec![Value::Short(1), Value::Int(2)];
    assert_eq!(List::try_from_vec(mixed.clone()), Err(mixed));
}

#[test]
fn values_from_what_they_hold() {
    assert_eq!(Value::from(5i16), Value::Short(5));
    assert_eq!(Value::from(5i32), Value::Int(5));
    assert_eq!(Value::from(5i64), Value::Long(5));
    assert_eq!(Value::from(true).as_byte().unwrap().get_bool(), Some(true));
    assert_eq!(Value::from(-3i8).as_byte().unwrap().get_i8(), Some(-3));
    assert_eq!(Value::from(Byte::Integer(2)), Value::Byte(Byte::Integer(2)));
    assert_eq!(Value::from("s".to_owned()), Value::String("s".to_owned()));
    assert_eq!(Value::from(List::Int(vec![1])), Value::List(List::Int(vec![1])));
    assert!(Value::from(Compound::new()).is_compound());
    assert_eq!(Value::from(vec![Byte::Integer(1)]), Value::ByteArray(vec![Byte::Integer(1)]));
    assert_eq!(Value::from(vec![1i32]), Value::IntArray(vec![1]));
    assert_eq!(Value::from(vec![1i64]), Value::LongArray(vec![1]));
}

#[test]
fn compound_keys() {
    let mut compound = Compound::new();
    compound.insert("z".to_owned(), Value::Int(1));
    compound.insert("a".to_owned(), Value::Int(2));
    compound.insert("z".to_owned(), Value::Int(3));
    assert_eq!(compound.keys(), vec!["z".to_owned(), "a".to_owned()]);
    assert!(Compound::new().keys().is_empty());
}
