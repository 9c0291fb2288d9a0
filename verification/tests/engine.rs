use serde_nbt::binary::ser::{to_be_vec, BeEncoder, BinaryEmitter, VarintEncoder};
use serde_nbt::error::{Category, Path, Position};
use serde_nbt::ser::shape::{collect_key, plan_root, query_kind, Key, RootPlan, Shape};
use serde_nbt::ser::{Emit, MapSerializer, SeqSerializer, Serializer};
use serde_nbt::util::{ArrayBrand, SeqKind};
use serde_nbt::value::ser::ValueSerializer;
use serde_nbt::value::{Byte, Compound, List, Type, TypeId, Value};

#[test]
fn to_value_bool() {
    let serializer = ValueSerializer::new(true);
    assert_eq!(serializer.serialize_bool(true), Value::Byte(Byte::Boolean(true)));
    assert_eq!(serializer.serialize_bool(false), Value::Byte(Byte::Boolean(false)));
    assert_eq!(serializer.serialize_bool(true).as_byte().unwrap().get_bool(), Some(true));
}

#[test]
fn to_value_i8() {
    let serializer = ValueSerializer::new(true);
    assert_eq!(serializer.serialize_i8(i8::MIN), Value::Byte(Byte::Integer(i8::MIN)));
    assert_eq!(serializer.serialize_i8(i8::MAX), Value::Byte(Byte::Integer(i8::MAX)));
}

#[test]
fn to_value_i16() {
    let serializer = ValueSerializer::new(true);
    assert_eq!(serializer.serialize_i16(i16::MIN), Value::Short(i16::MIN));
    assert_eq!(serializer.serialize_i16(i16::MAX), Value::Short(i16::MAX));
}

#[test]
fn to_value_i32() {
    let serializer = ValueSerializer::new(true);
    assert_eq!(serializer.serialize_i32(i32::MIN), Value::Int(i32::MIN));
    assert_eq!(serializer.serialize_i32(i32::MAX), Value::Int(i32::MAX));
}

#[test]
fn to_value_i64() {
    let serializer = ValueSerializer::new(true);
    assert_eq!(serializer.serialize_i64(i64::MIN), Value::Long(i64::MIN));
    assert_eq!(serializer.serialize_i64(i64::MAX), Value::Long(i64::MAX));
}

#[test]
fn to_value_f32() {
    let serializer = ValueSerializer::new(true);
    assert_eq!(serializer.serialize_f32(f32::MIN.to_bits()), Value::Float(f32::MIN.to_bits()));
    assert_eq!(serializer.serialize_f32(f32::MAX.to_bits()), Value::Float(f32::MAX.to_bits()));
}

#[test]
fn to_value_f64() {
    let serializer = ValueSerializer::new(true);
    assert_eq!(serializer.serialize_f64(f64::MIN.to_bits()), Value::Double(f64::MIN.to_bits()));
    assert_eq!(serializer.serialize_f64(f64::MAX.to_bits()), Value::Double(f64::MAX.to_bits()));
}

#[test]
fn to_value_string() {
    let serializer = ValueSerializer::new(true);
    assert_eq!(
        serializer.serialize_str("Hello, world!"),
        Value::String("Hello, world!".to_owned())
    );
    assert!(serializer.is_human_readable());
    assert!(!ValueSerializer::new(false).is_human_readable());
}

#[test]
fn building_a_list_and_an_array() {
    let mut serializer = ValueSerializer::new(false);
    let mut seq = serde_nbt::value::ser::SeqSerializer::new(None, Some(2));
    seq.begin_element(&mut serializer);
    seq.end_element(&mut serializer, Value::Int(1)).unwrap();
    seq.begin_element(&mut serializer);
    seq.end_element(&mut serializer, Value::Int(2)).unwrap();
    seq.begin_element(&mut serializer);
    let error = seq.end_element(&mut serializer, Value::String("x".to_owned())).unwrap_err();
    assert_eq!(error.get_category(), Category::InvalidInput);
    assert_eq!(
        error.get_message().as_str(),
        "NBT does not support mixed sequences (got String, expected Int)"
    );
    assert_eq!(error.get_position().display(), " at path `[2]`");
    assert_eq!(seq.end(), Value::List(List::Int(vec![1, 2])));

    let mut array = serde_nbt::value::ser::SeqSerializer::new(Some(ArrayBrand::Long), None);
    array.begin_element(&mut serializer);
    assert!(array.end_element(&mut serializer, Value::Int(1)).is_err());
    array.begin_element(&mut serializer);
    array.end_element(&mut serializer, Value::Long(5)).unwrap();
    assert_eq!(array.end(), Value::LongArray(vec![5]));
    let empty = serde_nbt::value::ser::SeqSerializer::new(Some(ArrayBrand::Byte), Some(0));
    assert_eq!(empty.end(), Value::ByteArray(vec![]));
    let empty = serde_nbt::value::ser::SeqSerializer::new(None, Some(0));
    assert_eq!(empty.end(), Value::List(List::Empty));
}

#[test]
fn building_a_compound() {
    let mut serializer = ValueSerializer::new(false);
    let mut map = serde_nbt::value::ser::MapSerializer::new(Some(2));
    map.serialize_key(&mut serializer, "a".to_owned());
    map.serialize_value(&mut serializer, Value::Int(1));
    map.serialize_field("b", Value::Int(2));
    map.serialize_field("a", Value::Int(3));
    let mut expected = Compound::new();
    expected.insert("a".to_owned(), Value::Int(3));
    expected.insert("b".to_owned(), Value::Int(2));
    assert_eq!(map.end(), Value::Compound(expected));
}

#[test]
fn kind_probe() {
    let mut path = Path::new();
    assert_eq!(query_kind(Shape::Bool, &mut path).unwrap(), Type::Byte);
    assert_eq!(query_kind(Shape::I8, &mut path).unwrap(), Type::Byte);
    assert_eq!(query_kind(Shape::I16, &mut path).unwrap(), Type::Short);
    assert_eq!(query_kind(Shape::I32, &mut path).unwrap(), Type::Int);
    assert_eq!(query_kind(Shape::I64, &mut path).unwrap(), Type::Long);
    assert_eq!(query_kind(Shape::F32, &mut path).unwrap(), Type::Float);
    assert_eq!(query_kind(Shape::F64, &mut path).unwrap(), Type::Double);
    assert_eq!(query_kind(Shape::Char, &mut path).unwrap(), Type::String);
    assert_eq!(query_kind(Shape::Str, &mut path).unwrap(), Type::String);
    assert_eq!(query_kind(Shape::UnitVariant, &mut path).unwrap(), Type::String);
    assert_eq!(query_kind(Shape::Sequence, &mut path).unwrap(), Type::List);
    assert_eq!(query_kind(Shape::Tuple, &mut path).unwrap(), Type::List);
    assert_eq!(query_kind(Shape::TupleStruct(None), &mut path).unwrap(), Type::List);
    assert_eq!(
        query_kind(Shape::TupleStruct(Some(ArrayBrand::Int)), &mut path).unwrap(),
        Type::IntArray
    );
    assert_eq!(
        query_kind(Shape::TupleVariant(Some(ArrayBrand::Byte)), &mut path).unwrap(),
        Type::ByteArray
    );
    assert_eq!(query_kind(Shape::Mapping, &mut path).unwrap(), Type::Compound);
    assert_eq!(query_kind(Shape::Struct, &mut path).unwrap(), Type::Compound);
    assert_eq!(query_kind(Shape::StructVariant, &mut path).unwrap(), Type::Compound);
    assert_eq!(query_kind(Shape::NewtypeVariant, &mut path).unwrap(), Type::Compound);
    path.enter_scope("f".to_owned());
    let error = query_kind(Shape::U64, &mut path).unwrap_err();
    assert_eq!(error.get_category(), Category::InvalidInput);
    assert_eq!(error.get_message().as_str(), "NBT does not support `u64` values");
    assert_eq!(error.get_position().display(), " at path `f`");
    assert!(path.is_empty());
    for shape in [Shape::I128, Shape::U8, Shape::Bytes, Shape::Nothing, Shape::Unit, Shape::UnitStruct] {
        assert!(query_kind(shape, &mut path).is_err());
    }
    assert_eq!(Shape::Unit.display(), "`()`");
    assert_eq!(Shape::TupleStruct(Some(ArrayBrand::Long)).display(), "long array");
}

#[test]
fn keys() {
    let mut path = Path::new();
    assert_eq!(collect_key(Key::Bool(true), &mut path).unwrap(), "true");
    assert_eq!(collect_key(Key::Bool(false), &mut path).unwrap(), "false");
    assert_eq!(collect_key(Key::Signed(-128), &mut path).unwrap(), "-128");
    assert_eq!(collect_key(Key::Signed(0), &mut path).unwrap(), "0");
    assert_eq!(
        collect_key(Key::Signed(i128::MIN), &mut path).unwrap(),
        "-170141183460469231731687303715884105728"
    );
    assert_eq!(
        collect_key(Key::Unsigned(u128::MAX), &mut path).unwrap(),
        "340282366920938463463374607431768211455"
    );
    assert_eq!(collect_key(Key::Unsigned(1005), &mut path).unwrap(), "1005");
    assert_eq!(collect_key(Key::Str("name"), &mut path).unwrap(), "name");
    assert_eq!(collect_key(Key::Bytes(b"raw"), &mut path).unwrap(), "raw");
    assert_eq!(collect_key(Key::UnitVariant("Variant"), &mut path).unwrap(), "Variant");
    assert!(path.is_empty());
    path.enter_scope("m".to_owned());
    let error = collect_key(Key::Bytes(&[0xFF]), &mut path).unwrap_err();
    assert_eq!(error.get_message().as_str(), "NBT does not support non-UTF8 `&[u8]` keys");
    assert_eq!(error.get_position().display(), " at path `m[????]`");
    assert!(path.is_empty());
    let error = collect_key(Key::Other(Shape::F32), &mut path).unwrap_err();
    assert_eq!(error.get_message().as_str(), "NBT does not support `f32` keys");
    assert_eq!(error.get_position().display(), " at path `[????]`");
    let error = collect_key(Key::Other(Shape::TupleStruct(None)), &mut path).unwrap_err();
    assert_eq!(error.get_message().as_str(), "NBT does not support tuple struct keys");
    let error = collect_key(Key::Other(Shape::Mapping), &mut path).unwrap_err();
    assert_eq!(error.get_message().as_str(), "NBT does not support map keys");
}

#[test]
fn roots() {
    let mut path = Path::new();
    assert_eq!(plan_root(Shape::Mapping, false, &mut path).unwrap(), RootPlan::Compound);
    assert_eq!(plan_root(Shape::Struct, false, &mut path).unwrap(), RootPlan::Compound);
    assert_eq!(plan_root(Shape::Unit, false, &mut path).unwrap(), RootPlan::Nothing);
    assert_eq!(plan_root(Shape::Nothing, true, &mut path).unwrap(), RootPlan::Nothing);
    assert_eq!(plan_root(Shape::Sequence, true, &mut path).unwrap(), RootPlan::List);
    assert_eq!(plan_root(Shape::TupleStruct(None), true, &mut path).unwrap(), RootPlan::List);
    assert_eq!(
        plan_root(Shape::TupleVariant(Some(ArrayBrand::Int)), true, &mut path).unwrap(),
        RootPlan::TupleVariant(Some(ArrayBrand::Int))
    );
    assert_eq!(plan_root(Shape::StructVariant, false, &mut path).unwrap(), RootPlan::StructVariant);
    assert_eq!(plan_root(Shape::NewtypeVariant, false, &mut path).unwrap(), RootPlan::NewtypeVariant);
    let error = plan_root(Shape::Sequence, false, &mut path).unwrap_err();
    assert_eq!(error.get_message().as_str(), "NBT does not support sequence root values");
    let error = plan_root(Shape::TupleStruct(Some(ArrayBrand::Byte)), true, &mut path).unwrap_err();
    assert_eq!(error.get_message().as_str(), "NBT does not support byte array root values");
    let error = plan_root(Shape::Bool, true, &mut path).unwrap_err();
    assert_eq!(error.get_message().as_str(), "NBT does not support `bool` values");
    assert_eq!(error.get_position(), &Position::Path(Path::new()));
}

#[test]
fn array_brands() {
    assert_eq!(ArrayBrand::from_str("__serde_nbt_byte_array"), Some(ArrayBrand::Byte));
    assert_eq!(ArrayBrand::from_str("__serde_nbt_int_array"), Some(ArrayBrand::Int));
    assert_eq!(ArrayBrand::from_str("__serde_nbt_long_array"), Some(ArrayBrand::Long));
    assert_eq!(ArrayBrand::from_str("__serde_nbt_long_arra"), None);
    assert_eq!(ArrayBrand::from_str(""), None);
    for brand in [ArrayBrand::Byte, ArrayBrand::Int, ArrayBrand::Long] {
        assert_eq!(ArrayBrand::from_str(brand.as_str()), Some(brand));
    }
    assert_eq!(ArrayBrand::Int.display(), "int array");
    assert_eq!(ArrayBrand::Int.kind(), Type::IntArray);
    assert_eq!(ArrayBrand::Int.element_kind(), Type::Int);
    assert_eq!(ArrayBrand::Long.to_seq_kind(), SeqKind::LongArray);
    assert_eq!(SeqKind::ByteArray.element_id(), TypeId::Byte);
    assert_eq!(SeqKind::List(TypeId::String).element_id(), TypeId::String);
    assert_eq!(SeqKind::default(), SeqKind::List(TypeId::End));
}

#[test]
fn the_engine_writes_what_the_value_writer_writes() {
    let mut serializer = Serializer::new(BinaryEmitter::new(BeEncoder));
    serializer.begin_root("", TypeId::Compound).unwrap();
    let mut map = MapSerializer::new(&mut serializer).unwrap();
    map.serialize_key("name".to_owned());
    map.begin_value(&mut serializer, Type::String).unwrap();
    serializer.serialize_str("abc").unwrap();
    map.end_value(&mut serializer);
    map.serialize_key("value".to_owned());
    map.begin_value(&mut serializer, Type::Int).unwrap();
    serializer.serialize_i32(-1);
    map.end_value(&mut serializer);
    map.end(&mut serializer);
    let mut root = Compound::new();
    root.insert("name".to_owned(), Value::String("abc".to_owned()));
    root.insert("value".to_owned(), Value::Int(-1));
    assert_eq!(serializer.into_inner(), to_be_vec("", &Value::Compound(root)).unwrap());
}

#[test]
fn a_list_header_waits_for_the_first_element() {
    let mut serializer = Serializer::new(BinaryEmitter::new(BeEncoder));
    let mut seq = SeqSerializer::new(&mut serializer, None, Some(2)).unwrap();
    assert!(serializer.bytes().is_empty());
    seq.begin_element(&mut serializer, Type::Short).unwrap();
    assert_eq!(serializer.bytes(), &vec![0x02, 0, 0, 0, 2]);
    serializer.serialize_i16(7);
    seq.end_element(&mut serializer);
    seq.begin_element(&mut serializer, Type::Short).unwrap();
    serializer.serialize_i16(8);
    seq.end_element(&mut serializer);
    seq.end(&mut serializer);
    assert_eq!(serializer.into_inner(), vec![0x02, 0, 0, 0, 2, 0, 7, 0, 8]);
}

#[test]
fn an_element_of_another_kind_is_refused() {
    let mut serializer = Serializer::new(BinaryEmitter::new(BeEncoder));
    serializer.path_mut().enter_scope("list".to_owned());
    let mut seq = SeqSerializer::new(&mut serializer, None, Some(2)).unwrap();
    seq.begin_element(&mut serializer, Type::Int).unwrap();
    serializer.serialize_i32(1);
    seq.end_element(&mut serializer);
    let error = seq.begin_element(&mut serializer, Type::String).unwrap_err();
    assert_eq!(error.get_category(), Category::InvalidInput);
    assert_eq!(
        error.get_message().as_str(),
        "NBT does not support mixed sequences (got String, expected Int)"
    );
    assert_eq!(error.get_position().display(), " at path `list[1]`");
}

#[test]
fn an_array_has_no_element_tag() {
    let mut serializer = Serializer::new(BinaryEmitter::new(BeEncoder));
    let mut seq = SeqSerializer::new(&mut serializer, Some(ArrayBrand::Int), Some(1)).unwrap();
    assert_eq!(serializer.bytes(), &vec![0, 0, 0, 1]);
    assert!(seq.begin_element(&mut serializer, Type::Long).is_err());
    let mut serializer = Serializer::new(BinaryEmitter::new(BeEncoder));
    let mut seq = SeqSerializer::new(&mut serializer, Some(ArrayBrand::Int), Some(1)).unwrap();
    seq.begin_element(&mut serializer, Type::Int).unwrap();
    serializer.serialize_i32(5);
    seq.end_element(&mut serializer);
    seq.end(&mut serializer);
    assert_eq!(serializer.into_inner(), vec![0, 0, 0, 1, 0, 0, 0, 5]);
}

#[test]
fn an_empty_list_is_written_at_its_end() {
    let mut serializer = Serializer::new(BinaryEmitter::new(VarintEncoder));
    let seq = SeqSerializer::new(&mut serializer, None, Some(0)).unwrap();
    seq.end(&mut serializer);
    assert_eq!(serializer.into_inner(), vec![0x00, 0x00]);
}

#[test]
fn a_sequence_without_a_length_is_refused() {
    let mut serializer = Serializer::new(BinaryEmitter::new(BeEncoder));
    let mut seq = SeqSerializer::new(&mut serializer, None, None).unwrap();
    let error = seq.begin_element(&mut serializer, Type::Int).unwrap_err();
    assert_eq!(
        error.get_message().as_str(),
        "binary dialects of NBT cannot serialize unsized sequences"
    );
    let mut serializer = Serializer::new(BinaryEmitter::new(BeEncoder));
    assert!(SeqSerializer::new(&mut serializer, Some(ArrayBrand::Byte), None).is_err());
    assert!(serializer.begin_seq(SeqKind::IntArray, Some(usize::MAX)).is_err());
}

#[test]
fn variants_are_maps_of_one_entry() {
    let mut serializer = Serializer::new(BinaryEmitter::new(BeEncoder));
    serializer.begin_variant("V", Type::Byte).unwrap();
    serializer.serialize_bool(true);
    serializer.end_variant();
    assert_eq!(serializer.into_inner(), vec![0x01, 0x00, 0x01, 0x56, 0x01, 0x00]);
    let mut serializer = Serializer::new(BinaryEmitter::new(BeEncoder));
    serializer.emit_header_id(TypeId::End);
    serializer.begin_map();
    serializer.begin_entry("k", Type::Long).unwrap();
    serializer.serialize_i64(1);
    serializer.end_entry();
    serializer.end_map();
    serializer.serialize_i8(-1);
    serializer.serialize_f32(1.0f32.to_bits());
    serializer.serialize_f64(1.0f64.to_bits());
    serializer.end_seq();
    assert_eq!(
        serializer.into_inner(),
        vec![
            0x00, 0x04, 0x00, 0x01, 0x6B, 0, 0, 0, 0, 0, 0, 0, 1, 0x00, 0xFF, 0x3F, 0x80, 0, 0, 0x3F,
            0xF0, 0, 0, 0, 0, 0, 0
        ]
    );
}

#[test]
fn the_hooks_of_the_binary_form() {
    let mut emitter = BinaryEmitter::new(BeEncoder);
    let mut out = Vec::new();
    Emit::emit_header_id(&mut emitter, &mut out, TypeId::Compound).unwrap();
    Emit::begin_map(&mut emitter, &mut out).unwrap();
    Emit::before_key(&mut emitter, &mut out, Type::List).unwrap();
    Emit::emit_key(&mut emitter, &mut out, "k").unwrap();
    Emit::after_key(&mut emitter, &mut out).unwrap();
    Emit::before_value(&mut emitter, &mut out).unwrap();
    Emit::begin_seq(&mut emitter, &mut out, SeqKind::List(TypeId::Byte), Some(2)).unwrap();
    Emit::before_element(&mut emitter, &mut out).unwrap();
    Emit::emit_bool(&mut emitter, &mut out, true).unwrap();
    Emit::after_element(&mut emitter, &mut out).unwrap();
    Emit::emit_i8(&mut emitter, &mut out, -1).unwrap();
    Emit::end_seq(&mut emitter, &mut out).unwrap();
    Emit::after_value(&mut emitter, &mut out).unwrap();
    Emit::end_map(&mut emitter, &mut out).unwrap();
    assert_eq!(out, vec![0x0A, 0x09, 0x00, 0x01, 0x6B, 0x01, 0, 0, 0, 2, 0x01, 0xFF, 0x00]);
    let mut out = Vec::new();
    Emit::emit_i16(&mut emitter, &mut out, 1).unwrap();
    Emit::emit_i32(&mut emitter, &mut out, 2).unwrap();
    Emit::emit_i64(&mut emitter, &mut out, 3).unwrap();
    Emit::emit_f32(&mut emitter, &mut out, 4).unwrap();
    Emit::emit_f64(&mut emitter, &mut out, 5).unwrap();
    Emit::emit_str(&mut emitter, &mut out, "s").unwrap();
    assert_eq!(
        out,
        vec![0, 1, 0, 0, 0, 2, 0, 0, 0, 0, 0, 0, 0, 3, 0, 0, 0, 4, 0, 0, 0, 0, 0, 0, 0, 5, 0, 1, 0x73]
    );
    assert!(!Emit::is_human_readable(&emitter));
    let mut out = Vec::new();
    let error = Emit::begin_seq(&mut emitter, &mut out, SeqKind::List(TypeId::Int), None).unwrap_err();
    assert_eq!(error.get_position(), &Position::Nowhere);
    assert_eq!(out, vec![0x03]);
    let long = "a".repeat(65536);
    let mut out = Vec::new();
    assert!(Emit::emit_str(&mut emitter, &mut out, &long).is_err());
    assert!(Emit::emit_key(&mut emitter, &mut out, &long).is_err());
    assert!(out.is_empty());
}

#[test]
fn the_engine_counts_levels() {
    let mut serializer = Serializer::new(BinaryEmitter::new(BeEncoder));
    assert_eq!(serializer.remaining_depth(), 512);
    serializer.begin_root("", TypeId::Compound).unwrap();
    let map = MapSerializer::new(&mut serializer).unwrap();
    assert_eq!(serializer.remaining_depth(), 511);
    map.end(&mut serializer);
    assert_eq!(serializer.remaining_depth(), 512);
    serializer.begin_variant("V", Type::Byte).unwrap();
    assert_eq!(serializer.remaining_depth(), 511);
    serializer.serialize_i8(1);
    serializer.end_variant();
    assert_eq!(serializer.remaining_depth(), 512);
}

#[test]
fn the_engine_refuses_to_nest_beyond_the_limit() {
    let mut serializer = Serializer::new(BinaryEmitter::new(BeEncoder));
    serializer.begin_root("", TypeId::List).unwrap();
    for _ in 0..512 {
        let mut seq = SeqSerializer::new(&mut serializer, None, Some(1)).unwrap();
        seq.begin_element(&mut serializer, Type::List).unwrap();
    }
    assert_eq!(serializer.remaining_depth(), 0);
    let written = serializer.bytes().len();
    let error = match SeqSerializer::new(&mut serializer, None, Some(1)) {
        Ok(_) => panic!("another level was entered"),
        Err(error) => error,
    };
    assert_eq!(error.get_category(), Category::RecursionLimitExceeded);
    assert_eq!(error.get_message().as_str(), "recursion limit exceeded");
    match error.get_position() {
        serde_nbt::error::Position::Path(path) => assert_eq!(path.len(), 512),
        _ => panic!("the error tells no path"),
    }
    assert_eq!(serializer.bytes().len(), written);
    assert!(MapSerializer::new(&mut serializer).is_err());
}
