use serde_nbt::binary::de::{from_be_slice, from_le_slice, from_varint_slice};
use serde_nbt::binary::ser::{to_be_vec, to_le_vec, to_varint_vec};
use serde_nbt::error::Category;
use serde_nbt::value::{Byte, Compound, List, Value};

fn sample() -> Value {
    let mut root = Compound::new();
    root.insert("name".to_owned(), Value::String("abc".to_owned()));
    root.insert("value".to_owned(), Value::Int(-1));
    Value::Compound(root)
}

fn rich() -> Value {
    let mut inner = Compound::new();
    inner.insert("flag".to_owned(), Value::Byte(Byte::Integer(1)));
    inner.insert("big".to_owned(), Value::Long(i64::MIN));
    inner.insert("pi".to_owned(), Value::Float(3.5f32.to_bits()));
    inner.insert("e".to_owned(), Value::Double(f64::NAN.to_bits()));
    let mut list = List::Empty;
    list.push(Value::Compound(inner));
    let mut strings = List::Empty;
    strings.push(Value::String("a\0b\u{1F600}".to_owned()));
    strings.push(Value::String(String::new()));
    let mut root = Compound::new();
    root.insert("list".to_owned(), Value::List(list));
    root.insert("strings".to_owned(), Value::List(strings));
    root.insert("empty".to_owned(), Value::List(List::Empty));
    root.insert("bytes".to_owned(), Value::ByteArray(vec![Byte::Integer(-1), Byte::Integer(2)]));
    root.insert("ints".to_owned(), Value::IntArray(vec![i32::MIN, -1, 0, 1, i32::MAX]));
    root.insert("longs".to_owned(), Value::LongArray(vec![i64::MIN, 0, i64::MAX]));
    root.insert("short".to_owned(), Value::Short(-2));
    Value::Compound(root)
}

#[test]
fn concrete_big_endian_document() {
    let bytes = to_be_vec("", &sample()).unwrap();
    let expected: Vec<u8> = vec![
        0x0A, 0x00, 0x00, 0x08, 0x00, 0x04, 0x6E, 0x61, 0x6D, 0x65, 0x00, 0x03, 0x61, 0x62, 0x63,
        0x03, 0x00, 0x05, 0x76, 0x61, 0x6C, 0x75, 0x65, 0xFF, 0xFF, 0xFF, 0xFF, 0x00,
    ];
    assert_eq!(bytes, expected);
}

#[test]
fn concrete_little_endian_document() {
    let bytes = to_le_vec("", &sample()).unwrap();
    let expected: Vec<u8> = vec![
        0x0A, 0x00, 0x00, 0x08, 0x04, 0x00, 0x6E, 0x61, 0x6D, 0x65, 0x03, 0x00, 0x61, 0x62, 0x63,
        0x03, 0x05, 0x00, 0x76, 0x61, 0x6C, 0x75, 0x65, 0xFF, 0xFF, 0xFF, 0xFF, 0x00,
    ];
    assert_eq!(bytes, expected);
}

#[test]
fn concrete_varint_document() {
    let bytes = to_varint_vec("", &sample(), false).unwrap();
    let expected: Vec<u8> = vec![
        0x0A, 0x00, 0x08, 0x04, 0x6E, 0x61, 0x6D, 0x65, 0x03, 0x61, 0x62, 0x63, 0x03, 0x05, 0x76,
        0x61, 0x6C, 0x75, 0x65, 0x01, 0x00,
    ];
    assert_eq!(bytes, expected);
}

#[test]
fn round_trip_big_endian() {
    let value = rich();
    let bytes = to_be_vec("root", &value).unwrap();
    let (name, back) = from_be_slice(&bytes).unwrap();
    assert_eq!(name, "root");
    assert_eq!(back, value);
}

#[test]
fn round_trip_little_endian() {
    let value = rich();
    let bytes = to_le_vec("root", &value).unwrap();
    let (name, back) = from_le_slice(&bytes).unwrap();
    assert_eq!(name, "root");
    assert_eq!(back, value);
}

#[test]
fn round_trip_varint() {
    let value = rich();
    let bytes = to_varint_vec("root", &value, false).unwrap();
    let (name, back) = from_varint_slice(&bytes, false).unwrap();
    assert_eq!(name, "root");
    assert_eq!(back, value);
}

#[test]
fn round_trip_forgets_where_a_byte_came_from() {
    let mut root = Compound::new();
    root.insert("b".to_owned(), Value::Byte(Byte::Boolean(true)));
    let bytes = to_be_vec("", &Value::Compound(root)).unwrap();
    let (_, back) = from_be_slice(&bytes).unwrap();
    let compound = back.try_into_compound().unwrap();
    let byte = compound.get("b").unwrap().as_byte().unwrap();
    assert_eq!(byte.get_i8(), Some(1));
    assert_eq!(byte.get_bool(), None);
    assert_eq!(byte, Byte::Boolean(true));
}

#[test]
fn varint_root_list_needs_the_flag() {
    let mut list = List::Empty;
    list.push(Value::Int(300));
    list.push(Value::Int(-300));
    let value = Value::List(list);
    let refused = to_varint_vec("", &value, false).unwrap_err();
    assert_eq!(refused.get_category(), Category::InvalidInput);
    let bytes = to_varint_vec("", &value, true).unwrap();
    assert_eq!(bytes, vec![0x09, 0x00, 0x03, 0x04, 0xD8, 0x04, 0xD7, 0x04]);
    let (_, back) = from_varint_slice(&bytes, true).unwrap();
    assert_eq!(back, value);
    assert_eq!(
        from_varint_slice(&bytes, false).unwrap_err().get_category(),
        Category::InvalidData
    );
    assert!(to_be_vec("", &value).is_err());
}

#[test]
fn scalar_root_is_refused() {
    let error = to_be_vec("", &Value::Int(1)).unwrap_err();
    assert_eq!(error.get_category(), Category::InvalidInput);
    assert_eq!(error.get_message().as_str(), "NBT does not support Int root values");
    assert_eq!(error.display(), "error: \"NBT does not support Int root values\" at path `{}`");
}

#[test]
fn string_of_65536_bytes_overflows_16_bit_lengths() {
    let long = "a".repeat(65536);
    let mut root = Compound::new();
    root.insert("s".to_owned(), Value::String(long.clone()));
    let value = Value::Compound(root);
    let error = to_be_vec("", &value).unwrap_err();
    assert_eq!(error.get_category(), Category::InvalidInput);
    assert!(error.get_message().contains("65535"));
    assert_eq!(
        error.get_message().as_str(),
        "selected dialect cannot serialize a string with greater than `65535` bytes"
    );
    assert_eq!(error.get_position().display(), " at path `s`");
    let error = to_le_vec("", &value).unwrap_err();
    assert_eq!(error.get_category(), Category::InvalidInput);
    let bytes = to_varint_vec("", &value, false).unwrap();
    let (_, back) = from_varint_slice(&bytes, false).unwrap();
    assert_eq!(back, value);
}

#[test]
fn string_of_65535_bytes_fits_16_bit_lengths() {
    let long = "a".repeat(65535);
    let mut root = Compound::new();
    root.insert("s".to_owned(), Value::String(long));
    let value = Value::Compound(root);
    let bytes = to_be_vec("", &value).unwrap();
    let (_, back) = from_be_slice(&bytes).unwrap();
    assert_eq!(back, value);
}

#[test]
fn overflow_is_reported_at_its_path() {
    let long = "a".repeat(65536);
    let mut strings = List::Empty;
    strings.push(Value::String("ok".to_owned()));
    strings.push(Value::String(long));
    let mut inner = Compound::new();
    inner.insert("list".to_owned(), Value::List(strings));
    let mut root = Compound::new();
    root.insert("first".to_owned(), Value::Int(1));
    root.insert("in ner".to_owned(), Value::Compound(inner));
    let error = to_be_vec("", &Value::Compound(root)).unwrap_err();
    assert_eq!(error.get_position().display(), " at path `\"in ner\".list[1]`");
}

#[test]
fn compound_ends_at_its_end_tag() {
    let mut bytes = to_be_vec("", &sample()).unwrap();
    bytes.extend_from_slice(&[0x03, 0x00, 0x01, 0x78, 0, 0, 0, 1, 0x00]);
    let (_, back) = from_be_slice(&bytes).unwrap();
    let compound = back.try_into_compound().unwrap();
    assert_eq!(compound.len(), 2);
}

#[test]
fn compound_without_end_tag_is_unexpected_eof() {
    let mut bytes = to_be_vec("", &sample()).unwrap();
    bytes.pop();
    let error = from_be_slice(&bytes).unwrap_err();
    assert_eq!(error.get_category(), Category::UnexpectedEof);
}

#[test]
fn truncated_list_count_is_unexpected_eof() {
    let mut list = List::Empty;
    list.push(Value::Int(7));
    let mut root = Compound::new();
    root.insert("l".to_owned(), Value::List(list));
    let bytes = to_be_vec("", &Value::Compound(root)).unwrap();
    // tag, name, entry tag, key length, key, element tag, then the count
    let cut = 3 + 1 + 2 + 1 + 1 + 2;
    let error = from_be_slice(&bytes[..cut]).unwrap_err();
    assert_eq!(error.get_category(), Category::UnexpectedEof);
    for end in 0..bytes.len() {
        let error = from_be_slice(&bytes[..end]).unwrap_err();
        assert_eq!(error.get_category(), Category::UnexpectedEof);
    }
}

#[test]
fn truncated_varint_list_count_is_unexpected_eof() {
    let list = List::Int(vec![1; 200]);
    let bytes = to_varint_vec("", &Value::List(list), true).unwrap();
    assert_eq!(&bytes[..4], &[0x09, 0x00, 0x03, 0x90]);
    let error = from_varint_slice(&bytes[..4], true).unwrap_err();
    assert_eq!(error.get_category(), Category::UnexpectedEof);
}

#[test]
fn unknown_tag_is_invalid_data() {
    let error = from_be_slice(&[0x0D, 0x00, 0x00]).unwrap_err();
    assert_eq!(error.get_category(), Category::InvalidData);
    let error = from_be_slice(&[0x0A, 0x00, 0x00, 0x0D, 0x00, 0x00]).unwrap_err();
    assert_eq!(error.get_category(), Category::InvalidData);
}

#[test]
fn negative_count_is_invalid_data() {
    let bytes = [0x0A, 0x00, 0x00, 0x07, 0x00, 0x01, 0x61, 0xFF, 0xFF, 0xFF, 0xFF, 0x00];
    let error = from_be_slice(&bytes).unwrap_err();
    assert_eq!(error.get_category(), Category::InvalidData);
}

#[test]
fn list_of_end_with_elements_is_invalid_data() {
    let bytes = [0x0A, 0x00, 0x00, 0x09, 0x00, 0x01, 0x61, 0x00, 0x00, 0x00, 0x00, 0x01, 0x00];
    let error = from_be_slice(&bytes).unwrap_err();
    assert_eq!(error.get_category(), Category::InvalidData);
}

#[test]
fn deep_nesting_is_refused_not_crashed() {
    let mut bytes = vec![0x0A, 0x00, 0x00];
    for _ in 0..100_000 {
        bytes.extend_from_slice(&[0x0A, 0x00, 0x00]);
    }
    let error = from_be_slice(&bytes).unwrap_err();
    assert_eq!(error.get_category(), Category::RecursionLimitExceeded);
    assert_eq!(error.get_message().as_str(), "recursion limit exceeded");
}

#[test]
fn nesting_within_the_limit_is_read() {
    let mut value = Value::Compound(Compound::new());
    for _ in 0..100 {
        let mut outer = Compound::new();
        outer.insert("c".to_owned(), value);
        value = Value::Compound(outer);
    }
    let bytes = to_be_vec("", &value).unwrap();
    let (_, back) = from_be_slice(&bytes).unwrap();
    assert_eq!(back, value);
}

fn nested(levels: usize) -> Value {
    let mut value = Value::Compound(Compound::new());
    for _ in 1..levels {
        let mut outer = Compound::new();
        outer.insert("c".to_owned(), value);
        value = Value::Compound(outer);
    }
    value
}

#[test]
fn nesting_at_the_limit_is_written_and_read() {
    let value = nested(512);
    let bytes = to_be_vec("", &value).unwrap();
    assert_eq!(bytes.len(), 3 + 511 * 4 + 512);
    let (_, back) = from_be_slice(&bytes).unwrap();
    assert_eq!(back, value);
}

#[test]
fn nesting_beyond_the_limit_is_not_written() {
    let value = nested(513);
    for result in [to_be_vec("", &value), to_le_vec("", &value), to_varint_vec("", &value, false)] {
        let error = result.unwrap_err();
        assert_eq!(error.get_category(), Category::RecursionLimitExceeded);
        assert_eq!(error.get_message().as_str(), "recursion limit exceeded");
        match error.get_position() {
            serde_nbt::error::Position::Path(path) => assert_eq!(path.len(), 512),
            _ => panic!("the error tells no path"),
        }
    }
}

#[test]
fn nesting_beyond_the_limit_is_not_read() {
    let mut bytes = vec![0x0A, 0x00, 0x00];
    for _ in 0..512 {
        bytes.extend_from_slice(&[0x0A, 0x00, 0x01, b'c']);
    }
    bytes.extend(std::iter::repeat(0x00).take(513));
    let error = from_be_slice(&bytes).unwrap_err();
    assert_eq!(error.get_category(), Category::RecursionLimitExceeded);
    bytes = vec![0x0A, 0x00, 0x00];
    for _ in 0..511 {
        bytes.extend_from_slice(&[0x0A, 0x00, 0x01, b'c']);
    }
    bytes.extend(std::iter::repeat(0x00).take(512));
    assert_eq!(from_be_slice(&bytes).unwrap().1, nested(512));
}

#[test]
fn duplicate_keys_keep_the_first_place_and_the_last_value() {
    let bytes = [
        0x0A, 0x00, 0x00, 0x01, 0x00, 0x01, 0x61, 0x01, 0x01, 0x00, 0x01, 0x62, 0x02, 0x01, 0x00,
        0x01, 0x61, 0x03, 0x00,
    ];
    let (_, back) = from_be_slice(&bytes).unwrap();
    let compound = back.try_into_compound().unwrap();
    assert_eq!(compound.len(), 2);
    let (key, value) = compound.get_index(0).unwrap();
    assert_eq!(key, "a");
    assert_eq!(value, &Value::Byte(Byte::Integer(3)));
}

#[test]
fn varint_integers_use_zigzag_leb128() {
    let mut root = Compound::new();
    root.insert("i".to_owned(), Value::Int(i32::MIN));
    root.insert("l".to_owned(), Value::Long(-2));
    root.insert("s".to_owned(), Value::Short(0x0102));
    let value = Value::Compound(root);
    let bytes = to_varint_vec("", &value, false).unwrap();
    let expected: Vec<u8> = vec![
        0x0A, 0x00, 0x03, 0x01, 0x69, 0xFF, 0xFF, 0xFF, 0xFF, 0x0F, 0x04, 0x01, 0x6C, 0x03, 0x02,
        0x01, 0x73, 0x02, 0x01, 0x00,
    ];
    assert_eq!(bytes, expected);
    let (_, back) = from_varint_slice(&bytes, false).unwrap();
    assert_eq!(back, value);
}

#[test]
fn varint_string_length_is_signed_leb128() {
    let text = "a".repeat(64);
    let mut root = Compound::new();
    root.insert("s".to_owned(), Value::String(text));
    let value = Value::Compound(root);
    let bytes = to_varint_vec("", &value, false).unwrap();
    assert_eq!(&bytes[..7], &[0x0A, 0x00, 0x08, 0x01, 0x73, 0xC0, 0x00]);
    let (_, back) = from_varint_slice(&bytes, false).unwrap();
    assert_eq!(back, value);
}

#[test]
fn decode_failures_tell_where_they_happened() {
    // {"a": [[1, <cut>
    let bytes = [
        0x0A, 0x00, 0x00, 0x09, 0x00, 0x01, 0x61, 0x09, 0x00, 0x00, 0x00, 0x02, 0x03, 0x00, 0x00,
        0x00, 0x01, 0x00, 0x00, 0x00, 0x01, 0x03, 0x00, 0x00, 0x00, 0x02, 0x00, 0x00, 0x00, 0x05,
    ];
    let error = from_be_slice(&bytes).unwrap_err();
    assert_eq!(error.get_category(), Category::UnexpectedEof);
    assert_eq!(error.get_message().as_str(), "unexpected end of input");
    assert_eq!(error.get_position().display(), " at path `a[1][1]`");
    // an entry whose key is cut off
    let error = from_be_slice(&[0x0A, 0x00, 0x00, 0x01, 0x00, 0x05, 0x61]).unwrap_err();
    assert_eq!(error.get_category(), Category::UnexpectedEof);
    assert_eq!(error.get_position().display(), " at path `[????]`");
    // a key that is no text
    let error = from_be_slice(&[0x0A, 0x00, 0x00, 0x01, 0x00, 0x01, 0xFF, 0x00]).unwrap_err();
    assert_eq!(error.get_category(), Category::InvalidData);
    assert_eq!(error.get_message().as_str(), "invalid data");
    // a value that is cut off stands at its key
    let error = from_be_slice(&[0x0A, 0x00, 0x00, 0x02, 0x00, 0x01, 0x6B, 0x00]).unwrap_err();
    assert_eq!(error.get_position().display(), " at path `k`");
    // the root itself
    let error = from_be_slice(&[]).unwrap_err();
    assert_eq!(error.get_position().display(), " at path `{}`");
    let error = from_be_slice(&[0x01, 0x00, 0x00, 0x00]).unwrap_err();
    assert_eq!(error.get_category(), Category::InvalidData);
}
