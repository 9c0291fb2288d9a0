use serde_nbt::binary::de::{
    decode_leaf, read_byte_array, read_i16, read_i32, read_i64, read_ints, read_longs, read_seq_len,
    read_str, read_str_len,
};
use serde_nbt::binary::ser::{BeEncoder, Encode, LeEncoder, VarintEncoder};
use serde_nbt::binary::wire::{
    read_be16, read_be32, read_be64, read_le16, read_le32, read_le64, read_sleb, read_u8, read_uleb,
    write_be16, write_be32, write_be64, write_le16, write_le32, write_le64, Dialect,
};
use serde_nbt::char::{get_hex_digit, EscapeJava as CharEscape, EscapeJavaUnicode as CharUnicode};
use serde_nbt::error::Category;
use serde_nbt::snbt::ser::{CompactFormatter, PrettyFormatter};
use serde_nbt::str::{chars_of, EscapeJava, EscapeJavaUnicode};
use serde_nbt::text::{needs_escaped, str_eq};
use serde_nbt::util::SeqKind;
use serde_nbt::value::{Byte, TypeId, Value};

fn text(bytes: Vec<u8>) -> String {
    String::from_utf8(bytes).unwrap()
}

#[test]
fn test_serialize_bool() {
    let mut out = Vec::new();
    CompactFormatter::new(false).write_bool(&mut out, false);
    assert_eq!(text(out), "false");
    let mut out = Vec::new();
    PrettyFormatter::new(false).scalars().write_bool(&mut out, false);
    assert_eq!(text(out), "false");
    let mut out = Vec::new();
    CompactFormatter::new(false).write_bool(&mut out, true);
    assert_eq!(text(out), "true");
    let mut out = Vec::new();
    PrettyFormatter::new(false).scalars().write_bool(&mut out, true);
    assert_eq!(text(out), "true");
}

#[test]
fn test_serialize_i8() {
    let mut out = Vec::new();
    CompactFormatter::new(false).write_i8(&mut out, -128);
    assert_eq!(text(out), "-128b");
    let mut out = Vec::new();
    PrettyFormatter::new(false).scalars().write_i8(&mut out, -128);
    assert_eq!(text(out), "-128b");
    let mut out = Vec::new();
    CompactFormatter::new(false).write_i8(&mut out, 127);
    assert_eq!(text(out), "127b");
    let mut out = Vec::new();
    PrettyFormatter::new(false).scalars().write_i8(&mut out, 127);
    assert_eq!(text(out), "127b");
}

#[test]
fn test_serialize_i16() {
    let mut out = Vec::new();
    CompactFormatter::new(false).write_i16(&mut out, -32_768);
    assert_eq!(text(out), "-32768s");
    let mut out = Vec::new();
    PrettyFormatter::new(false).scalars().write_i16(&mut out, -32_768);
    assert_eq!(text(out), "-32768s");
    let mut out = Vec::new();
    CompactFormatter::new(false).write_i16(&mut out, 32_767);
    assert_eq!(text(out), "32767s");
    let mut out = Vec::new();
    PrettyFormatter::new(false).scalars().write_i16(&mut out, 32_767);
    assert_eq!(text(out), "32767s");
}

#[test]
fn compact_scalars_and_strings() {
    let mut f = CompactFormatter::new(false);
    let mut out = Vec::new();
    f.write_i32(&mut out, -7);
    f.write_i64(&mut out, i64::MAX);
    f.write_float(&mut out, "1.5", "f");
    f.write_float(&mut out, "-Infinity", "d");
    f.write_str(&mut out, "plain");
    f.write_str(&mut out, "two words\n\"q\"");
    assert_eq!(
        text(out),
        "-79223372036854775807L1.5f-Infinityd\"plain\"\"two words\\n\\\"q\\\"\""
    );
}

#[test]
fn compact_tree() {
    let mut f = CompactFormatter::new(false);
    let mut out = Vec::new();
    f.begin_map(&mut out);
    f.before_key(&mut out);
    f.write_key(&mut out, "list");
    f.after_key(&mut out);
    f.before_value(&mut out);
    f.begin_seq(&mut out, SeqKind::IntArray);
    f.before_element(&mut out);
    f.write_i32(&mut out, 1);
    f.after_element(&mut out);
    f.before_element(&mut out);
    f.write_i32(&mut out, 2);
    f.after_element(&mut out);
    f.end_seq(&mut out);
    f.after_value(&mut out);
    f.before_key(&mut out);
    f.write_key(&mut out, "a key");
    f.after_key(&mut out);
    f.write_bool(&mut out, true);
    f.after_value(&mut out);
    f.end_map(&mut out);
    assert_eq!(text(out), "{list:[I;1,2],\"a key\":true}");
    let mut out = Vec::new();
    let mut normal = CompactFormatter::new(true);
    normal.write_key(&mut out, "list");
    normal.begin_seq(&mut out, SeqKind::ByteArray);
    normal.end_seq(&mut out);
    normal.begin_seq(&mut out, SeqKind::LongArray);
    normal.end_seq(&mut out);
    normal.begin_seq(&mut out, SeqKind::List(TypeId::Int));
    normal.end_seq(&mut out);
    assert_eq!(text(out), "\"list\"[B;][L;][]");
}

#[test]
fn pretty_tree() {
    let mut f = PrettyFormatter::new(false);
    let mut out = Vec::new();
    f.begin_map(&mut out);
    f.before_key(&mut out);
    f.scalars().write_key(&mut out, "a");
    f.after_key(&mut out);
    f.begin_seq(&mut out, SeqKind::List(TypeId::Int));
    f.before_element(&mut out);
    f.scalars().write_i32(&mut out, 1);
    f.after_element(&mut out);
    f.before_element(&mut out);
    f.scalars().write_i32(&mut out, 2);
    f.after_element(&mut out);
    f.end_seq(&mut out);
    f.after_value(&mut out);
    f.before_key(&mut out);
    f.scalars().write_key(&mut out, "b");
    f.after_key(&mut out);
    f.begin_map(&mut out);
    f.end_map(&mut out);
    f.after_value(&mut out);
    f.end_map(&mut out);
    assert_eq!(text(out), "{\n  a: [\n    1,\n    2\n  ],\n  b: {}\n}");
    let mut tabs = PrettyFormatter::with_indent(true, "\t");
    let mut out = Vec::new();
    tabs.begin_seq(&mut out, SeqKind::ByteArray);
    tabs.before_element(&mut out);
    tabs.scalars().write_i8(&mut out, 1);
    tabs.after_element(&mut out);
    tabs.end_seq(&mut out);
    assert_eq!(text(out), "[B;\n\t1b\n]");
}

#[test]
fn escaping_one_character() {
    let all = |c: char| {
        let mut escape = CharEscape::new(c);
        let mut out = String::new();
        while let Some(c) = escape.next() {
            out.push(c);
        }
        out
    };
    assert_eq!(all('a'), "a");
    assert_eq!(all(' '), " ");
    assert_eq!(all('~'), "~");
    assert_eq!(all('\\'), "\\");
    assert_eq!(all('\n'), "\\n");
    assert_eq!(all('\t'), "\\t");
    assert_eq!(all('\r'), "\\r");
    assert_eq!(all('\u{8}'), "\\b");
    assert_eq!(all('\u{C}'), "\\f");
    assert_eq!(all('"'), "\\\"");
    assert_eq!(all('\0'), "\\u0000");
    assert_eq!(all('\u{7F}'), "\\u007f");
    assert_eq!(all('\u{E9}'), "\\u00e9");
    assert_eq!(all('\u{20AC}'), "\\u20ac");
    assert_eq!(all('\u{1F600}'), "\\uf600");
    assert_eq!(CharEscape::new('\n').len(), 2);
    assert_eq!(CharEscape::new('a').len(), 1);
    assert_eq!(CharEscape::new('\0').len(), 6);
    assert_eq!(CharEscape::new('\n').last(), Some('n'));
    assert_eq!(CharEscape::new('\0').last(), Some('0'));
    let mut escape = CharEscape::new('x');
    assert_eq!(escape.next(), Some('x'));
    assert_eq!(escape.next(), None);
    assert_eq!(escape.len(), 0);
    assert_eq!(escape.last(), None);
}

#[test]
fn unicode_escape_of_one_character() {
    let mut escape = CharUnicode::new('\u{12AB}');
    assert_eq!(escape.len(), 6);
    assert_eq!(escape.next(), Some('\\'));
    assert_eq!(escape.len(), 5);
    assert_eq!(escape.next(), Some('u'));
    assert_eq!(escape.len(), 4);
    assert_eq!(escape.last(), Some('b'));
    assert_eq!(escape.next(), Some('1'));
    assert_eq!(escape.next(), Some('2'));
    assert_eq!(escape.next(), Some('a'));
    assert_eq!(escape.len(), 1);
    assert_eq!(escape.next(), Some('b'));
    assert_eq!(escape.len(), 0);
    assert_eq!(escape.next(), None);
    assert_eq!(escape.last(), None);
    assert_eq!(get_hex_digit('\u{12AB}', 3), '1');
    assert_eq!(get_hex_digit('\u{12AB}', 0), 'b');
    assert_eq!(get_hex_digit('\u{9}', 0), '9');
    assert_eq!(get_hex_digit('\u{F}', 0), 'f');
}

#[test]
fn escaping_a_text() {
    assert_eq!(EscapeJava::new("").collect(), "");
    assert_eq!(EscapeJava::new("abc").collect(), "abc");
    assert_eq!(EscapeJava::new("a\nb\"c\u{E9}").collect(), "a\\nb\\\"c\\u00e9");
    assert_eq!(EscapeJavaUnicode::new("ab").collect(), "\\u0061\\u0062");
    let mut escape = EscapeJava::new("a\t");
    assert_eq!(escape.next(), Some('a'));
    assert_eq!(escape.next(), Some('\\'));
    assert_eq!(escape.next(), Some('t'));
    assert_eq!(escape.next(), None);
    assert_eq!(escape.next(), None);
    let mut escape = EscapeJavaUnicode::new("\0");
    assert_eq!(escape.next(), Some('\\'));
    assert_eq!(escape.collect(), "u0000");
    assert_eq!(chars_of("h\u{E9}\u{1F600}"), vec!['h', '\u{E9}', '\u{1F600}']);
}

#[test]
fn which_names_need_quotes() {
    assert!(!needs_escaped("abc"));
    assert!(!needs_escaped("A-z_0.9+"));
    assert!(!needs_escaped(""));
    assert!(needs_escaped("a b"));
    assert!(needs_escaped("\u{E9}"));
    assert!(needs_escaped("a:b"));
    assert!(needs_escaped("\""));
    assert!(str_eq("abc", "abc"));
    assert!(!str_eq("abc", "abd"));
    assert!(!str_eq("abc", "ab"));
    assert!(str_eq("", ""));
}

#[test]
fn fixed_width_integers() {
    let mut out = Vec::new();
    write_be16(&mut out, 0x0102);
    write_le16(&mut out, 0x0102);
    write_be32(&mut out, 0x01020304);
    write_le32(&mut out, 0x01020304);
    assert_eq!(out, vec![1, 2, 2, 1, 1, 2, 3, 4, 4, 3, 2, 1]);
    let mut out = Vec::new();
    write_be64(&mut out, 0x0102030405060708);
    write_le64(&mut out, 0x0102030405060708);
    assert_eq!(out, vec![1, 2, 3, 4, 5, 6, 7, 8, 8, 7, 6, 5, 4, 3, 2, 1]);
    let bytes = [1u8, 2, 3, 4, 5, 6, 7, 8, 9];
    assert_eq!(read_u8(&bytes, 8), Some(9));
    assert_eq!(read_u8(&bytes, 9), None);
    assert_eq!(read_be16(&bytes, 1), Some(0x0203));
    assert_eq!(read_le16(&bytes, 1), Some(0x0302));
    assert_eq!(read_be16(&bytes, 8), None);
    assert_eq!(read_be16(&bytes, usize::MAX), None);
    assert_eq!(read_be32(&bytes, 0), Some(0x01020304));
    assert_eq!(read_le32(&bytes, 5), Some(0x09080706));
    assert_eq!(read_le32(&bytes, 6), None);
    assert_eq!(read_be64(&bytes, 1), Some(0x0203040506070809));
    assert_eq!(read_le64(&bytes, 0), Some(0x0807060504030201));
    assert_eq!(read_le64(&bytes, 2), None);
}

#[test]
fn leb128() {
    assert_eq!(read_uleb(&[0xE5, 0x8E, 0x26, 0x00], 0, 5), Ok((624_485, 3)));
    assert_eq!(read_uleb(&[0x00], 0, 5), Ok((0, 1)));
    assert_eq!(read_uleb(&[0xFF, 0xFF, 0xFF, 0xFF, 0x0F], 0, 5), Ok((0xFFFF_FFFF, 5)));
    assert_eq!(read_uleb(&[0x80, 0x80], 0, 5), Err(Category::UnexpectedEof));
    assert_eq!(read_uleb(&[], 0, 5), Err(Category::UnexpectedEof));
    assert_eq!(
        read_uleb(&[0x80, 0x80, 0x80, 0x80, 0x80, 0x00], 0, 5),
        Err(Category::InvalidData)
    );
    assert_eq!(read_sleb(&[0xC0, 0xBB, 0x78], 0, 5), Ok((-123_456, 3)));
    assert_eq!(read_sleb(&[0x3F], 0, 5), Ok((63, 1)));
    assert_eq!(read_sleb(&[0x40], 0, 5), Ok((-64, 1)));
    assert_eq!(read_sleb(&[0xC0, 0x00], 0, 5), Ok((64, 2)));
    assert_eq!(read_sleb(&[0x80], 0, 5), Err(Category::UnexpectedEof));
}

#[test]
fn encoders_and_readers_agree() {
    for value in [0i32, 1, -1, 63, -64, 64, 300, -300, i32::MAX, i32::MIN, 1 << 28, -(1 << 28)] {
        let mut out = vec![0xAA];
        VarintEncoder.encode_i32(&mut out, value);
        assert_eq!(read_i32(Dialect::Varint, &out, 1), Ok((value, out.len())));
        let mut out = Vec::new();
        BeEncoder.encode_i32(&mut out, value);
        assert_eq!(out, value.to_be_bytes().to_vec());
        assert_eq!(read_i32(Dialect::BigEndian, &out, 0), Ok((value, 4)));
        let mut out = Vec::new();
        LeEncoder.encode_i32(&mut out, value);
        assert_eq!(out, value.to_le_bytes().to_vec());
        assert_eq!(read_i32(Dialect::LittleEndian, &out, 0), Ok((value, 4)));
    }
    for value in [0i64, -1, 1, i64::MAX, i64::MIN, 1 << 40, -(1 << 62)] {
        let mut out = Vec::new();
        VarintEncoder.encode_i64(&mut out, value);
        assert_eq!(read_i64(Dialect::Varint, &out, 0), Ok((value, out.len())));
        let mut out = Vec::new();
        BeEncoder.encode_i64(&mut out, value);
        assert_eq!(out, value.to_be_bytes().to_vec());
        assert_eq!(read_i64(Dialect::BigEndian, &out, 0), Ok((value, 8)));
        let mut out = Vec::new();
        LeEncoder.encode_i64(&mut out, value);
        assert_eq!(out, value.to_le_bytes().to_vec());
    }
    for value in [0i16, -1, i16::MIN, i16::MAX, 0x0102] {
        let mut out = Vec::new();
        BeEncoder.encode_i16(&mut out, value);
        assert_eq!(out, value.to_be_bytes().to_vec());
        assert_eq!(read_i16(Dialect::BigEndian, &out, 0), Ok((value, 2)));
        let mut out = Vec::new();
        VarintEncoder.encode_i16(&mut out, value);
        assert_eq!(out, value.to_le_bytes().to_vec());
        assert_eq!(read_i16(Dialect::Varint, &out, 0), Ok((value, 2)));
    }
    let mut out = Vec::new();
    VarintEncoder.encode_i32(&mut out, -1);
    VarintEncoder.encode_i32(&mut out, 1);
    VarintEncoder.encode_i64(&mut out, -2);
    VarintEncoder.encode_i8(&mut out, -1);
    BeEncoder.encode_f32(&mut out, 0x01020304);
    LeEncoder.encode_f64(&mut out, 0x0102030405060708);
    assert_eq!(out, vec![1, 2, 3, 0xFF, 1, 2, 3, 4, 8, 7, 6, 5, 4, 3, 2, 1]);
}

#[test]
fn lengths() {
    let mut out = Vec::new();
    BeEncoder.encode_str_len(&mut out, 65535).unwrap();
    LeEncoder.encode_str_len(&mut out, 258).unwrap();
    VarintEncoder.encode_str_len(&mut out, 64).unwrap();
    BeEncoder.encode_seq_len(&mut out, 2).unwrap();
    LeEncoder.encode_seq_len(&mut out, 2).unwrap();
    VarintEncoder.encode_seq_len(&mut out, 2).unwrap();
    assert_eq!(out, vec![0xFF, 0xFF, 2, 1, 0xC0, 0x00, 0, 0, 0, 2, 2, 0, 0, 0, 4]);
    let error = BeEncoder.encode_str_len(&mut out, 65536).unwrap_err();
    assert_eq!(error.get_category(), Category::InvalidInput);
    assert!(LeEncoder.encode_str_len(&mut out, 65536).is_err());
    assert!(VarintEncoder.encode_str_len(&mut out, 65536).is_ok());
    assert!(VarintEncoder.encode_str_len(&mut out, 2147483648).is_err());
    let error = BeEncoder.encode_seq_len(&mut out, 2147483648).unwrap_err();
    assert!(error.get_message().contains("2147483647"));
    assert_eq!(read_str_len(Dialect::BigEndian, &[0xFF, 0xFF], 0), Ok((65535, 2)));
    assert_eq!(read_str_len(Dialect::LittleEndian, &[2, 1], 0), Ok((258, 2)));
    assert_eq!(read_str_len(Dialect::Varint, &[0xC0, 0x00], 0), Ok((64, 2)));
    assert_eq!(read_str_len(Dialect::Varint, &[0x7F], 0), Err(Category::InvalidData));
    assert_eq!(read_seq_len(Dialect::Varint, &[4], 0), Ok((2, 1)));
    assert_eq!(read_seq_len(Dialect::Varint, &[3], 0), Err(Category::InvalidData));
    assert_eq!(read_seq_len(Dialect::BigEndian, &[0, 0, 1], 0), Err(Category::UnexpectedEof));
}

#[test]
fn leaves() {
    assert_eq!(read_str(Dialect::BigEndian, &[0, 2, 0x68, 0x69, 9], 0), Ok(("hi".to_owned(), 4)));
    assert_eq!(read_str(Dialect::BigEndian, &[0, 3, 0x68, 0x69], 0), Err(Category::UnexpectedEof));
    assert_eq!(read_str(Dialect::BigEndian, &[0, 1, 0xFF], 0), Err(Category::InvalidData));
    assert_eq!(read_ints(Dialect::Varint, &[1, 2, 3], 0, 3), Ok((vec![-1, 1, -2], 3)));
    assert_eq!(read_ints(Dialect::Varint, &[1, 2], 0, 3), Err(Category::UnexpectedEof));
    assert_eq!(read_longs(Dialect::Varint, &[1, 2], 1, 1), Ok((vec![1], 2)));
    assert_eq!(
        read_byte_array(Dialect::BigEndian, &[0, 0, 0, 2, 0xFF, 1], 0),
        Ok((vec![Byte::Integer(-1), Byte::Integer(1)], 6))
    );
    assert_eq!(
        decode_leaf(Dialect::BigEndian, TypeId::Short, &[0xFF, 0xFE], 0),
        Ok((Value::Short(-2), 2))
    );
    assert_eq!(
        decode_leaf(Dialect::LittleEndian, TypeId::Float, &[0, 0, 0x80, 0x3F], 0),
        Ok((Value::Float(1.0f32.to_bits()), 4))
    );
    assert_eq!(
        decode_leaf(Dialect::BigEndian, TypeId::End, &[0], 0),
        Err(Category::InvalidData)
    );
    assert_eq!(
        decode_leaf(Dialect::BigEndian, TypeId::Byte, &[], 0),
        Err(Category::UnexpectedEof)
    );
}
