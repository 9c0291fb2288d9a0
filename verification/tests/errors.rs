use serde_nbt::error::{one_of, Category, Cursor, Error, Path, PathSegment, Position};
use serde_nbt::value::TypeId;

fn sample_path() -> Path {
    let mut path = Path::new();
    path.enter_scope("root".to_owned());
    path.enter_element(3);
    path.enter_scope("needs space".to_owned());
    path.enter_unresolved();
    path
}

#[test]
fn path_is_a_stack() {
    let mut path = Path::new();
    assert!(path.is_empty());
    path.enter_scope("a".to_owned());
    path.enter_element(2);
    path.enter_unresolved();
    assert_eq!(path.len(), 3);
    assert_eq!(path.last(), Some(&PathSegment::Unresolved));
    path.leave_unresolved();
    assert_eq!(path.last(), Some(&PathSegment::Index(2)));
    assert_eq!(path.leave_element(), 2);
    assert_eq!(path.leave_scope(), "a");
    assert!(path.is_empty());
    assert_eq!(path.last(), None);
    assert_eq!(Path::default(), Path::new());
}

#[test]
fn path_text() {
    assert_eq!(Path::new().display(), "{}");
    assert_eq!(sample_path().display(), "root[3].\"needs space\"[????]");
    let mut path = Path::new();
    path.enter_element(12);
    path.enter_scope("a.b".to_owned());
    path.enter_scope("c".to_owned());
    assert_eq!(path.display(), "[12].a.b.c");
    assert_eq!(PathSegment::Index(7).display(), "[7]");
    assert_eq!(PathSegment::Unresolved.display(), "[????]");
    assert_eq!(PathSegment::Identifier("x y".to_owned()).display(), "\"x y\"");
    assert_eq!(PathSegment::Identifier("x".to_owned()).unwrap_identifier(), "x");
    assert_eq!(PathSegment::Index(4).unwrap_index(), 4);
}

#[test]
fn taking_a_path_drains_it() {
    let mut path = sample_path();
    let taken = path.take();
    assert!(path.is_empty());
    assert_eq!(taken, sample_path());
}

#[test]
fn error_parts() {
    let error = Error::new(Category::Custom, "boom".to_owned());
    assert_eq!(error.get_category(), Category::Custom);
    assert_eq!(error.get_message().as_str(), "boom");
    assert_eq!(error.get_position(), &Position::Nowhere);
    assert_eq!(error.display(), "error: \"boom\"");
    let cursor = Cursor::new(3, 9);
    let error = Error::with_position(Category::Io, "x".to_owned(), Position::Cursor(cursor));
    assert_eq!(error.get_position().display(), " at line 3 column 9");
    assert_eq!(Position::Byte(17).display(), " at byte 17");
    let error = Error::io(Category::UnexpectedEof, "short".to_owned(), Position::Byte(4));
    assert_eq!(error.get_category(), Category::UnexpectedEof);
    assert_eq!(error.display(), "error: \"short\" at byte 4");
    assert_eq!(Error::custom("c".to_owned()).get_category(), Category::Custom);
}

#[test]
fn a_position_is_attached_once() {
    let mut path = sample_path();
    let error = Error::new(Category::InvalidData, "x".to_owned()).attach_path(&mut path);
    assert!(path.is_empty());
    assert_eq!(error.get_position(), &Position::Path(sample_path()));
    let mut other = Path::new();
    other.enter_element(1);
    let error = error.attach_path(&mut other);
    assert_eq!(error.get_position(), &Position::Path(sample_path()));
    assert_eq!(other.len(), 1);
    let copy = error.clone();
    assert_eq!(copy, error);
}

#[test]
fn error_messages() {
    let mut path = Path::new();
    path.enter_scope("k".to_owned());
    let error = Error::invalid_key("`f32`", &mut path);
    assert_eq!(error.get_category(), Category::InvalidInput);
    assert_eq!(error.get_message().as_str(), "NBT does not support `f32` keys");
    assert_eq!(error.display(), "error: \"NBT does not support `f32` keys\" at path `k`");
    assert!(path.is_empty());
    let error = Error::invalid_type("`u8`", &mut path);
    assert_eq!(error.get_message().as_str(), "NBT does not support `u8` values");
    let error = Error::invalid_root("sequence", &mut path);
    assert_eq!(error.get_message().as_str(), "NBT does not support sequence root values");
    let error = Error::invalid_seq(TypeId::String, TypeId::Int, &mut path);
    assert_eq!(
        error.get_message().as_str(),
        "NBT does not support mixed sequences (got String, expected Int)"
    );
    let error = Error::invalid_seq_hint(3, 5, &mut path);
    assert_eq!(error.get_message().as_str(), "invalid sequence length hint (got 3, expected 5)");
    let error = Error::invalid_seq_len(6, 5, &mut path);
    assert_eq!(error.get_message().as_str(), "oversized sequence length (got 6, expected 5)");
    let error = Error::seq_len_overflow(2147483647, &mut path);
    assert_eq!(
        error.get_message().as_str(),
        "selected dialect cannot serialize a sequence with greater than `2147483647` elements"
    );
    let error = Error::str_len_overflow(65535, &mut path);
    assert_eq!(
        error.get_message().as_str(),
        "selected dialect cannot serialize a string with greater than `65535` bytes"
    );
    assert_eq!(Error::str_len_limit(65535).get_position(), &Position::Nowhere);
    assert_eq!(Error::seq_len_limit(9).get_category(), Category::InvalidInput);
    let mut deep = sample_path();
    let error = Error::recursion_limit_exceeded(&mut deep);
    assert_eq!(error.get_category(), Category::RecursionLimitExceeded);
    assert_eq!(error.get_message().as_str(), "recursion limit exceeded");
    assert!(deep.is_empty());
}

#[test]
fn expected_names() {
    assert_eq!(one_of(&["a"]), "`a`");
    assert_eq!(one_of(&["a", "b"]), "`a` or `b`");
    assert_eq!(one_of(&["a", "b", "c"]), "one of `a`, `b`, `c`");
    assert_eq!(one_of(&["a", "b", "c", "d"]), "one of `a`, `b`, `c`, `d`");
    let error = Error::unknown_variant("x", &[]);
    assert_eq!(error.get_message().as_str(), "unknown variant `x`, there are no variants");
    let error = Error::unknown_variant("x", &["a", "b"]);
    assert_eq!(error.get_message().as_str(), "unknown variant `x`, expected `a` or `b`");
    let error = Error::unknown_field("x", &["a", "b", "c"]);
    assert_eq!(error.get_message().as_str(), "unknown field `x`, expected one of `a`, `b`, `c`");
    assert_eq!(Error::unknown_field("x", &[]).get_message().as_str(), "unknown field `x`, there are no fields");
    assert_eq!(Error::missing_field("f").get_message().as_str(), "missing field `f`");
    assert_eq!(Error::duplicate_field("f").get_message().as_str(), "duplicate field `f`");
    assert_eq!(Error::missing_field("f").get_category(), Category::InvalidData);
}
