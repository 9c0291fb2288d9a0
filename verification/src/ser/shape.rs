//! The shapes that a producer's data can have, and what becomes of each:
//! which kind of value it is written as, whether it can be a key, and
//! whether it can be the root of a document.

use crate::binary::mutf8::string_from_utf8;
use crate::error::{
    invalid_key_message, invalid_root_message, invalid_type_message, Category, Error, Path,
    PositionView, SegmentView,
};
use crate::text::{decimal, format_signed, format_unsigned};
use crate::util::ArrayBrand;
use crate::value::tag::Type;
use vstd::prelude::*;
use vstd::utf8::{decode_utf8, valid_utf8};

verus! {

/// The shape of a piece of a producer's data, as far as one look at it
/// tells: what it is, not what is inside it.
#[derive(Debug, Clone, Copy, PartialEq, Eq, Structural)]
pub enum Shape {
    Bool,
    I8,
    I16,
    I32,
    I64,
    I128,
    U8,
    U16,
    U32,
    U64,
    U128,
    F32,
    F64,
    Char,
    Str,
    Bytes,
    /// An absent optional value.
    Nothing,
    Unit,
    UnitStruct,
    UnitVariant,
    NewtypeVariant,
    Sequence,
    Tuple,
    /// A tuple struct; its name may mark it as an array.
    TupleStruct(Option<ArrayBrand>),
    /// A tuple variant; the name of its type may mark it as an array.
    TupleVariant(Option<ArrayBrand>),
    Mapping,
    Struct,
    StructVariant,
}

impl Shape {
    /// The kind of value that data of the shape is written as, or `None`
    /// where the format has no value for it.
    pub open spec fn kind(self) -> Option<Type> {
        match self {
            Shape::Bool | Shape::I8 => Some(Type::Byte),
            Shape::I16 => Some(Type::Short),
            Shape::I32 => Some(Type::Int),
            Shape::I64 => Some(Type::Long),
            Shape::F32 => Some(Type::Float),
            Shape::F64 => Some(Type::Double),
            Shape::Char | Shape::Str | Shape::UnitVariant => Some(Type::String),
            Shape::NewtypeVariant | Shape::Mapping | Shape::Struct | Shape::StructVariant => Some(
                Type::Compound,
            ),
            Shape::Sequence | Shape::Tuple => Some(Type::List),
            Shape::TupleStruct(brand) | Shape::TupleVariant(brand) => Some(
                match brand {
                    Some(ArrayBrand::Byte) => Type::ByteArray,
                    Some(ArrayBrand::Int) => Type::IntArray,
                    Some(ArrayBrand::Long) => Type::LongArray,
                    None => Type::List,
                },
            ),
            _ => None,
        }
    }

    /// The words for the shape in a message.
    pub open spec fn words(self) -> Seq<char> {
        match self {
            Shape::Bool => "`bool`"@,
            Shape::I8 => "`i8`"@,
            Shape::I16 => "`i16`"@,
            Shape::I32 => "`i32`"@,
            Shape::I64 => "`i64`"@,
            Shape::I128 => "`i128`"@,
            Shape::U8 => "`u8`"@,
            Shape::U16 => "`u16`"@,
            Shape::U32 => "`u32`"@,
            Shape::U64 => "`u64`"@,
            Shape::U128 => "`u128`"@,
            Shape::F32 => "`f32`"@,
            Shape::F64 => "`f64`"@,
            Shape::Char => "`char`"@,
            Shape::Str => "`&str`"@,
            Shape::Bytes => "`&[u8]`"@,
            Shape::Nothing => "`None`"@,
            Shape::Unit => "`()`"@,
            Shape::UnitStruct => "unit struct"@,
            Shape::UnitVariant => "unit variant"@,
            Shape::NewtypeVariant => "newtype variant"@,
            Shape::Sequence => "sequence"@,
            Shape::Tuple => "tuple"@,
            Shape::TupleStruct(brand) => match brand {
                Some(ArrayBrand::Byte) => "byte array"@,
                Some(ArrayBrand::Int) => "int array"@,
                Some(ArrayBrand::Long) => "long array"@,
                None => "tuple struct"@,
            },
            Shape::TupleVariant(brand) => match brand {
                Some(ArrayBrand::Byte) => "byte array"@,
                Some(ArrayBrand::Int) => "int array"@,
                Some(ArrayBrand::Long) => "long array"@,
                None => "tuple variant"@,
            },
            Shape::Mapping => "map"@,
            Shape::Struct => "struct"@,
            Shape::StructVariant => "struct variant"@,
        }
    }

    /// The words for the shape in a message.
    pub fn display(self) -> (words: &'static str)
        ensures
            words@ == self.words(),
    {
        match self {
            Shape::Bool => "`bool`",
            Shape::I8 => "`i8`",
            Shape::I16 => "`i16`",
            Shape::I32 => "`i32`",
            Shape::I64 => "`i64`",
            Shape::I128 => "`i128`",
            Shape::U8 => "`u8`",
            Shape::U16 => "`u16`",
            Shape::U32 => "`u32`",
            Shape::U64 => "`u64`",
            Shape::U128 => "`u128`",
            Shape::F32 => "`f32`",
            Shape::F64 => "`f64`",
            Shape::Char => "`char`",
            Shape::Str => "`&str`",
            Shape::Bytes => "`&[u8]`",
            Shape::Nothing => "`None`",
            Shape::Unit => "`()`",
            Shape::UnitStruct => "unit struct",
            Shape::UnitVariant => "unit variant",
            Shape::NewtypeVariant => "newtype variant",
            Shape::Sequence => "sequence",
            Shape::Tuple => "tuple",
            Shape::TupleStruct(brand) => match brand {
                Some(brand) => brand.display(),
                None => "tuple struct",
            },
            Shape::TupleVariant(brand) => match brand {
                Some(brand) => brand.display(),
                None => "tuple variant",
            },
            Shape::Mapping => "map",
            Shape::Struct => "struct",
            Shape::StructVariant => "struct variant",
        }
    }
}

/// The kind probe: finds out the kind of value that data of the shape is
/// written as. It looks at the shape alone and writes nothing. A shape
/// that the format has no value for is refused with the path, which is
/// drained into the error.
pub fn query_kind(shape: Shape, path: &mut Path) -> (result: Result<Type, Error>)
    ensures
        match result {
            Ok(kind) => shape.kind() == Some(kind) && final(path)@ == old(path)@,
            Err(error) => shape.kind() is None && error.has(
                Category::InvalidInput,
                invalid_type_message(shape.words()),
                PositionView::Path(old(path)@),
            ) && final(path)@ == Seq::<SegmentView>::empty(),
        },
{
    match shape {
        Shape::Bool | Shape::I8 => Ok(Type::Byte),
        Shape::I16 => Ok(Type::Short),
        Shape::I32 => Ok(Type::Int),
        Shape::I64 => Ok(Type::Long),
        Shape::F32 => Ok(Type::Float),
        Shape::F64 => Ok(Type::Double),
        Shape::Char | Shape::Str | Shape::UnitVariant => Ok(Type::String),
        Shape::NewtypeVariant | Shape::Mapping | Shape::Struct | Shape::StructVariant => Ok(
            Type::Compound,
        ),
        Shape::Sequence | Shape::Tuple => Ok(Type::List),
        Shape::TupleStruct(brand) | Shape::TupleVariant(brand) => Ok(
            match brand {
                Some(brand) => brand.kind(),
                None => Type::List,
            },
        ),
        _ => Err(Error::invalid_type(shape.display(), path)),
    }
}

/// What a producer hands in as the key of a map entry.
pub enum Key<'a> {
    Bool(bool),
    /// A signed integer of any width.
    Signed(i128),
    /// An unsigned integer of any width.
    Unsigned(u128),
    /// A string, or a character as a string of one.
    Str(&'a str),
    Bytes(&'a [u8]),
    /// A variant without data, by its name.
    UnitVariant(&'a str),
    /// Data of a shape that cannot be a key.
    Other(Shape),
}

/// The text that a key is written as, or the words for what it is, where it
/// cannot be a key. A boolean is `true` or `false`, an integer is its
/// decimal text, a string is itself, bytes are the text that they are the
/// UTF-8 encoding of, and a variant without data is its name.
pub open spec fn key_text(key: Key<'_>) -> Result<Seq<char>, Seq<char>> {
    match key {
        Key::Bool(value) => Ok(
            if value {
                "true"@
            } else {
                "false"@
            },
        ),
        Key::Signed(value) => Ok(decimal(value as int)),
        Key::Unsigned(value) => Ok(decimal(value as int)),
        Key::Str(value) => Ok(value@),
        Key::Bytes(value) => if valid_utf8(value@) {
            Ok(decode_utf8(value@))
        } else {
            Err("non-UTF8 `&[u8]`"@)
        },
        Key::UnitVariant(name) => Ok(name@),
        Key::Other(shape) => Err(shape.words()),
    }
}

/// Finds out the text of a key. While it does, the path ends in a segment
/// that stands for the key that is not known yet, so that a failure is
/// reported at the entry and not at the map. Data that cannot be a key is
/// refused; the path is drained into the error.
pub fn collect_key(key: Key<'_>, path: &mut Path) -> (result: Result<String, Error>)
    ensures
        match result {
            Ok(text) => key_text(key) == Ok::<Seq<char>, Seq<char>>(text@) && final(path)@ == old(path)@,
            Err(error) => key_text(key) matches Err(words) && error.has(
                Category::InvalidInput,
                invalid_key_message(words),
                PositionView::Path(old(path)@.push(SegmentView::Unresolved)),
            ) && final(path)@ == Seq::<SegmentView>::empty(),
        },
{
    path.enter_unresolved();
    let text = match key {
        Key::Bool(value) => if value {
            "true".to_owned()
        } else {
            "false".to_owned()
        },
        Key::Signed(value) => format_signed(value),
        Key::Unsigned(value) => format_unsigned(value),
        Key::Str(value) => value.to_owned(),
        Key::Bytes(value) => match string_from_utf8(vstd::slice::slice_to_vec(value)) {
            Some(text) => text,
            None => {
                return Err(Error::invalid_key("non-UTF8 `&[u8]`", path));
            },
        },
        Key::UnitVariant(name) => name.to_owned(),
        Key::Other(shape) => {
            return Err(Error::invalid_key(shape.display(), path));
        },
    };
    path.leave_unresolved();
    proof {
        assert(path@ =~= old(path)@);
    }
    Ok(text)
}

/// How a document starts, given the shape of its root.
#[derive(Debug, Clone, Copy, PartialEq, Eq, Structural)]
pub enum RootPlan {
    /// The document is the `End` tag alone: the root holds nothing.
    Nothing,
    /// The root is a list.
    List,
    /// The root is a compound.
    Compound,
    /// The root is a compound of one entry, named by a variant, whose
    /// value is whatever the variant holds.
    NewtypeVariant,
    /// The root is a compound of one entry, named by a variant, whose
    /// value is a sequence.
    TupleVariant(Option<ArrayBrand>),
    /// The root is a compound of one entry, named by a variant, whose
    /// value is a compound.
    StructVariant,
}

/// Why a shape cannot be the root of a document.
pub enum RootRefusal {
    /// The format has no value for data of the shape, or only a scalar or
    /// a string.
    Type,
    /// The shape is a sequence, and the caller allows no sequence as a
    /// root.
    Root,
}

/// How a document whose root has the given shape starts, or why there is
/// no such document. A map or a struct is a compound; a variant with data
/// is a compound of one entry; data that holds nothing is an empty
/// document. A sequence is a list, where the caller allows a list as a
/// root; an array never is a root. A scalar or a string never is.
pub open spec fn root_plan(shape: Shape, supports_list: bool) -> Result<RootPlan, RootRefusal> {
    match shape {
        Shape::Nothing | Shape::Unit | Shape::UnitStruct => Ok(RootPlan::Nothing),
        Shape::NewtypeVariant => Ok(RootPlan::NewtypeVariant),
        Shape::Sequence | Shape::Tuple => if supports_list {
            Ok(RootPlan::List)
        } else {
            Err(RootRefusal::Root)
        },
        Shape::TupleStruct(brand) => if supports_list && brand is None {
            Ok(RootPlan::List)
        } else {
            Err(RootRefusal::Root)
        },
        Shape::TupleVariant(brand) => if supports_list {
            Ok(RootPlan::TupleVariant(brand))
        } else {
            Err(RootRefusal::Root)
        },
        Shape::Mapping | Shape::Struct => Ok(RootPlan::Compound),
        Shape::StructVariant => Ok(RootPlan::StructVariant),
        _ => Err(RootRefusal::Type),
    }
}

/// The message of the error that a root of the shape is refused with.
pub open spec fn root_refusal_message(shape: Shape, refusal: RootRefusal) -> Seq<char> {
    match refusal {
        RootRefusal::Type => invalid_type_message(shape.words()),
        RootRefusal::Root => invalid_root_message(shape.words()),
    }
}

/// Decides how a document whose root has the given shape starts. A shape
/// that cannot be a root is refused with the path, which is drained into
/// the error.
pub fn plan_root(shape: Shape, supports_list: bool, path: &mut Path) -> (result: Result<
    RootPlan,
    Error,
>)
    ensures
        match result {
            Ok(plan) => root_plan(shape, supports_list) == Ok::<RootPlan, RootRefusal>(plan)
                && final(path)@ == old(path)@,
            Err(error) => root_plan(shape, supports_list) matches Err(refusal) && error.has(
                Category::InvalidInput,
                root_refusal_message(shape, refusal),
                PositionView::Path(old(path)@),
            ) && final(path)@ == Seq::<SegmentView>::empty(),
        },
{
    match shape {
        Shape::Nothing | Shape::Unit | Shape::UnitStruct => Ok(RootPlan::Nothing),
        Shape::NewtypeVariant => Ok(RootPlan::NewtypeVariant),
        Shape::Sequence | Shape::Tuple => if supports_list {
            Ok(RootPlan::List)
        } else {
            Err(Error::invalid_root(shape.display(), path))
        },
        Shape::TupleStruct(brand) => if supports_list && brand.is_none() {
            Ok(RootPlan::List)
        } else {
            Err(Error::invalid_root(shape.display(), path))
        },
        Shape::TupleVariant(brand) => if supports_list {
            Ok(RootPlan::TupleVariant(brand))
        } else {
            Err(Error::invalid_root(shape.display(), path))
        },
        Shape::Mapping | Shape::Struct => Ok(RootPlan::Compound),
        Shape::StructVariant => Ok(RootPlan::StructVariant),
        _ => Err(Error::invalid_type(shape.display(), path)),
    }
}

} // verus!
