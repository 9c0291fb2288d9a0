//! The value: a recursive tagged union over the twelve kinds.

pub mod byte;
pub mod compound;
pub mod from;
pub mod list;
pub mod model;
pub mod ser;
pub mod tag;

pub use self::byte::Byte;
pub use self::compound::Compound;
pub use self::list::{List, MismatchError};
pub use self::model::{ListView, ValueView};
pub use self::tag::{Type, TypeId};

use self::compound::compound_entries;
use self::list::list_view;
use vstd::prelude::*;

verus! {

/// An array of bytes; on the wire it has a tag of its own and no tag per
/// element.
pub type ByteArray = Vec<Byte>;

/// An array of 32-bit integers.
pub type IntArray = Vec<i32>;

/// An array of 64-bit integers.
pub type LongArray = Vec<i64>;

/// A value of the format. It owns everything below it. A float is held by
/// its IEEE-754 bits, so that every value, a NaN too, equals itself and is
/// written back bit for bit.
#[derive(Debug, PartialEq)]
pub enum Value {
    Byte(Byte),
    Short(i16),
    Int(i32),
    Long(i64),
    /// The bits of a 32-bit float.
    Float(u32),
    /// The bits of a 64-bit float.
    Double(u64),
    ByteArray(ByteArray),
    String(String),
    List(List),
    Compound(Compound),
    IntArray(IntArray),
    LongArray(LongArray),
}

/// The numbers of the bytes of an array.
pub open spec fn bytes_view(bytes: Seq<Byte>) -> Seq<i8> {
    Seq::new(bytes.len(), |i: int| bytes[i].value())
}

/// The mathematical value of a value.
pub open spec fn value_view(value: Value) -> ValueView {
    match value {
        Value::Byte(v) => ValueView::Byte(v.value()),
        Value::Short(v) => ValueView::Short(v),
        Value::Int(v) => ValueView::Int(v),
        Value::Long(v) => ValueView::Long(v),
        Value::Float(v) => ValueView::Float(v),
        Value::Double(v) => ValueView::Double(v),
        Value::ByteArray(v) => ValueView::ByteArray(bytes_view(v@)),
        Value::String(v) => ValueView::String(v@),
        Value::List(v) => ValueView::List(list_view(v)),
        Value::Compound(v) => ValueView::Compound(compound_entries(v)),
        Value::IntArray(v) => ValueView::IntArray(v@),
        Value::LongArray(v) => ValueView::LongArray(v@),
    }
}

impl View for Value {
    type V = ValueView;

    open spec fn view(&self) -> ValueView {
        value_view(*self)
    }
}

impl Value {
    /// The kind of the value.
    pub open spec fn kind(self) -> Type {
        match self {
            Value::Byte(_) => Type::Byte,
            Value::Short(_) => Type::Short,
            Value::Int(_) => Type::Int,
            Value::Long(_) => Type::Long,
            Value::Float(_) => Type::Float,
            Value::Double(_) => Type::Double,
            Value::ByteArray(_) => Type::ByteArray,
            Value::String(_) => Type::String,
            Value::List(_) => Type::List,
            Value::Compound(_) => Type::Compound,
            Value::IntArray(_) => Type::IntArray,
            Value::LongArray(_) => Type::LongArray,
        }
    }

    /// The kind of the value.
    pub fn ty(&self) -> (ty: Type)
        ensures
            ty == self.kind(),
            ty.id() == self@.tag(),
    {
        match self {
            Value::Byte(_) => Type::Byte,
            Value::Short(_) => Type::Short,
            Value::Int(_) => Type::Int,
            Value::Long(_) => Type::Long,
            Value::Float(_) => Type::Float,
            Value::Double(_) => Type::Double,
            Value::ByteArray(_) => Type::ByteArray,
            Value::String(_) => Type::String,
            Value::List(_) => Type::List,
            Value::Compound(_) => Type::Compound,
            Value::IntArray(_) => Type::IntArray,
            Value::LongArray(_) => Type::LongArray,
        }
    }

    /// True when the value is a byte.
    pub fn is_byte(&self) -> (b: bool)
        ensures
            b == (self is Byte),
    {
        matches!(self, Value::Byte(_))
    }

    /// True when the value is a short.
    pub fn is_short(&self) -> (b: bool)
        ensures
            b == (self is Short),
    {
        matches!(self, Value::Short(_))
    }

    /// True when the value is an int.
    pub fn is_int(&self) -> (b: bool)
        ensures
            b == (self is Int),
    {
        matches!(self, Value::Int(_))
    }

    /// True when the value is a long.
    pub fn is_long(&self) -> (b: bool)
        ensures
            b == (self is Long),
    {
        matches!(self, Value::Long(_))
    }

    /// True when the value is a float.
    pub fn is_float(&self) -> (b: bool)
        ensures
            b == (self is Float),
    {
        matches!(self, Value::Float(_))
    }

    /// True when the value is a double.
    pub fn is_double(&self) -> (b: bool)
        ensures
            b == (self is Double),
    {
        matches!(self, Value::Double(_))
    }

    /// True when the value is a byte array.
    pub fn is_byte_array(&self) -> (b: bool)
        ensures
            b == (self is ByteArray),
    {
        matches!(self, Value::ByteArray(_))
    }

    /// True when the value is a string.
    pub fn is_string(&self) -> (b: bool)
        ensures
            b == (self is String),
    {
        matches!(self, Value::String(_))
    }

    /// True when the value is a list.
    pub fn is_list(&self) -> (b: bool)
        ensures
            b == (self is List),
    {
        matches!(self, Value::List(_))
    }

    /// True when the value is a compound.
    pub fn is_compound(&self) -> (b: bool)
        ensures
            b == (self is Compound),
    {
        matches!(self, Value::Compound(_))
    }

    /// True when the value is an int array.
    pub fn is_int_array(&self) -> (b: bool)
        ensures
            b == (self is IntArray),
    {
        matches!(self, Value::IntArray(_))
    }

    /// True when the value is a long array.
    pub fn is_long_array(&self) -> (b: bool)
        ensures
            b == (self is LongArray),
    {
        matches!(self, Value::LongArray(_))
    }

    /// The byte that the value holds, if it is a byte.
    pub fn as_byte(&self) -> (value: Option<Byte>)
        ensures
            value == (match *self {
                Value::Byte(v) => Some(v),
                _ => None,
            }),
    {
        match self {
            Value::Byte(value) => Some(*value),
            _ => None,
        }
    }

    /// The short that the value holds, if it is a short.
    pub fn as_short(&self) -> (value: Option<i16>)
        ensures
            value == (match *self {
                Value::Short(v) => Some(v),
                _ => None,
            }),
    {
        match self {
            Value::Short(value) => Some(*value),
            _ => None,
        }
    }

    /// The int that the value holds, if it is an int.
    pub fn as_int(&self) -> (value: Option<i32>)
        ensures
            value == (match *self {
                Value::Int(v) => Some(v),
                _ => None,
            }),
    {
        match self {
            Value::Int(value) => Some(*value),
            _ => None,
        }
    }

    /// The long that the value holds, if it is a long.
    pub fn as_long(&self) -> (value: Option<i64>)
        ensures
            value == (match *self {
                Value::Long(v) => Some(v),
                _ => None,
            }),
    {
        match self {
            Value::Long(value) => Some(*value),
            _ => None,
        }
    }

    /// The float that the value holds, if it is a float.
    pub fn as_float(&self) -> (value: Option<u32>)
        ensures
            value == (match *self {
                Value::Float(v) => Some(v),
                _ => None,
            }),
    {
        match self {
            Value::Float(value) => Some(*value),
            _ => None,
        }
    }

    /// The double that the value holds, if it is a double.
    pub fn as_double(&self) -> (value: Option<u64>)
        ensures
            value == (match *self {
                Value::Double(v) => Some(v),
                _ => None,
            }),
    {
        match self {
            Value::Double(value) => Some(*value),
            _ => None,
        }
    }

    /// The byte array that the value holds, if it is a byte array.
    pub fn as_byte_array(&self) -> (value: Option<&ByteArray>)
        ensures
            match value {
                Some(v) => *self == Value::ByteArray(*v),
                None => !(self is ByteArray),
            },
    {
        match self {
            Value::ByteArray(value) => Some(value),
            _ => None,
        }
    }

    /// The string that the value holds, if it is a string.
    pub fn as_string(&self) -> (value: Option<&String>)
        ensures
            match value {
                Some(v) => *self == Value::String(*v),
                None => !(self is String),
            },
    {
        match self {
            Value::String(value) => Some(value),
            _ => None,
        }
    }

    /// The list that the value holds, if it is a list.
    pub fn as_list(&self) -> (value: Option<&List>)
        ensures
            match value {
                Some(v) => *self == Value::List(*v),
                None => !(self is List),
            },
    {
        match self {
            Value::List(value) => Some(value),
            _ => None,
        }
    }

    /// The compound that the value holds, if it is a compound.
    pub fn as_compound(&self) -> (value: Option<&Compound>)
        ensures
            match value {
                Some(v) => *self == Value::Compound(*v),
                None => !(self is Compound),
            },
    {
        match self {
            Value::Compound(value) => Some(value),
            _ => None,
        }
    }

    /// The int array that the value holds, if it is an int array.
    pub fn as_int_array(&self) -> (value: Option<&IntArray>)
        ensures
            match value {
                Some(v) => *self == Value::IntArray(*v),
                None => !(self is IntArray),
            },
    {
        match self {
            Value::IntArray(value) => Some(value),
            _ => None,
        }
    }

    /// The long array that the value holds, if it is a long array.
    pub fn as_long_array(&self) -> (value: Option<&LongArray>)
        ensures
            match value {
                Some(v) => *self == Value::LongArray(*v),
                None => !(self is LongArray),
            },
    {
        match self {
            Value::LongArray(value) => Some(value),
            _ => None,
        }
    }

    /// Takes the byte out of the value; a value of another kind
    /// is handed back as it is.
    pub fn try_into_byte(self) -> (result: Result<Byte, Value>)
        ensures
            match result {
                Ok(v) => self == Value::Byte(v),
                Err(value) => value == self && !(self is Byte),
            },
    {
        match self {
            Value::Byte(value) => Ok(value),
            other => Err(other),
        }
    }

    /// Takes the short out of the value; a value of another kind
    /// is handed back as it is.
    pub fn try_into_short(self) -> (result: Result<i16, Value>)
        ensures
            match result {
                Ok(v) => self == Value::Short(v),
                Err(value) => value == self && !(self is Short),
            },
    {
        match self {
            Value::Short(value) => Ok(value),
            other => Err(other),
        }
    }

    /// Takes the int out of the value; a value of another kind
    /// is handed back as it is.
    pub fn try_into_int(self) -> (result: Result<i32, Value>)
        ensures
            match result {
                Ok(v) => self == Value::Int(v),
                Err(value) => value == self && !(self is Int),
            },
    {
        match self {
            Value::Int(value) => Ok(value),
            other => Err(other),
        }
    }

    /// Takes the long out of the value; a value of another kind
    /// is handed back as it is.
    pub fn try_into_long(self) -> (result: Result<i64, Value>)
        ensures
            match result {
                Ok(v) => self == Value::Long(v),
                Err(value) => value == self && !(self is Long),
            },
    {
        match self {
            Value::Long(value) => Ok(value),
            other => Err(other),
        }
    }

    /// Takes the float out of the value; a value of another kind
    /// is handed back as it is.
    pub fn try_into_float(self) -> (result: Result<u32, Value>)
        ensures
            match result {
                Ok(v) => self == Value::Float(v),
                Err(value) => value == self && !(self is Float),
            },
    {
        match self {
            Value::Float(value) => Ok(value),
            other => Err(other),
        }
    }

    /// Takes the double out of the value; a value of another kind
    /// is handed back as it is.
    pub fn try_into_double(self) -> (result: Result<u64, Value>)
        ensures
            match result {
                Ok(v) => self == Value::Double(v),
                Err(value) => value == self && !(self is Double),
            },
    {
        match self {
            Value::Double(value) => Ok(value),
            other => Err(other),
        }
    }

    /// Takes the byte array out of the value; a value of another kind
    /// is handed back as it is.
    pub fn try_into_byte_array(self) -> (result: Result<ByteArray, Value>)
        ensures
            match result {
                Ok(v) => self == Value::ByteArray(v),
                Err(value) => value == self && !(self is ByteArray),
            },
    {
        match self {
            Value::ByteArray(value) => Ok(value),
            other => Err(other),
        }
    }

    /// Takes the string out of the value; a value of another kind
    /// is handed back as it is.
    pub fn try_into_string(self) -> (result: Result<String, Value>)
        ensures
            match result {
                Ok(v) => self == Value::String(v),
                Err(value) => value == self && !(self is String),
            },
    {
        match self {
            Value::String(value) => Ok(value),
            other => Err(other),
        }
    }

    /// Takes the list out of the value; a value of another kind
    /// is handed back as it is.
    pub fn try_into_list(self) -> (result: Result<List, Value>)
        ensures
            match result {
                Ok(v) => self == Value::List(v),
                Err(value) => value == self && !(self is List),
            },
    {
        match self {
            Value::List(value) => Ok(value),
            other => Err(other),
        }
    }

    /// Takes the compound out of the value; a value of another kind
    /// is handed back as it is.
    pub fn try_into_compound(self) -> (result: Result<Compound, Value>)
        ensures
            match result {
                Ok(v) => self == Value::Compound(v),
                Err(value) => value == self && !(self is Compound),
            },
    {
        match self {
            Value::Compound(value) => Ok(value),
            other => Err(other),
        }
    }

    /// Takes the int array out of the value; a value of another kind
    /// is handed back as it is.
    pub fn try_into_int_array(self) -> (result: Result<IntArray, Value>)
        ensures
            match result {
                Ok(v) => self == Value::IntArray(v),
                Err(value) => value == self && !(self is IntArray),
            },
    {
        match self {
            Value::IntArray(value) => Ok(value),
            other => Err(other),
        }
    }

    /// Takes the long array out of the value; a value of another kind
    /// is handed back as it is.
    pub fn try_into_long_array(self) -> (result: Result<LongArray, Value>)
        ensures
            match result {
                Ok(v) => self == Value::LongArray(v),
                Err(value) => value == self && !(self is LongArray),
            },
    {
        match self {
            Value::LongArray(value) => Ok(value),
            other => Err(other),
        }
    }
}

impl Clone for Value {
    fn clone(&self) -> (copy: Value)
        ensures
            copy@ == self@,
    {
        match self {
            Value::Byte(v) => Value::Byte(*v),
            Value::Short(v) => Value::Short(*v),
            Value::Int(v) => Value::Int(*v),
            Value::Long(v) => Value::Long(*v),
            Value::Float(v) => Value::Float(*v),
            Value::Double(v) => Value::Double(*v),
            Value::ByteArray(v) => {
                let copy = v.clone();
                proof {
                    assert(copy@ =~= v@);
                }
                Value::ByteArray(copy)
            },
            Value::String(v) => Value::String(v.clone()),
            Value::List(v) => Value::List(v.clone()),
            Value::Compound(v) => Value::Compound(v.clone()),
            Value::IntArray(v) => {
                let copy = v.clone();
                proof {
                    assert(copy@ =~= v@);
                }
                Value::IntArray(copy)
            },
            Value::LongArray(v) => {
                let copy = v.clone();
                proof {
                    assert(copy@ =~= v@);
                }
                Value::LongArray(copy)
            },
        }
    }
}

} // verus!
