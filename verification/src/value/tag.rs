//! Wire type codes and value kinds.

use vstd::prelude::*;

verus! {

/// The one-byte code that identifies a value's kind on the wire.
#[derive(Debug, Clone, Copy, PartialEq, Eq, Structural, PartialOrd, Ord, Hash)]
pub enum TypeId {
    /// The sentinel that terminates a compound; never the kind of a value.
    End,
    Byte,
    Short,
    Int,
    Long,
    Float,
    Double,
    ByteArray,
    String,
    List,
    Compound,
    IntArray,
    LongArray,
}

/// The kind of a value: every wire code except the `End` sentinel.
#[derive(Debug, Clone, Copy, PartialEq, Eq, Structural, PartialOrd, Ord, Hash)]
pub enum Type {
    Byte,
    Short,
    Int,
    Long,
    Float,
    Double,
    ByteArray,
    String,
    List,
    Compound,
    IntArray,
    LongArray,
}

impl TypeId {
    /// The numeric wire code of the tag, `0x00` to `0x0C`.
    pub open spec fn code(self) -> u8 {
        match self {
            TypeId::End => 0x00,
            TypeId::Byte => 0x01,
            TypeId::Short => 0x02,
            TypeId::Int => 0x03,
            TypeId::Long => 0x04,
            TypeId::Float => 0x05,
            TypeId::Double => 0x06,
            TypeId::ByteArray => 0x07,
            TypeId::String => 0x08,
            TypeId::List => 0x09,
            TypeId::Compound => 0x0A,
            TypeId::IntArray => 0x0B,
            TypeId::LongArray => 0x0C,
        }
    }

    /// The tag that a wire code stands for, if it is one of the thirteen.
    pub open spec fn of_code(byte: u8) -> Option<TypeId> {
        if byte == 0x00 {
            Some(TypeId::End)
        } else if byte == 0x01 {
            Some(TypeId::Byte)
        } else if byte == 0x02 {
            Some(TypeId::Short)
        } else if byte == 0x03 {
            Some(TypeId::Int)
        } else if byte == 0x04 {
            Some(TypeId::Long)
        } else if byte == 0x05 {
            Some(TypeId::Float)
        } else if byte == 0x06 {
            Some(TypeId::Double)
        } else if byte == 0x07 {
            Some(TypeId::ByteArray)
        } else if byte == 0x08 {
            Some(TypeId::String)
        } else if byte == 0x09 {
            Some(TypeId::List)
        } else if byte == 0x0A {
            Some(TypeId::Compound)
        } else if byte == 0x0B {
            Some(TypeId::IntArray)
        } else if byte == 0x0C {
            Some(TypeId::LongArray)
        } else {
            None
        }
    }

    /// Encodes the tag as its wire code.
    pub fn to_u8(self) -> (byte: u8)
        ensures
            byte == self.code(),
            byte <= 0x0C,
    {
        match self {
            TypeId::End => 0x00,
            TypeId::Byte => 0x01,
            TypeId::Short => 0x02,
            TypeId::Int => 0x03,
            TypeId::Long => 0x04,
            TypeId::Float => 0x05,
            TypeId::Double => 0x06,
            TypeId::ByteArray => 0x07,
            TypeId::String => 0x08,
            TypeId::List => 0x09,
            TypeId::Compound => 0x0A,
            TypeId::IntArray => 0x0B,
            TypeId::LongArray => 0x0C,
        }
    }

    /// Decodes a wire code; a byte above `0x0C` names no tag.
    pub fn from_u8(byte: u8) -> (id: Option<TypeId>)
        ensures
            id == TypeId::of_code(byte),
            id is Some <==> byte <= 0x0C,
    {
        match byte {
            0x00 => Some(TypeId::End),
            0x01 => Some(TypeId::Byte),
            0x02 => Some(TypeId::Short),
            0x03 => Some(TypeId::Int),
            0x04 => Some(TypeId::Long),
            0x05 => Some(TypeId::Float),
            0x06 => Some(TypeId::Double),
            0x07 => Some(TypeId::ByteArray),
            0x08 => Some(TypeId::String),
            0x09 => Some(TypeId::List),
            0x0A => Some(TypeId::Compound),
            0x0B => Some(TypeId::IntArray),
            0x0C => Some(TypeId::LongArray),
            _ => None,
        }
    }

    /// The kind that the tag names, or `None` for the `End` sentinel.
    pub open spec fn kind(self) -> Option<Type> {
        match self {
            TypeId::End => None,
            TypeId::Byte => Some(Type::Byte),
            TypeId::Short => Some(Type::Short),
            TypeId::Int => Some(Type::Int),
            TypeId::Long => Some(Type::Long),
            TypeId::Float => Some(Type::Float),
            TypeId::Double => Some(Type::Double),
            TypeId::ByteArray => Some(Type::ByteArray),
            TypeId::String => Some(Type::String),
            TypeId::List => Some(Type::List),
            TypeId::Compound => Some(Type::Compound),
            TypeId::IntArray => Some(Type::IntArray),
            TypeId::LongArray => Some(Type::LongArray),
        }
    }

    /// The kind that the tag names, or `None` for the `End` sentinel.
    pub fn to_type(self) -> (ty: Option<Type>)
        ensures
            ty == self.kind(),
    {
        match self {
            TypeId::End => None,
            TypeId::Byte => Some(Type::Byte),
            TypeId::Short => Some(Type::Short),
            TypeId::Int => Some(Type::Int),
            TypeId::Long => Some(Type::Long),
            TypeId::Float => Some(Type::Float),
            TypeId::Double => Some(Type::Double),
            TypeId::ByteArray => Some(Type::ByteArray),
            TypeId::String => Some(Type::String),
            TypeId::List => Some(Type::List),
            TypeId::Compound => Some(Type::Compound),
            TypeId::IntArray => Some(Type::IntArray),
            TypeId::LongArray => Some(Type::LongArray),
        }
    }
}

impl TypeId {
    /// The name of the tag, as messages print it.
    pub open spec fn name(self) -> Seq<char> {
        match self {
            TypeId::End => "End"@,
            TypeId::Byte => "Byte"@,
            TypeId::Short => "Short"@,
            TypeId::Int => "Int"@,
            TypeId::Long => "Long"@,
            TypeId::Float => "Float"@,
            TypeId::Double => "Double"@,
            TypeId::ByteArray => "ByteArray"@,
            TypeId::String => "String"@,
            TypeId::List => "List"@,
            TypeId::Compound => "Compound"@,
            TypeId::IntArray => "IntArray"@,
            TypeId::LongArray => "LongArray"@,
        }
    }

    /// The name of the tag, as messages print it.
    pub fn as_str(self) -> (name: &'static str)
        ensures
            name@ == self.name(),
    {
        match self {
            TypeId::End => "End",
            TypeId::Byte => "Byte",
            TypeId::Short => "Short",
            TypeId::Int => "Int",
            TypeId::Long => "Long",
            TypeId::Float => "Float",
            TypeId::Double => "Double",
            TypeId::ByteArray => "ByteArray",
            TypeId::String => "String",
            TypeId::List => "List",
            TypeId::Compound => "Compound",
            TypeId::IntArray => "IntArray",
            TypeId::LongArray => "LongArray",
        }
    }
}

impl Type {
    /// The wire tag of the kind.
    pub open spec fn id(self) -> TypeId {
        match self {
            Type::Byte => TypeId::Byte,
            Type::Short => TypeId::Short,
            Type::Int => TypeId::Int,
            Type::Long => TypeId::Long,
            Type::Float => TypeId::Float,
            Type::Double => TypeId::Double,
            Type::ByteArray => TypeId::ByteArray,
            Type::String => TypeId::String,
            Type::List => TypeId::List,
            Type::Compound => TypeId::Compound,
            Type::IntArray => TypeId::IntArray,
            Type::LongArray => TypeId::LongArray,
        }
    }

    /// The wire tag of the kind.
    pub fn to_id(self) -> (id: TypeId)
        ensures
            id == self.id(),
            id != TypeId::End,
            id.kind() == Some(self),
    {
        match self {
            Type::Byte => TypeId::Byte,
            Type::Short => TypeId::Short,
            Type::Int => TypeId::Int,
            Type::Long => TypeId::Long,
            Type::Float => TypeId::Float,
            Type::Double => TypeId::Double,
            Type::ByteArray => TypeId::ByteArray,
            Type::String => TypeId::String,
            Type::List => TypeId::List,
            Type::Compound => TypeId::Compound,
            Type::IntArray => TypeId::IntArray,
            Type::LongArray => TypeId::LongArray,
        }
    }
}

/// Every tag survives a trip through its wire code.
pub proof fn lemma_code_round_trip(id: TypeId)
    ensures
        TypeId::of_code(id.code()) == Some(id),
        id.code() <= 0x0C,
{
}

/// A byte that names a tag is that tag's wire code.
pub proof fn lemma_of_code_inverse(byte: u8)
    requires
        TypeId::of_code(byte) is Some,
    ensures
        TypeId::of_code(byte)->0.code() == byte,
{
}

} // verus!
