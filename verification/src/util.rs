//! The marks by which a producer tells an array from a list.

use crate::text::str_eq;
use crate::value::tag::{Type, TypeId};
use vstd::prelude::*;

verus! {

/// Which of the three array kinds a marked sequence is.
#[derive(Debug, Clone, Copy, PartialEq, Eq, Structural)]
pub enum ArrayBrand {
    Byte,
    Int,
    Long,
}

/// The kind of a sequence as it is announced on the wire: one of the three
/// arrays, or a list with the tag of its elements.
#[derive(Debug, Clone, Copy, PartialEq, Eq, Structural)]
pub enum SeqKind {
    ByteArray,
    IntArray,
    LongArray,
    List(TypeId),
}

impl ArrayBrand {
    /// The name by which a producer marks a sequence as an array of the
    /// brand.
    pub open spec fn mark(self) -> Seq<char> {
        match self {
            ArrayBrand::Byte => "__serde_nbt_byte_array"@,
            ArrayBrand::Int => "__serde_nbt_int_array"@,
            ArrayBrand::Long => "__serde_nbt_long_array"@,
        }
    }

    /// The brand that a name marks, if it marks one.
    pub open spec fn of_mark(name: Seq<char>) -> Option<ArrayBrand> {
        if name == ArrayBrand::Byte.mark() {
            Some(ArrayBrand::Byte)
        } else if name == ArrayBrand::Int.mark() {
            Some(ArrayBrand::Int)
        } else if name == ArrayBrand::Long.mark() {
            Some(ArrayBrand::Long)
        } else {
            None
        }
    }

    /// The name by which a producer marks a sequence as an array of the
    /// brand.
    pub fn as_str(self) -> (name: &'static str)
        ensures
            name@ == self.mark(),
    {
        match self {
            ArrayBrand::Byte => "__serde_nbt_byte_array",
            ArrayBrand::Int => "__serde_nbt_int_array",
            ArrayBrand::Long => "__serde_nbt_long_array",
        }
    }

    /// The brand that a name marks, if it marks one.
    pub fn from_str(s: &str) -> (brand: Option<ArrayBrand>)
        ensures
            brand == ArrayBrand::of_mark(s@),
    {
        if str_eq(s, "__serde_nbt_byte_array") {
            Some(ArrayBrand::Byte)
        } else if str_eq(s, "__serde_nbt_int_array") {
            Some(ArrayBrand::Int)
        } else if str_eq(s, "__serde_nbt_long_array") {
            Some(ArrayBrand::Long)
        } else {
            None
        }
    }

    /// The words for the brand in a message.
    pub fn display(self) -> (words: &'static str)
        ensures
            words@ == (match self {
                ArrayBrand::Byte => "byte array"@,
                ArrayBrand::Int => "int array"@,
                ArrayBrand::Long => "long array"@,
            }),
    {
        match self {
            ArrayBrand::Byte => "byte array",
            ArrayBrand::Int => "int array",
            ArrayBrand::Long => "long array",
        }
    }

    /// The kind of the array itself.
    pub fn kind(self) -> (kind: Type)
        ensures
            kind == (match self {
                ArrayBrand::Byte => Type::ByteArray,
                ArrayBrand::Int => Type::IntArray,
                ArrayBrand::Long => Type::LongArray,
            }),
    {
        match self {
            ArrayBrand::Byte => Type::ByteArray,
            ArrayBrand::Int => Type::IntArray,
            ArrayBrand::Long => Type::LongArray,
        }
    }

    /// The kind of the elements of the array.
    pub fn element_kind(self) -> (kind: Type)
        ensures
            kind == (match self {
                ArrayBrand::Byte => Type::Byte,
                ArrayBrand::Int => Type::Int,
                ArrayBrand::Long => Type::Long,
            }),
            kind.id() == self.seq_kind().element(),
    {
        match self {
            ArrayBrand::Byte => Type::Byte,
            ArrayBrand::Int => Type::Int,
            ArrayBrand::Long => Type::Long,
        }
    }

    /// The kind of sequence that the brand announces.
    pub open spec fn seq_kind(self) -> SeqKind {
        match self {
            ArrayBrand::Byte => SeqKind::ByteArray,
            ArrayBrand::Int => SeqKind::IntArray,
            ArrayBrand::Long => SeqKind::LongArray,
        }
    }

    /// The kind of sequence that the brand announces.
    pub fn to_seq_kind(self) -> (kind: SeqKind)
        ensures
            kind == self.seq_kind(),
    {
        match self {
            ArrayBrand::Byte => SeqKind::ByteArray,
            ArrayBrand::Int => SeqKind::IntArray,
            ArrayBrand::Long => SeqKind::LongArray,
        }
    }
}

impl SeqKind {
    /// The tag of the elements of a sequence of the kind.
    pub open spec fn element(self) -> TypeId {
        match self {
            SeqKind::ByteArray => TypeId::Byte,
            SeqKind::IntArray => TypeId::Int,
            SeqKind::LongArray => TypeId::Long,
            SeqKind::List(id) => id,
        }
    }

    /// The tag of the sequence itself.
    pub open spec fn tag(self) -> TypeId {
        match self {
            SeqKind::ByteArray => TypeId::ByteArray,
            SeqKind::IntArray => TypeId::IntArray,
            SeqKind::LongArray => TypeId::LongArray,
            SeqKind::List(_) => TypeId::List,
        }
    }

    /// The tag of the elements of a sequence of the kind.
    pub fn element_id(self) -> (id: TypeId)
        ensures
            id == self.element(),
    {
        match self {
            SeqKind::ByteArray => TypeId::Byte,
            SeqKind::IntArray => TypeId::Int,
            SeqKind::LongArray => TypeId::Long,
            SeqKind::List(id) => id,
        }
    }
}

impl Default for SeqKind {
    /// A list without an element kind: what an empty sequence is announced
    /// as.
    fn default() -> (kind: SeqKind)
        ensures
            kind == SeqKind::List(TypeId::End),
    {
        SeqKind::List(TypeId::End)
    }
}

} // verus!
