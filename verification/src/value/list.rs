//! The list: a homogeneous sequence of values.

use super::compound::compound_entries;
use super::model::{ListView, ValueView};
use super::tag::{Type, TypeId};
use super::{bytes_view, Byte, ByteArray, Compound, IntArray, LongArray, Value};
use vstd::prelude::*;

verus! {

/// A list of values of one kind. It holds one array per possible element
/// kind, so that a list of two kinds cannot be built; `Empty` is the list
/// before its first element has fixed the kind.
#[derive(Debug, PartialEq)]
pub enum List {
    /// A list without elements and without an element kind.
    Empty,
    Byte(Vec<Byte>),
    Short(Vec<i16>),
    Int(Vec<i32>),
    Long(Vec<i64>),
    Float(Vec<u32>),
    Double(Vec<u64>),
    ByteArray(Vec<ByteArray>),
    String(Vec<String>),
    List(Vec<List>),
    Compound(Vec<Compound>),
    IntArray(Vec<IntArray>),
    LongArray(Vec<LongArray>),
}

/// What two lists of different element kinds cannot be appended with.
#[derive(Debug, Clone, Copy, PartialEq, Eq, Structural)]
pub struct MismatchError;

impl MismatchError {
    /// The text of the error.
    pub fn display(&self) -> (text: String)
        ensures
            text@ == "the given datatypes did not match"@,
    {
        "the given datatypes did not match".to_owned()
    }
}

/// The values of the elements of a list of bytes.
pub open spec fn byte_items(elements: Seq<Byte>) -> Seq<ValueView> {
    Seq::new(elements.len(), |i: int| ValueView::Byte(elements[i].value()))
}

/// The values of the elements of a list of shorts.
pub open spec fn short_items(elements: Seq<i16>) -> Seq<ValueView> {
    Seq::new(elements.len(), |i: int| ValueView::Short(elements[i]))
}

/// The values of the elements of a list of ints.
pub open spec fn int_items(elements: Seq<i32>) -> Seq<ValueView> {
    Seq::new(elements.len(), |i: int| ValueView::Int(elements[i]))
}

/// The values of the elements of a list of longs.
pub open spec fn long_items(elements: Seq<i64>) -> Seq<ValueView> {
    Seq::new(elements.len(), |i: int| ValueView::Long(elements[i]))
}

/// The values of the elements of a list of floats.
pub open spec fn float_items(elements: Seq<u32>) -> Seq<ValueView> {
    Seq::new(elements.len(), |i: int| ValueView::Float(elements[i]))
}

/// The values of the elements of a list of doubles.
pub open spec fn double_items(elements: Seq<u64>) -> Seq<ValueView> {
    Seq::new(elements.len(), |i: int| ValueView::Double(elements[i]))
}

/// The values of the elements of a list of byte arrays.
pub open spec fn byte_array_items(elements: Seq<ByteArray>) -> Seq<ValueView> {
    Seq::new(elements.len(), |i: int| ValueView::ByteArray(bytes_view(elements[i]@)))
}

/// The values of the elements of a list of strings.
pub open spec fn string_items(elements: Seq<String>) -> Seq<ValueView> {
    Seq::new(elements.len(), |i: int| ValueView::String(elements[i]@))
}

/// The values of the elements of a list of compounds.
pub open spec fn compound_items(elements: Seq<Compound>) -> Seq<ValueView> {
    Seq::new(elements.len(), |i: int| ValueView::Compound(compound_entries(elements[i])))
}

/// The values of the elements of a list of int arrays.
pub open spec fn int_array_items(elements: Seq<IntArray>) -> Seq<ValueView> {
    Seq::new(elements.len(), |i: int| ValueView::IntArray(elements[i]@))
}

/// The values of the elements of a list of long arrays.
pub open spec fn long_array_items(elements: Seq<LongArray>) -> Seq<ValueView> {
    Seq::new(elements.len(), |i: int| ValueView::LongArray(elements[i]@))
}

/// The mathematical value of a list.
pub open spec fn list_view(list: List) -> ListView
    decreases list,
{
    match list {
        List::Empty => ListView { elem: TypeId::End, items: Seq::empty() },
        List::Byte(v) => ListView { elem: TypeId::Byte, items: byte_items(v@) },
        List::Short(v) => ListView { elem: TypeId::Short, items: short_items(v@) },
        List::Int(v) => ListView { elem: TypeId::Int, items: int_items(v@) },
        List::Long(v) => ListView { elem: TypeId::Long, items: long_items(v@) },
        List::Float(v) => ListView { elem: TypeId::Float, items: float_items(v@) },
        List::Double(v) => ListView { elem: TypeId::Double, items: double_items(v@) },
        List::ByteArray(v) => ListView { elem: TypeId::ByteArray, items: byte_array_items(v@) },
        List::String(v) => ListView { elem: TypeId::String, items: string_items(v@) },
        List::List(v) => ListView {
            elem: TypeId::List,
            items: Seq::new(
                v@.len(),
                |i: int|
                    if 0 <= i < v@.len() {
                        ValueView::List(list_view(v@[i]))
                    } else {
                        ValueView::Byte(0)
                    },
            ),
        },
        List::Compound(v) => ListView { elem: TypeId::Compound, items: compound_items(v@) },
        List::IntArray(v) => ListView { elem: TypeId::IntArray, items: int_array_items(v@) },
        List::LongArray(v) => ListView { elem: TypeId::LongArray, items: long_array_items(v@) },
    }
}

/// The values of the elements of a list of lists.
pub open spec fn list_items(elements: Seq<List>) -> Seq<ValueView> {
    Seq::new(elements.len(), |i: int| ValueView::List(list_view(elements[i])))
}

/// The view of a list of lists, element by element.
pub proof fn lemma_list_of_lists(v: Vec<List>)
    ensures
        list_view(List::List(v)) == (ListView { elem: TypeId::List, items: list_items(v@) }),
{
    assert(list_view(List::List(v)).items =~= list_items(v@));
}

impl View for List {
    type V = ListView;

    open spec fn view(&self) -> ListView {
        list_view(*self)
    }
}

impl Default for List {
    fn default() -> (list: List)
        ensures
            list == List::Empty,
    {
        List::Empty
    }
}

/// True when a value of the given tag may join a list whose elements have
/// the tag `elem`: the list has no element kind yet, or the tags agree.
pub open spec fn admits(elem: TypeId, tag: TypeId) -> bool {
    elem == TypeId::End || elem == tag
}

/// Every list is homogeneous: each element has the tag of the list.
pub proof fn lemma_list_homogeneous(list: List)
    ensures
        list@.elem == TypeId::End ==> list@.items.len() == 0,
        forall|i: int| 0 <= i < list@.items.len() ==> (#[trigger] list@.items[i]).tag() == list@.elem,
{
    match list {
        List::List(v) => {
            lemma_list_of_lists(v);
        },
        _ => {},
    }
}

impl List {
    /// The list that holds the one value.
    pub fn from_value(value: Value) -> (list: List)
        ensures
            list@ == (ListView { elem: value@.tag(), items: seq![value@] }),
    {
        match value {
            Value::Byte(value) => {
                let mut elements: Vec<Byte> = Vec::new();
                elements.push(value);
                let list = List::Byte(elements);
                proof {

                    assert(list@.items =~= seq![ValueView::Byte(value.value())]);
                }
                list
            },
            Value::Short(value) => {
                let mut elements: Vec<i16> = Vec::new();
                elements.push(value);
                let list = List::Short(elements);
                proof {

                    assert(list@.items =~= seq![ValueView::Short(value)]);
                }
                list
            },
            Value::Int(value) => {
                let mut elements: Vec<i32> = Vec::new();
                elements.push(value);
                let list = List::Int(elements);
                proof {

                    assert(list@.items =~= seq![ValueView::Int(value)]);
                }
                list
            },
            Value::Long(value) => {
                let mut elements: Vec<i64> = Vec::new();
                elements.push(value);
                let list = List::Long(elements);
                proof {

                    assert(list@.items =~= seq![ValueView::Long(value)]);
                }
                list
            },
            Value::Float(value) => {
                let mut elements: Vec<u32> = Vec::new();
                elements.push(value);
                let list = List::Float(elements);
                proof {

                    assert(list@.items =~= seq![ValueView::Float(value)]);
                }
                list
            },
            Value::Double(value) => {
                let mut elements: Vec<u64> = Vec::new();
                elements.push(value);
                let list = List::Double(elements);
                proof {

                    assert(list@.items =~= seq![ValueView::Double(value)]);
                }
                list
            },
            Value::ByteArray(value) => {
                let mut elements: Vec<ByteArray> = Vec::new();
                elements.push(value);
                let list = List::ByteArray(elements);
                proof {

                    assert(list@.items =~= seq![ValueView::ByteArray(bytes_view(value@))]);
                }
                list
            },
            Value::String(value) => {
                let mut elements: Vec<String> = Vec::new();
                elements.push(value);
                let list = List::String(elements);
                proof {

                    assert(list@.items =~= seq![ValueView::String(value@)]);
                }
                list
            },
            Value::List(value) => {
                let mut elements: Vec<List> = Vec::new();
                elements.push(value);
                let list = List::List(elements);
                proof {
                    lemma_list_of_lists(elements);
                    assert(list@.items =~= seq![ValueView::List(list_view(value))]);
                }
                list
            },
            Value::Compound(value) => {
                let mut elements: Vec<Compound> = Vec::new();
                elements.push(value);
                let list = List::Compound(elements);
                proof {

                    assert(list@.items =~= seq![ValueView::Compound(compound_entries(value))]);
                }
                list
            },
            Value::IntArray(value) => {
                let mut elements: Vec<IntArray> = Vec::new();
                elements.push(value);
                let list = List::IntArray(elements);
                proof {

                    assert(list@.items =~= seq![ValueView::IntArray(value@)]);
                }
                list
            },
            Value::LongArray(value) => {
                let mut elements: Vec<LongArray> = Vec::new();
                elements.push(value);
                let list = List::LongArray(elements);
                proof {

                    assert(list@.items =~= seq![ValueView::LongArray(value@)]);
                }
                list
            },
        }
    }

    /// An empty list of the given element kind, with room for `capacity`
    /// elements.
    pub fn with_capacity_and_type(capacity: usize, ty: Type) -> (list: List)
        ensures
            list@ == (ListView { elem: ty.id(), items: Seq::empty() }),
    {
        let list = match ty {
            Type::Byte => List::Byte(Vec::with_capacity(capacity)),
            Type::Short => List::Short(Vec::with_capacity(capacity)),
            Type::Int => List::Int(Vec::with_capacity(capacity)),
            Type::Long => List::Long(Vec::with_capacity(capacity)),
            Type::Float => List::Float(Vec::with_capacity(capacity)),
            Type::Double => List::Double(Vec::with_capacity(capacity)),
            Type::ByteArray => List::ByteArray(Vec::with_capacity(capacity)),
            Type::String => List::String(Vec::with_capacity(capacity)),
            Type::List => List::List(Vec::with_capacity(capacity)),
            Type::Compound => List::Compound(Vec::with_capacity(capacity)),
            Type::IntArray => List::IntArray(Vec::with_capacity(capacity)),
            Type::LongArray => List::LongArray(Vec::with_capacity(capacity)),
        };
        proof {
            assert(list@.items =~= Seq::<ValueView>::empty());
        }
        list
    }

    /// The element kind of the list, or `None` where it has none yet.
    pub fn ty(&self) -> (ty: Option<Type>)
        ensures
            ty == self@.elem.kind(),
    {
        match self {
            List::Empty => None,
            List::Byte(_) => Some(Type::Byte),
            List::Short(_) => Some(Type::Short),
            List::Int(_) => Some(Type::Int),
            List::Long(_) => Some(Type::Long),
            List::Float(_) => Some(Type::Float),
            List::Double(_) => Some(Type::Double),
            List::ByteArray(_) => Some(Type::ByteArray),
            List::String(_) => Some(Type::String),
            List::List(_) => Some(Type::List),
            List::Compound(_) => Some(Type::Compound),
            List::IntArray(_) => Some(Type::IntArray),
            List::LongArray(_) => Some(Type::LongArray),
        }
    }

    /// The tag that the list declares for its elements on the wire: `End`
    /// where it has no element kind yet.
    pub fn id(&self) -> (id: TypeId)
        ensures
            id == self@.elem,
    {
        match self {
            List::Empty => TypeId::End,
            List::Byte(_) => TypeId::Byte,
            List::Short(_) => TypeId::Short,
            List::Int(_) => TypeId::Int,
            List::Long(_) => TypeId::Long,
            List::Float(_) => TypeId::Float,
            List::Double(_) => TypeId::Double,
            List::ByteArray(_) => TypeId::ByteArray,
            List::String(_) => TypeId::String,
            List::List(_) => TypeId::List,
            List::Compound(_) => TypeId::Compound,
            List::IntArray(_) => TypeId::IntArray,
            List::LongArray(_) => TypeId::LongArray,
        }
    }

    /// The number of elements.
    pub fn len(&self) -> (len: usize)
        ensures
            len == self@.items.len(),
    {
        match self {
            List::Empty => 0,
            List::Byte(v) => v.len(),
            List::Short(v) => v.len(),
            List::Int(v) => v.len(),
            List::Long(v) => v.len(),
            List::Float(v) => v.len(),
            List::Double(v) => v.len(),
            List::ByteArray(v) => v.len(),
            List::String(v) => v.len(),
            List::List(v) => v.len(),
            List::Compound(v) => v.len(),
            List::IntArray(v) => v.len(),
            List::LongArray(v) => v.len(),
        }
    }

    /// True when the list has no element.
    pub fn is_empty(&self) -> (empty: bool)
        ensures
            empty == (self@.items.len() == 0),
    {
        self.len() == 0
    }

    /// True when the list is one of bytes.
    pub fn is_byte(&self) -> (b: bool)
        ensures
            b == (self is Byte),
    {
        matches!(self, List::Byte(_))
    }

    /// True when the list is one of shorts.
    pub fn is_short(&self) -> (b: bool)
        ensures
            b == (self is Short),
    {
        matches!(self, List::Short(_))
    }

    /// True when the list is one of ints.
    pub fn is_int(&self) -> (b: bool)
        ensures
            b == (self is Int),
    {
        matches!(self, List::Int(_))
    }

    /// True when the list is one of longs.
    pub fn is_long(&self) -> (b: bool)
        ensures
            b == (self is Long),
    {
        matches!(self, List::Long(_))
    }

    /// True when the list is one of floats.
    pub fn is_float(&self) -> (b: bool)
        ensures
            b == (self is Float),
    {
        matches!(self, List::Float(_))
    }

    /// True when the list is one of doubles.
    pub fn is_double(&self) -> (b: bool)
        ensures
            b == (self is Double),
    {
        matches!(self, List::Double(_))
    }

    /// True when the list is one of byte arrays.
    pub fn is_byte_array(&self) -> (b: bool)
        ensures
            b == (self is ByteArray),
    {
        matches!(self, List::ByteArray(_))
    }

    /// True when the list is one of strings.
    pub fn is_string(&self) -> (b: bool)
        ensures
            b == (self is String),
    {
        matches!(self, List::String(_))
    }

    /// True when the list is one of lists.
    pub fn is_list(&self) -> (b: bool)
        ensures
            b == (self is List),
    {
        matches!(self, List::List(_))
    }

    /// True when the list is one of compounds.
    pub fn is_compound(&self) -> (b: bool)
        ensures
            b == (self is Compound),
    {
        matches!(self, List::Compound(_))
    }

    /// True when the list is one of int arrays.
    pub fn is_int_array(&self) -> (b: bool)
        ensures
            b == (self is IntArray),
    {
        matches!(self, List::IntArray(_))
    }

    /// True when the list is one of long arrays.
    pub fn is_long_array(&self) -> (b: bool)
        ensures
            b == (self is LongArray),
    {
        matches!(self, List::LongArray(_))
    }

    /// The bytes of the list, if it is a list of bytes.
    pub fn as_byte(&self) -> (elements: Option<&Vec<Byte>>)
        ensures
            match elements {
                Some(v) => *self == List::Byte(*v),
                None => !(self is Byte),
            },
    {
        match self {
            List::Byte(elements) => Some(elements),
            _ => None,
        }
    }

    /// The shorts of the list, if it is a list of shorts.
    pub fn as_short(&self) -> (elements: Option<&Vec<i16>>)
        ensures
            match elements {
                Some(v) => *self == List::Short(*v),
                None => !(self is Short),
            },
    {
        match self {
            List::Short(elements) => Some(elements),
            _ => None,
        }
    }

    /// The ints of the list, if it is a list of ints.
    pub fn as_int(&self) -> (elements: Option<&Vec<i32>>)
        ensures
            match elements {
                Some(v) => *self == List::Int(*v),
                None => !(self is Int),
            },
    {
        match self {
            List::Int(elements) => Some(elements),
            _ => None,
        }
    }

    /// The longs of the list, if it is a list of longs.
    pub fn as_long(&self) -> (elements: Option<&Vec<i64>>)
        ensures
            match elements {
                Some(v) => *self == List::Long(*v),
                None => !(self is Long),
            },
    {
        match self {
            List::Long(elements) => Some(elements),
            _ => None,
        }
    }

    /// The floats of the list, if it is a list of floats.
    pub fn as_float(&self) -> (elements: Option<&Vec<u32>>)
        ensures
            match elements {
                Some(v) => *self == List::Float(*v),
                None => !(self is Float),
            },
    {
        match self {
            List::Float(elements) => Some(elements),
            _ => None,
        }
    }

    /// The doubles of the list, if it is a list of doubles.
    pub fn as_double(&self) -> (elements: Option<&Vec<u64>>)
        ensures
            match elements {
                Some(v) => *self == List::Double(*v),
                None => !(self is Double),
            },
    {
        match self {
            List::Double(elements) => Some(elements),
            _ => None,
        }
    }

    /// The byte arrays of the list, if it is a list of byte arrays.
    pub fn as_byte_array(&self) -> (elements: Option<&Vec<ByteArray>>)
        ensures
            match elements {
                Some(v) => *self == List::ByteArray(*v),
                None => !(self is ByteArray),
            },
    {
        match self {
            List::ByteArray(elements) => Some(elements),
            _ => None,
        }
    }

    /// The strings of the list, if it is a list of strings.
    pub fn as_string(&self) -> (elements: Option<&Vec<String>>)
        ensures
            match elements {
                Some(v) => *self == List::String(*v),
                None => !(self is String),
            },
    {
        match self {
            List::String(elements) => Some(elements),
            _ => None,
        }
    }

    /// The lists of the list, if it is a list of lists.
    pub fn as_list(&self) -> (elements: Option<&Vec<List>>)
        ensures
            match elements {
                Some(v) => *self == List::List(*v),
                None => !(self is List),
            },
    {
        match self {
            List::List(elements) => Some(elements),
            _ => None,
        }
    }

    /// The compounds of the list, if it is a list of compounds.
    pub fn as_compound(&self) -> (elements: Option<&Vec<Compound>>)
        ensures
            match elements {
                Some(v) => *self == List::Compound(*v),
                None => !(self is Compound),
            },
    {
        match self {
            List::Compound(elements) => Some(elements),
            _ => None,
        }
    }

    /// The int arrays of the list, if it is a list of int arrays.
    pub fn as_int_array(&self) -> (elements: Option<&Vec<IntArray>>)
        ensures
            match elements {
                Some(v) => *self == List::IntArray(*v),
                None => !(self is IntArray),
            },
    {
        match self {
            List::IntArray(elements) => Some(elements),
            _ => None,
        }
    }

    /// The long arrays of the list, if it is a list of long arrays.
    pub fn as_long_array(&self) -> (elements: Option<&Vec<LongArray>>)
        ensures
            match elements {
                Some(v) => *self == List::LongArray(*v),
                None => !(self is LongArray),
            },
    {
        match self {
            List::LongArray(elements) => Some(elements),
            _ => None,
        }
    }

    /// Takes the bytes out of the list; a list of another kind is
    /// handed back as it is.
    pub fn try_into_byte(self) -> (result: Result<Vec<Byte>, List>)
        ensures
            match result {
                Ok(v) => self == List::Byte(v),
                Err(list) => list == self && !(self is Byte),
            },
    {
        match self {
            List::Byte(elements) => Ok(elements),
            other => Err(other),
        }
    }

    /// Takes the shorts out of the list; a list of another kind is
    /// handed back as it is.
    pub fn try_into_short(self) -> (result: Result<Vec<i16>, List>)
        ensures
            match result {
                Ok(v) => self == List::Short(v),
                Err(list) => list == self && !(self is Short),
            },
    {
        match self {
            List::Short(elements) => Ok(elements),
            other => Err(other),
        }
    }

    /// Takes the ints out of the list; a list of another kind is
    /// handed back as it is.
    pub fn try_into_int(self) -> (result: Result<Vec<i32>, List>)
        ensures
            match result {
                Ok(v) => self == List::Int(v),
                Err(list) => list == self && !(self is Int),
            },
    {
        match self {
            List::Int(elements) => Ok(elements),
            other => Err(other),
        }
    }

    /// Takes the longs out of the list; a list of another kind is
    /// handed back as it is.
    pub fn try_into_long(self) -> (result: Result<Vec<i64>, List>)
        ensures
            match result {
                Ok(v) => self == List::Long(v),
                Err(list) => list == self && !(self is Long),
            },
    {
        match self {
            List::Long(elements) => Ok(elements),
            other => Err(other),
        }
    }

    /// Takes the floats out of the list; a list of another kind is
    /// handed back as it is.
    pub fn try_into_float(self) -> (result: Result<Vec<u32>, List>)
        ensures
            match result {
                Ok(v) => self == List::Float(v),
                Err(list) => list == self && !(self is Float),
            },
    {
        match self {
            List::Float(elements) => Ok(elements),
            other => Err(other),
        }
    }

    /// Takes the doubles out of the list; a list of another kind is
    /// handed back as it is.
    pub fn try_into_double(self) -> (result: Result<Vec<u64>, List>)
        ensures
            match result {
                Ok(v) => self == List::Double(v),
                Err(list) => list == self && !(self is Double),
            },
    {
        match self {
            List::Double(elements) => Ok(elements),
            other => Err(other),
        }
    }

    /// Takes the byte arrays out of the list; a list of another kind is
    /// handed back as it is.
    pub fn try_into_byte_array(self) -> (result: Result<Vec<ByteArray>, List>)
        ensures
            match result {
                Ok(v) => self == List::ByteArray(v),
                Err(list) => list == self && !(self is ByteArray),
            },
    {
        match self {
            List::ByteArray(elements) => Ok(elements),
            other => Err(other),
        }
    }

    /// Takes the strings out of the list; a list of another kind is
    /// handed back as it is.
    pub fn try_into_string(self) -> (result: Result<Vec<String>, List>)
        ensures
            match result {
                Ok(v) => self == List::String(v),
                Err(list) => list == self && !(self is String),
            },
    {
        match self {
            List::String(elements) => Ok(elements),
            other => Err(other),
        }
    }

    /// Takes the lists out of the list; a list of another kind is
    /// handed back as it is.
    pub fn try_into_list(self) -> (result: Result<Vec<List>, List>)
        ensures
            match result {
                Ok(v) => self == List::List(v),
                Err(list) => list == self && !(self is List),
            },
    {
        match self {
            List::List(elements) => Ok(elements),
            other => Err(other),
        }
    }

    /// Takes the compounds out of the list; a list of another kind is
    /// handed back as it is.
    pub fn try_into_compound(self) -> (result: Result<Vec<Compound>, List>)
        ensures
            match result {
                Ok(v) => self == List::Compound(v),
                Err(list) => list == self && !(self is Compound),
            },
    {
        match self {
            List::Compound(elements) => Ok(elements),
            other => Err(other),
        }
    }

    /// Takes the int arrays out of the list; a list of another kind is
    /// handed back as it is.
    pub fn try_into_int_array(self) -> (result: Result<Vec<IntArray>, List>)
        ensures
            match result {
                Ok(v) => self == List::IntArray(v),
                Err(list) => list == self && !(self is IntArray),
            },
    {
        match self {
            List::IntArray(elements) => Ok(elements),
            other => Err(other),
        }
    }

    /// Takes the long arrays out of the list; a list of another kind is
    /// handed back as it is.
    pub fn try_into_long_array(self) -> (result: Result<Vec<LongArray>, List>)
        ensures
            match result {
                Ok(v) => self == List::LongArray(v),
                Err(list) => list == self && !(self is LongArray),
            },
    {
        match self {
            List::LongArray(elements) => Ok(elements),
            other => Err(other),
        }
    }

    /// Appends the value, if the list admits its kind. A value of another
    /// kind than the elements is handed back, and the list stays as it was.
    pub fn push_checked(&mut self, value: Value) -> (result: Result<(), Value>)
        ensures
            admits(old(self)@.elem, value@.tag()) ==> result is Ok && final(self)@ == (ListView {
                elem: value@.tag(),
                items: old(self)@.items.push(value@),
            }),
            !admits(old(self)@.elem, value@.tag()) ==> result == Err::<(), Value>(value)
                && *final(self) == *old(self),
    {
        if let List::Empty = self {
            *self = List::from_value(value);
            proof {
                assert(seq![value@] =~= old(self)@.items.push(value@));
            }
            return Ok(());
        }
        let ghost before = self@.items;
        match (self, value) {
            (List::Byte(elements), Value::Byte(value)) => {
                proof {

                }
                elements.push(value);
                proof {

                    assert(List::Byte(*elements)@.items =~= before.push(ValueView::Byte(value.value())));
                }
                Ok(())
            },
            (List::Short(elements), Value::Short(value)) => {
                proof {

                }
                elements.push(value);
                proof {

                    assert(List::Short(*elements)@.items =~= before.push(ValueView::Short(value)));
                }
                Ok(())
            },
            (List::Int(elements), Value::Int(value)) => {
                proof {

                }
                elements.push(value);
                proof {

                    assert(List::Int(*elements)@.items =~= before.push(ValueView::Int(value)));
                }
                Ok(())
            },
            (List::Long(elements), Value::Long(value)) => {
                proof {

                }
                elements.push(value);
                proof {

                    assert(List::Long(*elements)@.items =~= before.push(ValueView::Long(value)));
                }
                Ok(())
            },
            (List::Float(elements), Value::Float(value)) => {
                proof {

                }
                elements.push(value);
                proof {

                    assert(List::Float(*elements)@.items =~= before.push(ValueView::Float(value)));
                }
                Ok(())
            },
            (List::Double(elements), Value::Double(value)) => {
                proof {

                }
                elements.push(value);
                proof {

                    assert(List::Double(*elements)@.items =~= before.push(ValueView::Double(value)));
                }
                Ok(())
            },
            (List::ByteArray(elements), Value::ByteArray(value)) => {
                proof {

                }
                elements.push(value);
                proof {

                    assert(List::ByteArray(*elements)@.items =~= before.push(ValueView::ByteArray(bytes_view(value@))));
                }
                Ok(())
            },
            (List::String(elements), Value::String(value)) => {
                proof {

                }
                elements.push(value);
                proof {

                    assert(List::String(*elements)@.items =~= before.push(ValueView::String(value@)));
                }
                Ok(())
            },
            (List::List(elements), Value::List(value)) => {
                proof {
                    lemma_list_of_lists(*elements);
                }
                elements.push(value);
                proof {
                    lemma_list_of_lists(*elements);
                    assert(List::List(*elements)@.items =~= before.push(ValueView::List(list_view(value))));
                }
                Ok(())
            },
            (List::Compound(elements), Value::Compound(value)) => {
                proof {

                }
                elements.push(value);
                proof {

                    assert(List::Compound(*elements)@.items =~= before.push(ValueView::Compound(compound_entries(value))));
                }
                Ok(())
            },
            (List::IntArray(elements), Value::IntArray(value)) => {
                proof {

                }
                elements.push(value);
                proof {

                    assert(List::IntArray(*elements)@.items =~= before.push(ValueView::IntArray(value@)));
                }
                Ok(())
            },
            (List::LongArray(elements), Value::LongArray(value)) => {
                proof {

                }
                elements.push(value);
                proof {

                    assert(List::LongArray(*elements)@.items =~= before.push(ValueView::LongArray(value@)));
                }
                Ok(())
            },
            (_, value) => Err(value),
        }
    }

    /// Appends the value to a list that admits its kind.
    pub fn push(&mut self, value: Value)
        requires
            admits(old(self)@.elem, value@.tag()),
        ensures
            final(self)@ == (ListView {
                elem: value@.tag(),
                items: old(self)@.items.push(value@),
            }),
    {
        let _ = self.push_checked(value);
    }

    /// Takes the last element off the list. The list keeps its element kind.
    pub fn pop(&mut self) -> (value: Option<Value>)
        ensures
            match value {
                Some(value) => old(self)@.items.len() > 0 && value@ == old(self)@.items.last()
                    && final(self)@ == (ListView {
                    elem: old(self)@.elem,
                    items: old(self)@.items.drop_last(),
                }),
                None => old(self)@.items.len() == 0 && final(self)@ == old(self)@,
            },
    {
        let ghost before = self@.items;
        match self {
            List::Empty => None,
            List::Byte(elements) => {
                proof {

                }
                match elements.pop() {
                    Some(value) => {
                        proof {

                            assert(List::Byte(*elements)@.items =~= before.drop_last());
                            assert(ValueView::Byte(value.value()) == before.last());
                        }
                        Some(Value::Byte(value))
                    },
                    None => {
                        proof {

                            assert(List::Byte(*elements)@.items =~= before);
                        }
                        None
                    },
                }
            },
            List::Short(elements) => {
                proof {

                }
                match elements.pop() {
                    Some(value) => {
                        proof {

                            assert(List::Short(*elements)@.items =~= before.drop_last());
                            assert(ValueView::Short(value) == before.last());
                        }
                        Some(Value::Short(value))
                    },
                    None => {
                        proof {

                            assert(List::Short(*elements)@.items =~= before);
                        }
                        None
                    },
                }
            },
            List::Int(elements) => {
                proof {

                }
                match elements.pop() {
                    Some(value) => {
                        proof {

                            assert(List::Int(*elements)@.items =~= before.drop_last());
                            assert(ValueView::Int(value) == before.last());
                        }
                        Some(Value::Int(value))
                    },
                    None => {
                        proof {

                            assert(List::Int(*elements)@.items =~= before);
                        }
                        None
                    },
                }
            },
            List::Long(elements) => {
                proof {

                }
                match elements.pop() {
                    Some(value) => {
                        proof {

                            assert(List::Long(*elements)@.items =~= before.drop_last());
                            assert(ValueView::Long(value) == before.last());
                        }
                        Some(Value::Long(value))
                    },
                    None => {
                        proof {

                            assert(List::Long(*elements)@.items =~= before);
                        }
                        None
                    },
                }
            },
            List::Float(elements) => {
                proof {

                }
                match elements.pop() {
                    Some(value) => {
                        proof {

                            assert(List::Float(*elements)@.items =~= before.drop_last());
                            assert(ValueView::Float(value) == before.last());
                        }
                        Some(Value::Float(value))
                    },
                    None => {
                        proof {

                            assert(List::Float(*elements)@.items =~= before);
                        }
                        None
                    },
                }
            },
            List::Double(elements) => {
                proof {

                }
                match elements.pop() {
                    Some(value) => {
                        proof {

                            assert(List::Double(*elements)@.items =~= before.drop_last());
                            assert(ValueView::Double(value) == before.last());
                        }
                        Some(Value::Double(value))
                    },
                    None => {
                        proof {

                            assert(List::Double(*elements)@.items =~= before);
                        }
                        None
                    },
                }
            },
            List::ByteArray(elements) => {
                proof {

                }
                match elements.pop() {
                    Some(value) => {
                        proof {

                            assert(List::ByteArray(*elements)@.items =~= before.drop_last());
                            assert(ValueView::ByteArray(bytes_view(value@)) == before.last());
                        }
                        Some(Value::ByteArray(value))
                    },
                    None => {
                        proof {

                            assert(List::ByteArray(*elements)@.items =~= before);
                        }
                        None
                    },
                }
            },
            List::String(elements) => {
                proof {

                }
                match elements.pop() {
                    Some(value) => {
                        proof {

                            assert(List::String(*elements)@.items =~= before.drop_last());
                            assert(ValueView::String(value@) == before.last());
                        }
                        Some(Value::String(value))
                    },
                    None => {
                        proof {

                            assert(List::String(*elements)@.items =~= before);
                        }
                        None
                    },
                }
            },
            List::List(elements) => {
                proof {
                    lemma_list_of_lists(*elements);
                }
                match elements.pop() {
                    Some(value) => {
                        proof {
                            lemma_list_of_lists(*elements);
                            assert(List::List(*elements)@.items =~= before.drop_last());
                            assert(ValueView::List(list_view(value)) == before.last());
                        }
                        Some(Value::List(value))
                    },
                    None => {
                        proof {
                            lemma_list_of_lists(*elements);
                            assert(List::List(*elements)@.items =~= before);
                        }
                        None
                    },
                }
            },
            List::Compound(elements) => {
                proof {

                }
                match elements.pop() {
                    Some(value) => {
                        proof {

                            assert(List::Compound(*elements)@.items =~= before.drop_last());
                            assert(ValueView::Compound(compound_entries(value)) == before.last());
                        }
                        Some(Value::Compound(value))
                    },
                    None => {
                        proof {

                            assert(List::Compound(*elements)@.items =~= before);
                        }
                        None
                    },
                }
            },
            List::IntArray(elements) => {
                proof {

                }
                match elements.pop() {
                    Some(value) => {
                        proof {

                            assert(List::IntArray(*elements)@.items =~= before.drop_last());
                            assert(ValueView::IntArray(value@) == before.last());
                        }
                        Some(Value::IntArray(value))
                    },
                    None => {
                        proof {

                            assert(List::IntArray(*elements)@.items =~= before);
                        }
                        None
                    },
                }
            },
            List::LongArray(elements) => {
                proof {

                }
                match elements.pop() {
                    Some(value) => {
                        proof {

                            assert(List::LongArray(*elements)@.items =~= before.drop_last());
                            assert(ValueView::LongArray(value@) == before.last());
                        }
                        Some(Value::LongArray(value))
                    },
                    None => {
                        proof {

                            assert(List::LongArray(*elements)@.items =~= before);
                        }
                        None
                    },
                }
            },
        }
    }

    /// Removes every element. The list keeps its element kind.
    pub fn clear(&mut self)
        ensures
            final(self)@ == (ListView { elem: old(self)@.elem, items: Seq::empty() }),
    {
        match self {
            List::Empty => {},
            List::Byte(elements) => {
                elements.clear();
                proof {

                    assert(List::Byte(*elements)@.items =~= Seq::<ValueView>::empty());
                }
            },
            List::Short(elements) => {
                elements.clear();
                proof {

                    assert(List::Short(*elements)@.items =~= Seq::<ValueView>::empty());
                }
            },
            List::Int(elements) => {
                elements.clear();
                proof {

                    assert(List::Int(*elements)@.items =~= Seq::<ValueView>::empty());
                }
            },
            List::Long(elements) => {
                elements.clear();
                proof {

                    assert(List::Long(*elements)@.items =~= Seq::<ValueView>::empty());
                }
            },
            List::Float(elements) => {
                elements.clear();
                proof {

                    assert(List::Float(*elements)@.items =~= Seq::<ValueView>::empty());
                }
            },
            List::Double(elements) => {
                elements.clear();
                proof {

                    assert(List::Double(*elements)@.items =~= Seq::<ValueView>::empty());
                }
            },
            List::ByteArray(elements) => {
                elements.clear();
                proof {

                    assert(List::ByteArray(*elements)@.items =~= Seq::<ValueView>::empty());
                }
            },
            List::String(elements) => {
                elements.clear();
                proof {

                    assert(List::String(*elements)@.items =~= Seq::<ValueView>::empty());
                }
            },
            List::List(elements) => {
                elements.clear();
                proof {
                    lemma_list_of_lists(*elements);
                    assert(List::List(*elements)@.items =~= Seq::<ValueView>::empty());
                }
            },
            List::Compound(elements) => {
                elements.clear();
                proof {

                    assert(List::Compound(*elements)@.items =~= Seq::<ValueView>::empty());
                }
            },
            List::IntArray(elements) => {
                elements.clear();
                proof {

                    assert(List::IntArray(*elements)@.items =~= Seq::<ValueView>::empty());
                }
            },
            List::LongArray(elements) => {
                elements.clear();
                proof {

                    assert(List::LongArray(*elements)@.items =~= Seq::<ValueView>::empty());
                }
            },
        }
        proof {
            assert(self@.items =~= Seq::<ValueView>::empty());
        }
    }

    /// Keeps the first `len` elements and drops the rest; a list that is not
    /// longer stays as it is.
    pub fn truncate(&mut self, len: usize)
        ensures
            len < old(self)@.items.len() ==> final(self)@ == (ListView {
                elem: old(self)@.elem,
                items: old(self)@.items.take(len as int),
            }),
            len >= old(self)@.items.len() ==> final(self)@ == old(self)@,
    {
        let ghost before = self@.items;
        match self {
            List::Empty => {},
            List::Byte(elements) => {
                proof {

                }
                elements.truncate(len);
                proof {

                    if len < before.len() {
                        assert(List::Byte(*elements)@.items =~= before.take(len as int));
                    } else {
                        assert(List::Byte(*elements)@.items =~= before);
                    }
                }
            },
            List::Short(elements) => {
                proof {

                }
                elements.truncate(len);
                proof {

                    if len < before.len() {
                        assert(List::Short(*elements)@.items =~= before.take(len as int));
                    } else {
                        assert(List::Short(*elements)@.items =~= before);
                    }
                }
            },
            List::Int(elements) => {
                proof {

                }
                elements.truncate(len);
                proof {

                    if len < before.len() {
                        assert(List::Int(*elements)@.items =~= before.take(len as int));
                    } else {
                        assert(List::Int(*elements)@.items =~= before);
                    }
                }
            },
            List::Long(elements) => {
                proof {

                }
                elements.truncate(len);
                proof {

                    if len < before.len() {
                        assert(List::Long(*elements)@.items =~= before.take(len as int));
                    } else {
                        assert(List::Long(*elements)@.items =~= before);
                    }
                }
            },
            List::Float(elements) => {
                proof {

                }
                elements.truncate(len);
                proof {

                    if len < before.len() {
                        assert(List::Float(*elements)@.items =~= before.take(len as int));
                    } else {
                        assert(List::Float(*elements)@.items =~= before);
                    }
                }
            },
            List::Double(elements) => {
                proof {

                }
                elements.truncate(len);
                proof {

                    if len < before.len() {
                        assert(List::Double(*elements)@.items =~= before.take(len as int));
                    } else {
                        assert(List::Double(*elements)@.items =~= before);
                    }
                }
            },
            List::ByteArray(elements) => {
                proof {

                }
                elements.truncate(len);
                proof {

                    if len < before.len() {
                        assert(List::ByteArray(*elements)@.items =~= before.take(len as int));
                    } else {
                        assert(List::ByteArray(*elements)@.items =~= before);
                    }
                }
            },
            List::String(elements) => {
                proof {

                }
                elements.truncate(len);
                proof {

                    if len < before.len() {
                        assert(List::String(*elements)@.items =~= before.take(len as int));
                    } else {
                        assert(List::String(*elements)@.items =~= before);
                    }
                }
            },
            List::List(elements) => {
                proof {
                    lemma_list_of_lists(*elements);
                }
                elements.truncate(len);
                proof {
                    lemma_list_of_lists(*elements);
                    if len < before.len() {
                        assert(List::List(*elements)@.items =~= before.take(len as int));
                    } else {
                        assert(List::List(*elements)@.items =~= before);
                    }
                }
            },
            List::Compound(elements) => {
                proof {

                }
                elements.truncate(len);
                proof {

                    if len < before.len() {
                        assert(List::Compound(*elements)@.items =~= before.take(len as int));
                    } else {
                        assert(List::Compound(*elements)@.items =~= before);
                    }
                }
            },
            List::IntArray(elements) => {
                proof {

                }
                elements.truncate(len);
                proof {

                    if len < before.len() {
                        assert(List::IntArray(*elements)@.items =~= before.take(len as int));
                    } else {
                        assert(List::IntArray(*elements)@.items =~= before);
                    }
                }
            },
            List::LongArray(elements) => {
                proof {

                }
                elements.truncate(len);
                proof {

                    if len < before.len() {
                        assert(List::LongArray(*elements)@.items =~= before.take(len as int));
                    } else {
                        assert(List::LongArray(*elements)@.items =~= before);
                    }
                }
            },
        }
    }

    /// Puts the value at the index and moves the elements from there on one
    /// place up.
    pub fn insert(&mut self, index: usize, element: Value)
        requires
            admits(old(self)@.elem, element@.tag()),
            index <= old(self)@.items.len(),
        ensures
            final(self)@ == (ListView {
                elem: element@.tag(),
                items: old(self)@.items.insert(index as int, element@),
            }),
    {
        if let List::Empty = self {
            *self = List::from_value(element);
            proof {
                assert(seq![element@] =~= old(self)@.items.insert(index as int, element@));
            }
            return ;
        }
        let ghost before = self@.items;
        match (self, element) {
            (List::Byte(elements), Value::Byte(element)) => {
                proof {

                }
                elements.insert(index, element);
                proof {

                    assert(List::Byte(*elements)@.items =~= before.insert(
                        index as int,
                        ValueView::Byte(element.value()),
                    ));
                }
            },
            (List::Short(elements), Value::Short(element)) => {
                proof {

                }
                elements.insert(index, element);
                proof {

                    assert(List::Short(*elements)@.items =~= before.insert(
                        index as int,
                        ValueView::Short(element),
                    ));
                }
            },
            (List::Int(elements), Value::Int(element)) => {
                proof {

                }
                elements.insert(index, element);
                proof {

                    assert(List::Int(*elements)@.items =~= before.insert(
                        index as int,
                        ValueView::Int(element),
                    ));
                }
            },
            (List::Long(elements), Value::Long(element)) => {
                proof {

                }
                elements.insert(index, element);
                proof {

                    assert(List::Long(*elements)@.items =~= before.insert(
                        index as int,
                        ValueView::Long(element),
                    ));
                }
            },
            (List::Float(elements), Value::Float(element)) => {
                proof {

                }
                elements.insert(index, element);
                proof {

                    assert(List::Float(*elements)@.items =~= before.insert(
                        index as int,
                        ValueView::Float(element),
                    ));
                }
            },
            (List::Double(elements), Value::Double(element)) => {
                proof {

                }
                elements.insert(index, element);
                proof {

                    assert(List::Double(*elements)@.items =~= before.insert(
                        index as int,
                        ValueView::Double(element),
                    ));
                }
            },
            (List::ByteArray(elements), Value::ByteArray(element)) => {
                proof {

                }
                elements.insert(index, element);
                proof {

                    assert(List::ByteArray(*elements)@.items =~= before.insert(
                        index as int,
                        ValueView::ByteArray(bytes_view(element@)),
                    ));
                }
            },
            (List::String(elements), Value::String(element)) => {
                proof {

                }
                elements.insert(index, element);
                proof {

                    assert(List::String(*elements)@.items =~= before.insert(
                        index as int,
                        ValueView::String(element@),
                    ));
                }
            },
            (List::List(elements), Value::List(element)) => {
                proof {
                    lemma_list_of_lists(*elements);
                }
                elements.insert(index, element);
                proof {
                    lemma_list_of_lists(*elements);
                    assert(List::List(*elements)@.items =~= before.insert(
                        index as int,
                        ValueView::List(list_view(element)),
                    ));
                }
            },
            (List::Compound(elements), Value::Compound(element)) => {
                proof {

                }
                elements.insert(index, element);
                proof {

                    assert(List::Compound(*elements)@.items =~= before.insert(
                        index as int,
                        ValueView::Compound(compound_entries(element)),
                    ));
                }
            },
            (List::IntArray(elements), Value::IntArray(element)) => {
                proof {

                }
                elements.insert(index, element);
                proof {

                    assert(List::IntArray(*elements)@.items =~= before.insert(
                        index as int,
                        ValueView::IntArray(element@),
                    ));
                }
            },
            (List::LongArray(elements), Value::LongArray(element)) => {
                proof {

                }
                elements.insert(index, element);
                proof {

                    assert(List::LongArray(*elements)@.items =~= before.insert(
                        index as int,
                        ValueView::LongArray(element@),
                    ));
                }
            },
            _ => {},
        }
    }

    /// Puts the value at the index, if the list admits its kind. A value of
    /// another kind than the elements is handed back, and the list stays as
    /// it was.
    pub fn insert_checked(&mut self, index: usize, element: Value) -> (result: Result<(), Value>)
        requires
            index <= old(self)@.items.len(),
        ensures
            admits(old(self)@.elem, element@.tag()) ==> result is Ok && final(self)@ == (ListView {
                elem: element@.tag(),
                items: old(self)@.items.insert(index as int, element@),
            }),
            !admits(old(self)@.elem, element@.tag()) ==> result == Err::<(), Value>(element)
                && *final(self) == *old(self),
    {
        let id = self.id();
        if id != TypeId::End && id != element.ty().to_id() {
            return Err(element);
        }
        self.insert(index, element);
        Ok(())
    }

    /// Takes the element at the index out and moves the elements behind it
    /// one place down.
    pub fn remove(&mut self, index: usize) -> (value: Value)
        requires
            index < old(self)@.items.len(),
        ensures
            value@ == old(self)@.items[index as int],
            final(self)@ == (ListView {
                elem: old(self)@.elem,
                items: old(self)@.items.remove(index as int),
            }),
    {
        let ghost before = self@.items;
        match self {
            List::Empty => Value::Byte(Byte::Integer(0)),
            List::Byte(elements) => {
                proof {

                }
                let value = elements.remove(index);
                proof {

                    assert(List::Byte(*elements)@.items =~= before.remove(index as int));
                    assert(ValueView::Byte(value.value()) == before[index as int]);
                }
                Value::Byte(value)
            },
            List::Short(elements) => {
                proof {

                }
                let value = elements.remove(index);
                proof {

                    assert(List::Short(*elements)@.items =~= before.remove(index as int));
                    assert(ValueView::Short(value) == before[index as int]);
                }
                Value::Short(value)
            },
            List::Int(elements) => {
                proof {

                }
                let value = elements.remove(index);
                proof {

                    assert(List::Int(*elements)@.items =~= before.remove(index as int));
                    assert(ValueView::Int(value) == before[index as int]);
                }
                Value::Int(value)
            },
            List::Long(elements) => {
                proof {

                }
                let value = elements.remove(index);
                proof {

                    assert(List::Long(*elements)@.items =~= before.remove(index as int));
                    assert(ValueView::Long(value) == before[index as int]);
                }
                Value::Long(value)
            },
            List::Float(elements) => {
                proof {

                }
                let value = elements.remove(index);
                proof {

                    assert(List::Float(*elements)@.items =~= before.remove(index as int));
                    assert(ValueView::Float(value) == before[index as int]);
                }
                Value::Float(value)
            },
            List::Double(elements) => {
                proof {

                }
                let value = elements.remove(index);
                proof {

                    assert(List::Double(*elements)@.items =~= before.remove(index as int));
                    assert(ValueView::Double(value) == before[index as int]);
                }
                Value::Double(value)
            },
            List::ByteArray(elements) => {
                proof {

                }
                let value = elements.remove(index);
                proof {

                    assert(List::ByteArray(*elements)@.items =~= before.remove(index as int));
                    assert(ValueView::ByteArray(bytes_view(value@)) == before[index as int]);
                }
                Value::ByteArray(value)
            },
            List::String(elements) => {
                proof {

                }
                let value = elements.remove(index);
                proof {

                    assert(List::String(*elements)@.items =~= before.remove(index as int));
                    assert(ValueView::String(value@) == before[index as int]);
                }
                Value::String(value)
            },
            List::List(elements) => {
                proof {
                    lemma_list_of_lists(*elements);
                }
                let value = elements.remove(index);
                proof {
                    lemma_list_of_lists(*elements);
                    assert(List::List(*elements)@.items =~= before.remove(index as int));
                    assert(ValueView::List(list_view(value)) == before[index as int]);
                }
                Value::List(value)
            },
            List::Compound(elements) => {
                proof {

                }
                let value = elements.remove(index);
                proof {

                    assert(List::Compound(*elements)@.items =~= before.remove(index as int));
                    assert(ValueView::Compound(compound_entries(value)) == before[index as int]);
                }
                Value::Compound(value)
            },
            List::IntArray(elements) => {
                proof {

                }
                let value = elements.remove(index);
                proof {

                    assert(List::IntArray(*elements)@.items =~= before.remove(index as int));
                    assert(ValueView::IntArray(value@) == before[index as int]);
                }
                Value::IntArray(value)
            },
            List::LongArray(elements) => {
                proof {

                }
                let value = elements.remove(index);
                proof {

                    assert(List::LongArray(*elements)@.items =~= before.remove(index as int));
                    assert(ValueView::LongArray(value@) == before[index as int]);
                }
                Value::LongArray(value)
            },
        }
    }

    /// Takes the element at the index out and puts the last element in its
    /// place.
    pub fn swap_remove(&mut self, index: usize) -> (value: Value)
        requires
            index < old(self)@.items.len(),
        ensures
            value@ == old(self)@.items[index as int],
            final(self)@ == (ListView {
                elem: old(self)@.elem,
                items: old(self)@.items.update(index as int, old(self)@.items.last()).drop_last(),
            }),
    {
        let ghost before = self@.items;
        match self {
            List::Empty => Value::Byte(Byte::Integer(0)),
            List::Byte(elements) => {
                proof {

                }
                let value = elements.swap_remove(index);
                proof {

                    assert(List::Byte(*elements)@.items =~= before.update(
                        index as int,
                        before.last(),
                    ).drop_last());
                    assert(ValueView::Byte(value.value()) == before[index as int]);
                }
                Value::Byte(value)
            },
            List::Short(elements) => {
                proof {

                }
                let value = elements.swap_remove(index);
                proof {

                    assert(List::Short(*elements)@.items =~= before.update(
                        index as int,
                        before.last(),
                    ).drop_last());
                    assert(ValueView::Short(value) == before[index as int]);
                }
                Value::Short(value)
            },
            List::Int(elements) => {
                proof {

                }
                let value = elements.swap_remove(index);
                proof {

                    assert(List::Int(*elements)@.items =~= before.update(
                        index as int,
                        before.last(),
                    ).drop_last());
                    assert(ValueView::Int(value) == before[index as int]);
                }
                Value::Int(value)
            },
            List::Long(elements) => {
                proof {

                }
                let value = elements.swap_remove(index);
                proof {

                    assert(List::Long(*elements)@.items =~= before.update(
                        index as int,
                        before.last(),
                    ).drop_last());
                    assert(ValueView::Long(value) == before[index as int]);
                }
                Value::Long(value)
            },
            List::Float(elements) => {
                proof {

                }
                let value = elements.swap_remove(index);
                proof {

                    assert(List::Float(*elements)@.items =~= before.update(
                        index as int,
                        before.last(),
                    ).drop_last());
                    assert(ValueView::Float(value) == before[index as int]);
                }
                Value::Float(value)
            },
            List::Double(elements) => {
                proof {

                }
                let value = elements.swap_remove(index);
                proof {

                    assert(List::Double(*elements)@.items =~= before.update(
                        index as int,
                        before.last(),
                    ).drop_last());
                    assert(ValueView::Double(value) == before[index as int]);
                }
                Value::Double(value)
            },
            List::ByteArray(elements) => {
                proof {

                }
                let value = elements.swap_remove(index);
                proof {

                    assert(List::ByteArray(*elements)@.items =~= before.update(
                        index as int,
                        before.last(),
                    ).drop_last());
                    assert(ValueView::ByteArray(bytes_view(value@)) == before[index as int]);
                }
                Value::ByteArray(value)
            },
            List::String(elements) => {
                proof {

                }
                let value = elements.swap_remove(index);
                proof {

                    assert(List::String(*elements)@.items =~= before.update(
                        index as int,
                        before.last(),
                    ).drop_last());
                    assert(ValueView::String(value@) == before[index as int]);
                }
                Value::String(value)
            },
            List::List(elements) => {
                proof {
                    lemma_list_of_lists(*elements);
                }
                let value = elements.swap_remove(index);
                proof {
                    lemma_list_of_lists(*elements);
                    assert(List::List(*elements)@.items =~= before.update(
                        index as int,
                        before.last(),
                    ).drop_last());
                    assert(ValueView::List(list_view(value)) == before[index as int]);
                }
                Value::List(value)
            },
            List::Compound(elements) => {
                proof {

                }
                let value = elements.swap_remove(index);
                proof {

                    assert(List::Compound(*elements)@.items =~= before.update(
                        index as int,
                        before.last(),
                    ).drop_last());
                    assert(ValueView::Compound(compound_entries(value)) == before[index as int]);
                }
                Value::Compound(value)
            },
            List::IntArray(elements) => {
                proof {

                }
                let value = elements.swap_remove(index);
                proof {

                    assert(List::IntArray(*elements)@.items =~= before.update(
                        index as int,
                        before.last(),
                    ).drop_last());
                    assert(ValueView::IntArray(value@) == before[index as int]);
                }
                Value::IntArray(value)
            },
            List::LongArray(elements) => {
                proof {

                }
                let value = elements.swap_remove(index);
                proof {

                    assert(List::LongArray(*elements)@.items =~= before.update(
                        index as int,
                        before.last(),
                    ).drop_last());
                    assert(ValueView::LongArray(value@) == before[index as int]);
                }
                Value::LongArray(value)
            },
        }
    }

    /// The elements of the list as values, in order.
    pub fn into_vec(self) -> (values: Vec<Value>)
        ensures
            values@.len() == self@.items.len(),
            forall|i: int| 0 <= i < values@.len() ==> (#[trigger] values@[i])@ == self@.items[i],
    {
        let mut list = self;
        let mut reversed: Vec<Value> = Vec::new();
        while list.len() > 0
            invariant
                list@.elem == self@.elem,
                list@.items.len() + reversed@.len() == self@.items.len(),
                forall|i: int| 0 <= i < list@.items.len() ==> list@.items[i] == self@.items[i],
                forall|i: int|
                    0 <= i < reversed@.len() ==> (#[trigger] reversed@[i])@ == self@.items[
                        self@.items.len() - 1 - i],
            decreases list@.items.len(),
        {
            match list.pop() {
                Some(value) => {
                    reversed.push(value);
                },
                None => {},
            }
        }
        let mut values: Vec<Value> = Vec::new();
        while reversed.len() > 0
            invariant
                values@.len() + reversed@.len() == self@.items.len(),
                forall|i: int|
                    0 <= i < reversed@.len() ==> (#[trigger] reversed@[i])@ == self@.items[
                        self@.items.len() - 1 - i],
                forall|i: int| 0 <= i < values@.len() ==> (#[trigger] values@[i])@ == self@.items[i],
            decreases reversed@.len(),
        {
            match reversed.pop() {
                Some(value) => {
                    values.push(value);
                },
                None => {},
            }
        }
        values
    }

    /// The list of the given values, which must all be of one kind.
    pub fn from_vec(vec: Vec<Value>) -> (list: List)
        requires
            forall|i: int| 0 <= i < vec@.len() ==> (#[trigger] vec@[i])@.tag() == vec@[0]@.tag(),
        ensures
            list@.items.len() == vec@.len(),
            forall|i: int| 0 <= i < vec@.len() ==> list@.items[i] == (#[trigger] vec@[i])@,
            vec@.len() > 0 ==> list@.elem == vec@[0]@.tag(),
            vec@.len() == 0 ==> list == List::Empty,
    {
        let mut rest = vec;
        let mut reversed: Vec<Value> = Vec::new();
        while rest.len() > 0
            invariant
                rest@.len() + reversed@.len() == vec@.len(),
                forall|i: int| 0 <= i < rest@.len() ==> rest@[i] == vec@[i],
                forall|i: int|
                    0 <= i < reversed@.len() ==> (#[trigger] reversed@[i]) == vec@[vec@.len() - 1
                        - i],
            decreases rest@.len(),
        {
            match rest.pop() {
                Some(value) => {
                    reversed.push(value);
                },
                None => {},
            }
        }
        let mut list = List::Empty;
        while reversed.len() > 0
            invariant
                forall|i: int| 0 <= i < vec@.len() ==> (#[trigger] vec@[i])@.tag() == vec@[0]@.tag(),
                list@.items.len() + reversed@.len() == vec@.len(),
                forall|i: int|
                    0 <= i < reversed@.len() ==> (#[trigger] reversed@[i]) == vec@[vec@.len() - 1
                        - i],
                forall|i: int| 0 <= i < list@.items.len() ==> list@.items[i] == (#[trigger] vec@[i])@,
                list@.items.len() > 0 ==> list@.elem == vec@[0]@.tag(),
                list@.items.len() == 0 ==> list == List::Empty,
            decreases reversed@.len(),
        {
            let ghost k = list@.items.len() as int;
            match reversed.pop() {
                Some(value) => {
                    proof {
                        assert(value == vec@[k]);
                        assert(vec@[k]@.tag() == vec@[0]@.tag());
                    }
                    list.push(value);
                },
                None => {},
            }
        }
        list
    }

    /// The list of the given values, if they are all of one kind; else the
    /// values are handed back as they are.
    pub fn try_from_vec(vec: Vec<Value>) -> (result: Result<List, Vec<Value>>)
        ensures
            match result {
                Ok(list) => (forall|i: int|
                    0 <= i < vec@.len() ==> (#[trigger] vec@[i])@.tag() == vec@[0]@.tag())
                    && list@.items.len() == vec@.len() && (forall|i: int|
                    0 <= i < vec@.len() ==> list@.items[i] == (#[trigger] vec@[i])@) && (vec@.len()
                    > 0 ==> list@.elem == vec@[0]@.tag()) && (vec@.len() == 0 ==> list
                    == List::Empty),
                Err(values) => values == vec && exists|i: int|
                    0 <= i < vec@.len() && (#[trigger] vec@[i])@.tag() != vec@[0]@.tag(),
            },
    {
        let mut i: usize = 1;
        while i < vec.len()
            invariant
                1 <= i,
                forall|j: int| 0 <= j < i && j < vec@.len() ==> (#[trigger] vec@[j])@.tag()
                    == vec@[0]@.tag(),
            decreases vec@.len() - i,
        {
            if vec[i].ty().to_id() != vec[0].ty().to_id() {
                return Err(vec);
            }
            i += 1;
        }
        Ok(List::from_vec(vec))
    }

    /// Moves every element of `other` to the end of the list and leaves
    /// `other` empty and without an element kind. A list that has no element
    /// kind yet becomes what `other` was.
    pub fn append(&mut self, other: &mut List)
        requires
            old(self)@.elem == TypeId::End || old(other)@.elem == TypeId::End || old(self)@.elem
                == old(other)@.elem,
        ensures
            *final(other) == List::Empty,
            final(self)@.items == old(self)@.items + old(other)@.items,
            final(self)@.elem == (if old(self)@.elem == TypeId::End {
                old(other)@.elem
            } else {
                old(self)@.elem
            }),
    {
        let mut taken = List::Empty;
        std::mem::swap(other, &mut taken);
        proof {
            lemma_list_homogeneous(*old(self));
            lemma_list_homogeneous(taken);
        }
        if let List::Empty = self {
            *self = taken;
            proof {
                assert(self@.items =~= old(self)@.items + old(other)@.items);
            }
            return ;
        }
        let ghost before = self@.items;
        let ghost added = taken@.items;
        match (self, taken) {
            (List::Byte(elements), List::Byte(mut more)) => {
                proof {

                }
                elements.append(&mut more);
                proof {

                    assert(List::Byte(*elements)@.items =~= before + added);
                }
            },
            (List::Short(elements), List::Short(mut more)) => {
                proof {

                }
                elements.append(&mut more);
                proof {

                    assert(List::Short(*elements)@.items =~= before + added);
                }
            },
            (List::Int(elements), List::Int(mut more)) => {
                proof {

                }
                elements.append(&mut more);
                proof {

                    assert(List::Int(*elements)@.items =~= before + added);
                }
            },
            (List::Long(elements), List::Long(mut more)) => {
                proof {

                }
                elements.append(&mut more);
                proof {

                    assert(List::Long(*elements)@.items =~= before + added);
                }
            },
            (List::Float(elements), List::Float(mut more)) => {
                proof {

                }
                elements.append(&mut more);
                proof {

                    assert(List::Float(*elements)@.items =~= before + added);
                }
            },
            (List::Double(elements), List::Double(mut more)) => {
                proof {

                }
                elements.append(&mut more);
                proof {

                    assert(List::Double(*elements)@.items =~= before + added);
                }
            },
            (List::ByteArray(elements), List::ByteArray(mut more)) => {
                proof {

                }
                elements.append(&mut more);
                proof {

                    assert(List::ByteArray(*elements)@.items =~= before + added);
                }
            },
            (List::String(elements), List::String(mut more)) => {
                proof {

                }
                elements.append(&mut more);
                proof {

                    assert(List::String(*elements)@.items =~= before + added);
                }
            },
            (List::List(elements), List::List(mut more)) => {
                proof {
                    lemma_list_of_lists(*elements); lemma_list_of_lists(more);
                }
                elements.append(&mut more);
                proof {
                    lemma_list_of_lists(*elements);
                    assert(List::List(*elements)@.items =~= before + added);
                }
            },
            (List::Compound(elements), List::Compound(mut more)) => {
                proof {

                }
                elements.append(&mut more);
                proof {

                    assert(List::Compound(*elements)@.items =~= before + added);
                }
            },
            (List::IntArray(elements), List::IntArray(mut more)) => {
                proof {

                }
                elements.append(&mut more);
                proof {

                    assert(List::IntArray(*elements)@.items =~= before + added);
                }
            },
            (List::LongArray(elements), List::LongArray(mut more)) => {
                proof {

                }
                elements.append(&mut more);
                proof {

                    assert(List::LongArray(*elements)@.items =~= before + added);
                }
            },
            (list, _) => {
                proof {
                    assert(added =~= Seq::<ValueView>::empty());
                    assert(before + added =~= before);
                }
            },
        }
    }

    /// Appends `other` as [`List::append`] does, unless the list has an
    /// element kind and `other` has another or none: then both stay as they
    /// were.
    pub fn append_checked(&mut self, other: &mut List) -> (result: Result<(), MismatchError>)
        ensures
            old(self)@.elem != TypeId::End && old(self)@.elem != old(other)@.elem ==> result is Err
                && *final(self) == *old(self) && *final(other) == *old(other),
            old(self)@.elem == TypeId::End || old(self)@.elem == old(other)@.elem ==> result is Ok
                && *final(other) == List::Empty && final(self)@.items == old(self)@.items + old(
                other,
            )@.items && final(self)@.elem == old(other)@.elem,
    {
        let mine = self.id();
        if mine != TypeId::End && mine != other.id() {
            return Err(MismatchError);
        }
        self.append(other);
        Ok(())
    }
}

impl Clone for List {
    fn clone(&self) -> (copy: List)
        ensures
            copy@ == self@,
        decreases self@,
    {
        match self {
            List::Empty => List::Empty,
            List::Byte(elements) => {
                let mut copies: Vec<Byte> = Vec::with_capacity(elements.len());
                let mut i: usize = 0;
                while i < elements.len()
                    invariant
                        i <= elements@.len(),
                        copies@.len() == i,
                        *self == List::Byte(*elements),
                        forall|j: int|
                            0 <= j < i ==> ValueView::Byte((#[trigger] copies@[j]).value()) == ValueView::Byte(elements@[j].value()),
                    decreases elements@.len() - i,
                {
                    let item = elements[i];
                    proof {

                    }
                    copies.push(item);
                    i += 1;
                }
                let copy = List::Byte(copies);
                proof {

                    assert(copy@.items =~= self@.items);
                }
                copy
            },
            List::Short(elements) => {
                let mut copies: Vec<i16> = Vec::with_capacity(elements.len());
                let mut i: usize = 0;
                while i < elements.len()
                    invariant
                        i <= elements@.len(),
                        copies@.len() == i,
                        *self == List::Short(*elements),
                        forall|j: int|
                            0 <= j < i ==> ValueView::Short((#[trigger] copies@[j])) == ValueView::Short(elements@[j]),
                    decreases elements@.len() - i,
                {
                    let item = elements[i];
                    proof {

                    }
                    copies.push(item);
                    i += 1;
                }
                let copy = List::Short(copies);
                proof {

                    assert(copy@.items =~= self@.items);
                }
                copy
            },
            List::Int(elements) => {
                let mut copies: Vec<i32> = Vec::with_capacity(elements.len());
                let mut i: usize = 0;
                while i < elements.len()
                    invariant
                        i <= elements@.len(),
                        copies@.len() == i,
                        *self == List::Int(*elements),
                        forall|j: int|
                            0 <= j < i ==> ValueView::Int((#[trigger] copies@[j])) == ValueView::Int(elements@[j]),
                    decreases elements@.len() - i,
                {
                    let item = elements[i];
                    proof {

                    }
                    copies.push(item);
                    i += 1;
                }
                let copy = List::Int(copies);
                proof {

                    assert(copy@.items =~= self@.items);
                }
                copy
            },
            List::Long(elements) => {
                let mut copies: Vec<i64> = Vec::with_capacity(elements.len());
                let mut i: usize = 0;
                while i < elements.len()
                    invariant
                        i <= elements@.len(),
                        copies@.len() == i,
                        *self == List::Long(*elements),
                        forall|j: int|
                            0 <= j < i ==> ValueView::Long((#[trigger] copies@[j])) == ValueView::Long(elements@[j]),
                    decreases elements@.len() - i,
                {
                    let item = elements[i];
                    proof {

                    }
                    copies.push(item);
                    i += 1;
                }
                let copy = List::Long(copies);
                proof {

                    assert(copy@.items =~= self@.items);
                }
                copy
            },
            List::Float(elements) => {
                let mut copies: Vec<u32> = Vec::with_capacity(elements.len());
                let mut i: usize = 0;
                while i < elements.len()
                    invariant
                        i <= elements@.len(),
                        copies@.len() == i,
                        *self == List::Float(*elements),
                        forall|j: int|
                            0 <= j < i ==> ValueView::Float((#[trigger] copies@[j])) == ValueView::Float(elements@[j]),
                    decreases elements@.len() - i,
                {
                    let item = elements[i];
                    proof {

                    }
                    copies.push(item);
                    i += 1;
                }
                let copy = List::Float(copies);
                proof {

                    assert(copy@.items =~= self@.items);
                }
                copy
            },
            List::Double(elements) => {
                let mut copies: Vec<u64> = Vec::with_capacity(elements.len());
                let mut i: usize = 0;
                while i < elements.len()
                    invariant
                        i <= elements@.len(),
                        copies@.len() == i,
                        *self == List::Double(*elements),
                        forall|j: int|
                            0 <= j < i ==> ValueView::Double((#[trigger] copies@[j])) == ValueView::Double(elements@[j]),
                    decreases elements@.len() - i,
                {
                    let item = elements[i];
                    proof {

                    }
                    copies.push(item);
                    i += 1;
                }
                let copy = List::Double(copies);
                proof {

                    assert(copy@.items =~= self@.items);
                }
                copy
            },
            List::ByteArray(elements) => {
                let mut copies: Vec<ByteArray> = Vec::with_capacity(elements.len());
                let mut i: usize = 0;
                while i < elements.len()
                    invariant
                        i <= elements@.len(),
                        copies@.len() == i,
                        *self == List::ByteArray(*elements),
                        forall|j: int|
                            0 <= j < i ==> ValueView::ByteArray(bytes_view((#[trigger] copies@[j])@)) == ValueView::ByteArray(bytes_view(elements@[j]@)),
                    decreases elements@.len() - i,
                {
                    let item = elements[i].clone();
                    proof {
                        assert(item@ =~= elements@[i as int]@);
                    }
                    copies.push(item);
                    i += 1;
                }
                let copy = List::ByteArray(copies);
                proof {

                    assert(copy@.items =~= self@.items);
                }
                copy
            },
            List::String(elements) => {
                let mut copies: Vec<String> = Vec::with_capacity(elements.len());
                let mut i: usize = 0;
                while i < elements.len()
                    invariant
                        i <= elements@.len(),
                        copies@.len() == i,
                        *self == List::String(*elements),
                        forall|j: int|
                            0 <= j < i ==> ValueView::String((#[trigger] copies@[j])@) == ValueView::String(elements@[j]@),
                    decreases elements@.len() - i,
                {
                    let item = elements[i].clone();
                    proof {

                    }
                    copies.push(item);
                    i += 1;
                }
                let copy = List::String(copies);
                proof {

                    assert(copy@.items =~= self@.items);
                }
                copy
            },
            List::List(elements) => {
                let mut copies: Vec<List> = Vec::with_capacity(elements.len());
                let mut i: usize = 0;
                while i < elements.len()
                    invariant
                        i <= elements@.len(),
                        copies@.len() == i,
                        *self == List::List(*elements),
                        forall|j: int|
                            0 <= j < i ==> ValueView::List(list_view((#[trigger] copies@[j]))) == ValueView::List(list_view(elements@[j])),
                    decreases elements@.len() - i,
                {
                    proof {
                        lemma_list_of_lists(*elements);
                        assert(self@.items[i as int] == ValueView::List(elements@[i as int]@));
                        assert(decreases_to!(self@ => self@.items));
                        assert(decreases_to!(self@.items => self@.items[i as int]));
                        assert(decreases_to!(self@.items[i as int] => self@.items[i as int]->List_0));
                        assert(decreases_to!(self@ => elements@[i as int]@));
                    }
                    let item = elements[i].clone();
                    copies.push(item);
                    i += 1;
                }
                let copy = List::List(copies);
                proof {
                    lemma_list_of_lists(copies); lemma_list_of_lists(*elements);
                    assert(copy@.items =~= self@.items);
                }
                copy
            },
            List::Compound(elements) => {
                let mut copies: Vec<Compound> = Vec::with_capacity(elements.len());
                let mut i: usize = 0;
                while i < elements.len()
                    invariant
                        i <= elements@.len(),
                        copies@.len() == i,
                        *self == List::Compound(*elements),
                        forall|j: int|
                            0 <= j < i ==> ValueView::Compound(compound_entries((#[trigger] copies@[j]))) == ValueView::Compound(compound_entries(elements@[j])),
                    decreases elements@.len() - i,
                {
                    let item = elements[i].clone();
                    proof {

                    }
                    copies.push(item);
                    i += 1;
                }
                let copy = List::Compound(copies);
                proof {

                    assert(copy@.items =~= self@.items);
                }
                copy
            },
            List::IntArray(elements) => {
                let mut copies: Vec<IntArray> = Vec::with_capacity(elements.len());
                let mut i: usize = 0;
                while i < elements.len()
                    invariant
                        i <= elements@.len(),
                        copies@.len() == i,
                        *self == List::IntArray(*elements),
                        forall|j: int|
                            0 <= j < i ==> ValueView::IntArray((#[trigger] copies@[j])@) == ValueView::IntArray(elements@[j]@),
                    decreases elements@.len() - i,
                {
                    let item = elements[i].clone();
                    proof {
                        assert(item@ =~= elements@[i as int]@);
                    }
                    copies.push(item);
                    i += 1;
                }
                let copy = List::IntArray(copies);
                proof {

                    assert(copy@.items =~= self@.items);
                }
                copy
            },
            List::LongArray(elements) => {
                let mut copies: Vec<LongArray> = Vec::with_capacity(elements.len());
                let mut i: usize = 0;
                while i < elements.len()
                    invariant
                        i <= elements@.len(),
                        copies@.len() == i,
                        *self == List::LongArray(*elements),
                        forall|j: int|
                            0 <= j < i ==> ValueView::LongArray((#[trigger] copies@[j])@) == ValueView::LongArray(elements@[j]@),
                    decreases elements@.len() - i,
                {
                    let item = elements[i].clone();
                    proof {
                        assert(item@ =~= elements@[i as int]@);
                    }
                    copies.push(item);
                    i += 1;
                }
                let copy = List::LongArray(copies);
                proof {

                    assert(copy@.items =~= self@.items);
                }
                copy
            },
        }
    }
}

} // verus!
