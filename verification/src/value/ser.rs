//! Building value trees from a producer's data.

use super::list::admits;
use super::model::{put, Entries, ListView, ValueView};
use super::tag::{Type, TypeId};
use super::{bytes_view, Byte, Compound, List, Value};
use crate::error::{invalid_seq_message, Category, Error, Path, PositionView, SegmentView};
use crate::util::ArrayBrand;
use vstd::prelude::*;

verus! {

/// The builder of one value tree: it knows whether the producer's data is
/// meant for people to read, and the path to the value at hand.
pub struct ValueSerializer {
    is_human_readable: bool,
    path: Path,
}

impl ValueSerializer {
    /// The path to the value at hand.
    pub closed spec fn path(&self) -> Seq<SegmentView> {
        self.path@
    }

    /// Whether the producer is asked for forms that people can read.
    pub closed spec fn human_readable(&self) -> bool {
        self.is_human_readable
    }

    /// A builder that stands at the root.
    pub fn new(is_human_readable: bool) -> (serializer: ValueSerializer)
        ensures
            serializer.path() == Seq::<SegmentView>::empty(),
            serializer.human_readable() == is_human_readable,
    {
        ValueSerializer { is_human_readable, path: Path::new() }
    }

    /// Whether the producer is asked for forms that people can read.
    pub fn is_human_readable(&self) -> (readable: bool)
        ensures
            readable == self.human_readable(),
    {
        self.is_human_readable
    }

    /// The path to the value at hand.
    pub fn current_path(&self) -> (path: &Path)
        ensures
            path@ == self.path(),
    {
        &self.path
    }

    /// The path to the value at hand, for a key or a refusal to use.
    pub fn path_mut(&mut self) -> (path: &mut Path)
        ensures
            path@ == old(self).path(),
            final(self).path() == final(path)@,
            final(self).human_readable() == old(self).human_readable(),
    {
        &mut self.path
    }

    /// The value of a boolean: a byte that remembers it was one.
    pub fn serialize_bool(&self, value: bool) -> (result: Value)
        ensures
            result == Value::Byte(Byte::Boolean(value)),
    {
        Value::Byte(Byte::Boolean(value))
    }

    /// The value of an 8-bit integer.
    pub fn serialize_i8(&self, value: i8) -> (result: Value)
        ensures
            result == Value::Byte(Byte::Integer(value)),
    {
        Value::Byte(Byte::Integer(value))
    }

    /// The value of a 16-bit integer.
    pub fn serialize_i16(&self, value: i16) -> (result: Value)
        ensures
            result == Value::Short(value),
    {
        Value::Short(value)
    }

    /// The value of a 32-bit integer.
    pub fn serialize_i32(&self, value: i32) -> (result: Value)
        ensures
            result == Value::Int(value),
    {
        Value::Int(value)
    }

    /// The value of a 64-bit integer.
    pub fn serialize_i64(&self, value: i64) -> (result: Value)
        ensures
            result == Value::Long(value),
    {
        Value::Long(value)
    }

    /// The value of a 32-bit float, given by its bits.
    pub fn serialize_f32(&self, bits: u32) -> (result: Value)
        ensures
            result == Value::Float(bits),
    {
        Value::Float(bits)
    }

    /// The value of a 64-bit float, given by its bits.
    pub fn serialize_f64(&self, bits: u64) -> (result: Value)
        ensures
            result == Value::Double(bits),
    {
        Value::Double(bits)
    }

    /// The value of a string.
    pub fn serialize_str(&self, value: &str) -> (result: Value)
        ensures
            result@ == ValueView::String(value@),
    {
        Value::String(value.to_owned())
    }
}

/// The tag of the elements of an array of the brand.
pub open spec fn brand_element(brand: ArrayBrand) -> TypeId {
    match brand {
        ArrayBrand::Byte => TypeId::Byte,
        ArrayBrand::Int => TypeId::Int,
        ArrayBrand::Long => TypeId::Long,
    }
}

/// The state of one sequence that is being built.
pub struct SeqSerializer {
    brand: Option<ArrayBrand>,
    list: List,
    index: usize,
}

impl SeqSerializer {
    /// The brand of the sequence, if it is an array.
    pub closed spec fn brand(&self) -> Option<ArrayBrand> {
        self.brand
    }

    /// The elements so far.
    pub closed spec fn list(&self) -> ListView {
        self.list@
    }

    /// How many elements were taken.
    pub closed spec fn index(&self) -> usize {
        self.index
    }

    /// True when the elements so far are of the kind that the brand asks
    /// for.
    pub open spec fn wf(&self) -> bool {
        self.brand() matches Some(brand) ==> self.list().elem == brand_element(brand)
    }

    /// How many elements were taken.
    pub fn count(&self) -> (count: usize)
        ensures
            count == self.index(),
    {
        self.index
    }

    /// Starts a sequence. An array knows the kind of its elements
    /// beforehand; a list learns it from its first element.
    pub fn new(brand: Option<ArrayBrand>, len: Option<usize>) -> (seq: SeqSerializer)
        ensures
            seq.wf(),
            seq.brand() == brand,
            seq.index() == 0,
            seq.list().items == Seq::<ValueView>::empty(),
            brand is None ==> seq.list().elem == TypeId::End,
    {
        let capacity = match len {
            Some(len) => len,
            None => 0,
        };
        let list = match brand {
            Some(brand) => List::with_capacity_and_type(capacity, brand.element_kind()),
            None => List::Empty,
        };
        SeqSerializer { brand, list, index: 0 }
    }

    /// Enters the next element, so that a failure inside it is reported at
    /// its index.
    pub fn begin_element(&self, serializer: &mut ValueSerializer)
        ensures
            final(serializer).path() == old(serializer).path().push(
                SegmentView::Index(self.index()),
            ),
            final(serializer).human_readable() == old(serializer).human_readable(),
    {
        serializer.path.enter_element(self.index);
    }

    /// Takes the element that was built and leaves it. An element of
    /// another kind than the sequence is refused with both kinds and the
    /// path of the element; the elements so far stay as they were.
    pub fn end_element(&mut self, serializer: &mut ValueSerializer, value: Value) -> (result: Result<
        (),
        Error,
    >)
        requires
            old(self).wf(),
            old(serializer).path().len() > 0,
            old(serializer).path().last() is Index,
            old(self).index() < usize::MAX,
        ensures
            final(self).wf(),
            final(self).brand() == old(self).brand(),
            final(serializer).human_readable() == old(serializer).human_readable(),
            match result {
                Ok(()) => admits(old(self).list().elem, value@.tag()) && final(self).list() == (
                ListView { elem: value@.tag(), items: old(self).list().items.push(value@) })
                    && final(self).index() == old(self).index() + 1 && final(serializer).path()
                    == old(serializer).path().drop_last(),
                Err(error) => !admits(old(self).list().elem, value@.tag()) && error.has(
                    Category::InvalidInput,
                    invalid_seq_message(value@.tag(), old(self).list().elem),
                    PositionView::Path(old(serializer).path()),
                ) && final(serializer).path() == Seq::<SegmentView>::empty() && final(self).list()
                    == old(self).list() && final(self).index() == old(self).index(),
            },
    {
        match self.list.push_checked(value) {
            Ok(()) => {},
            Err(value) => {
                return Err(
                    Error::invalid_seq(value.ty().to_id(), self.list.id(), &mut serializer.path),
                );
            },
        }
        let _ = serializer.path.leave_element();
        self.index = self.index + 1;
        Ok(())
    }

    /// Ends the sequence: an array of the brand, or a list.
    pub fn end(self) -> (value: Value)
        requires
            self.wf(),
        ensures
            match self.brand() {
                Some(ArrayBrand::Byte) => value@ matches ValueView::ByteArray(a) && a.len()
                    == self.list().items.len() && forall|i: int|
                    0 <= i < a.len() ==> ValueView::Byte(#[trigger] a[i]) == self.list().items[i],
                Some(ArrayBrand::Int) => value@ matches ValueView::IntArray(a) && a.len()
                    == self.list().items.len() && forall|i: int|
                    0 <= i < a.len() ==> ValueView::Int(#[trigger] a[i]) == self.list().items[i],
                Some(ArrayBrand::Long) => value@ matches ValueView::LongArray(a) && a.len()
                    == self.list().items.len() && forall|i: int|
                    0 <= i < a.len() ==> ValueView::Long(#[trigger] a[i]) == self.list().items[i],
                None => value@ == ValueView::List(self.list()),
            },
    {
        match (self.brand, self.list) {
            (Some(ArrayBrand::Byte), List::Byte(elements)) => Value::ByteArray(elements),
            (Some(ArrayBrand::Int), List::Int(elements)) => Value::IntArray(elements),
            (Some(ArrayBrand::Long), List::Long(elements)) => Value::LongArray(elements),
            (Some(ArrayBrand::Byte), _) => Value::ByteArray(Vec::new()),
            (Some(ArrayBrand::Int), _) => Value::IntArray(Vec::new()),
            (Some(ArrayBrand::Long), _) => Value::LongArray(Vec::new()),
            (None, list) => Value::List(list),
        }
    }
}

/// The state of one map that is being built.
pub struct MapSerializer {
    compound: Compound,
}

impl MapSerializer {
    /// The entries so far.
    pub closed spec fn entries(&self) -> Entries {
        self.compound@
    }

    /// Starts a map, with room for `len` entries where the producer says
    /// how many there will be.
    pub fn new(len: Option<usize>) -> (map: MapSerializer)
        ensures
            map.entries() == Seq::<(Seq<char>, ValueView)>::empty(),
    {
        let capacity = match len {
            Some(len) => len,
            None => 0,
        };
        MapSerializer { compound: Compound::with_capacity(capacity) }
    }

    /// Enters the entry of the key, so that a failure inside its value is
    /// reported at the key.
    pub fn serialize_key(&self, serializer: &mut ValueSerializer, key: String)
        ensures
            final(serializer).path() == old(serializer).path().push(SegmentView::Identifier(key@)),
            final(serializer).human_readable() == old(serializer).human_readable(),
    {
        serializer.path.enter_scope(key);
    }

    /// Takes the value of the entry that [`MapSerializer::serialize_key`]
    /// entered, and leaves the entry. A key that is there already keeps
    /// its place and takes the new value.
    pub fn serialize_value(&mut self, serializer: &mut ValueSerializer, value: Value)
        requires
            old(serializer).path().len() > 0,
            old(serializer).path().last() is Identifier,
        ensures
            final(self).entries() == put(
                old(self).entries(),
                old(serializer).path().last()->Identifier_0,
                value@,
            ),
            final(serializer).path() == old(serializer).path().drop_last(),
            final(serializer).human_readable() == old(serializer).human_readable(),
    {
        let key = serializer.path.leave_scope();
        let _ = self.compound.insert(key, value);
    }

    /// Takes an entry whose key is known beforehand.
    pub fn serialize_field(&mut self, key: &str, value: Value)
        ensures
            final(self).entries() == put(old(self).entries(), key@, value@),
    {
        let _ = self.compound.insert(key.to_owned(), value);
    }

    /// Ends the map: a compound of the entries.
    pub fn end(self) -> (value: Value)
        ensures
            value@ == ValueView::Compound(self.entries()),
    {
        Value::Compound(self.compound)
    }
}

} // verus!
