//! The mathematical model of a value tree, which contracts speak of.

use super::tag::TypeId;
use vstd::prelude::*;

verus! {

/// The mathematical value of a value tree. A byte is held by its number
/// alone: where it came from is not part of what the tree is on the wire.
/// Floats are held by their IEEE-754 bits.
pub enum ValueView {
    Byte(i8),
    Short(i16),
    Int(i32),
    Long(i64),
    Float(u32),
    Double(u64),
    ByteArray(Seq<i8>),
    String(Seq<char>),
    List(ListView),
    Compound(Seq<(Seq<char>, ValueView)>),
    IntArray(Seq<i32>),
    LongArray(Seq<i64>),
}

/// The mathematical value of a list: the tag that its elements share, and
/// the elements. A list that has no element kind yet has the tag `End`.
pub struct ListView {
    pub elem: TypeId,
    pub items: Seq<ValueView>,
}

/// The entries of a compound, in insertion order.
pub type Entries = Seq<(Seq<char>, ValueView)>;

impl ValueView {
    /// The wire tag of the value.
    pub open spec fn tag(self) -> TypeId {
        match self {
            ValueView::Byte(_) => TypeId::Byte,
            ValueView::Short(_) => TypeId::Short,
            ValueView::Int(_) => TypeId::Int,
            ValueView::Long(_) => TypeId::Long,
            ValueView::Float(_) => TypeId::Float,
            ValueView::Double(_) => TypeId::Double,
            ValueView::ByteArray(_) => TypeId::ByteArray,
            ValueView::String(_) => TypeId::String,
            ValueView::List(_) => TypeId::List,
            ValueView::Compound(_) => TypeId::Compound,
            ValueView::IntArray(_) => TypeId::IntArray,
            ValueView::LongArray(_) => TypeId::LongArray,
        }
    }

    /// True when the tree is one that values can have: every list in it is
    /// homogeneous, and no compound in it holds a key twice.
    pub open spec fn wf(self) -> bool
        decreases self,
    {
        match self {
            ValueView::List(list) => {
                &&& list.elem == TypeId::End ==> list.items.len() == 0
                &&& forall|i: int|
                    0 <= i < list.items.len() ==> (#[trigger] list.items[i]).tag() == list.elem
                        && list.items[i].wf()
            },
            ValueView::Compound(entries) => {
                &&& distinct_keys(entries)
                &&& forall|i: int| 0 <= i < entries.len() ==> (#[trigger] entries[i]).1.wf()
            },
            _ => true,
        }
    }

    /// How deep containers nest in the tree: `0` for a scalar, a string or an
    /// array, and one more than its deepest element for a list or a compound.
    pub open spec fn height(self) -> nat
        decreases self,
    {
        match self {
            ValueView::List(list) => 1 + items_height(list.items),
            ValueView::Compound(entries) => 1 + entries_height(entries),
            _ => 0,
        }
    }
}

/// The greatest height among the items.
pub open spec fn items_height(items: Seq<ValueView>) -> nat
    decreases items, 0nat,
{
    if items.len() == 0 {
        0
    } else {
        let first = items[0].height();
        let rest = items_height(items.drop_first());
        if first >= rest {
            first
        } else {
            rest
        }
    }
}

/// The greatest height among the values of the entries.
pub open spec fn entries_height(entries: Entries) -> nat
    decreases entries, 0nat,
{
    if entries.len() == 0 {
        0
    } else {
        let first = entries[0].1.height();
        let rest = entries_height(entries.drop_first());
        if first >= rest {
            first
        } else {
            rest
        }
    }
}

impl ListView {
    /// True when the list is homogeneous and its elements are well formed.
    pub open spec fn wf(self) -> bool {
        ValueView::List(self).wf()
    }
}

/// True when no key occurs twice among the entries.
pub open spec fn distinct_keys(entries: Entries) -> bool {
    forall|i: int, j: int|
        0 <= i < j < entries.len() ==> (#[trigger] entries[i]).0 != (#[trigger] entries[j]).0
}

/// True when some entry has the key.
pub open spec fn has_key(entries: Entries, key: Seq<char>) -> bool {
    exists|i: int| 0 <= i < entries.len() && (#[trigger] entries[i]).0 == key
}

/// The value of the first entry that has the key.
pub open spec fn lookup(entries: Entries, key: Seq<char>) -> Option<ValueView>
    decreases entries.len(),
{
    if entries.len() == 0 {
        None
    } else if entries[0].0 == key {
        Some(entries[0].1)
    } else {
        lookup(entries.drop_first(), key)
    }
}

/// The entries after the key was given the value: the entry that has the key
/// keeps its place and takes the value; where there is none, a new entry
/// comes last.
pub open spec fn put(entries: Entries, key: Seq<char>, value: ValueView) -> Entries
    decreases entries.len(),
{
    if entries.len() == 0 {
        seq![(key, value)]
    } else if entries[0].0 == key {
        seq![(key, value)] + entries.drop_first()
    } else {
        seq![entries[0]] + put(entries.drop_first(), key, value)
    }
}

/// The entries without the first one that has the key; the others keep their
/// order.
pub open spec fn without(entries: Entries, key: Seq<char>) -> Entries
    decreases entries.len(),
{
    if entries.len() == 0 {
        entries
    } else if entries[0].0 == key {
        entries.drop_first()
    } else {
        seq![entries[0]] + without(entries.drop_first(), key)
    }
}

/// A lookup finds a value exactly when some entry has the key.
pub proof fn lemma_lookup_has_key(entries: Entries, key: Seq<char>)
    ensures
        lookup(entries, key) is Some <==> has_key(entries, key),
    decreases entries.len(),
{
    if entries.len() > 0 {
        if entries[0].0 == key {
            assert(has_key(entries, key));
        } else {
            lemma_lookup_has_key(entries.drop_first(), key);
            if has_key(entries, key) {
                let i = choose|i: int| 0 <= i < entries.len() && (#[trigger] entries[i]).0 == key;
                assert(entries.drop_first()[i - 1] == entries[i]);
            }
            if has_key(entries.drop_first(), key) {
                let i = choose|i: int|
                    0 <= i < entries.drop_first().len() && (#[trigger] entries.drop_first()[i]).0
                        == key;
                assert(entries[i + 1] == entries.drop_first()[i]);
            }
        }
    }
}

/// Giving a new key a value appends an entry.
pub proof fn lemma_put_new(entries: Entries, key: Seq<char>, value: ValueView)
    requires
        !has_key(entries, key),
    ensures
        put(entries, key, value) == entries.push((key, value)),
    decreases entries.len(),
{
    if entries.len() == 0 {
        assert(put(entries, key, value) =~= entries.push((key, value)));
    } else {
        assert(entries[0].0 != key);
        assert forall|i: int| 0 <= i < entries.drop_first().len() implies (
        #[trigger] entries.drop_first()[i]).0 != key by {
            assert(entries[i + 1] == entries.drop_first()[i]);
        }
        lemma_put_new(entries.drop_first(), key, value);
        assert(put(entries, key, value) =~= entries.push((key, value)));
    }
}

/// Giving a key a value keeps the keys distinct, keeps every other entry,
/// and makes a lookup of the key find the value.
pub proof fn lemma_put_distinct(entries: Entries, key: Seq<char>, value: ValueView)
    requires
        distinct_keys(entries),
    ensures
        distinct_keys(put(entries, key, value)),
        lookup(put(entries, key, value), key) == Some(value),
        has_key(entries, key) ==> put(entries, key, value).len() == entries.len(),
        !has_key(entries, key) ==> put(entries, key, value).len() == entries.len() + 1,
        forall|i: int|
            0 <= i < entries.len() ==> (#[trigger] put(entries, key, value)[i]).0 == entries[i].0,
    decreases entries.len(),
{
    let after = put(entries, key, value);
    if entries.len() == 0 {
    } else if entries[0].0 == key {
        assert(has_key(entries, key));
        assert forall|i: int, j: int| 0 <= i < j < after.len() implies (#[trigger] after[i]).0 != (
        #[trigger] after[j]).0 by {
            assert(after[j] == entries[j]);
            assert(after[i].0 == entries[i].0);
        }
    } else {
        let rest = entries.drop_first();
        assert forall|i: int, j: int| 0 <= i < j < rest.len() implies (#[trigger] rest[i]).0 != (
        #[trigger] rest[j]).0 by {
            assert(rest[i] == entries[i + 1] && rest[j] == entries[j + 1]);
        }
        lemma_put_distinct(rest, key, value);
        let tail = put(rest, key, value);
        assert(after =~= seq![entries[0]] + tail);
        assert(after.drop_first() =~= tail);
        if has_key(entries, key) {
            let i = choose|i: int| 0 <= i < entries.len() && (#[trigger] entries[i]).0 == key;
            assert(rest[i - 1] == entries[i]);
            assert(has_key(rest, key));
        }
        if has_key(rest, key) {
            let i = choose|i: int| 0 <= i < rest.len() && (#[trigger] rest[i]).0 == key;
            assert(entries[i + 1] == rest[i]);
            assert(has_key(entries, key));
        }
        assert forall|i: int| 0 <= i < entries.len() implies (#[trigger] after[i]).0
            == entries[i].0 by {
            if i > 0 {
                assert(after[i] == tail[i - 1]);
                assert(tail[i - 1].0 == rest[i - 1].0);
            }
        }
        assert forall|i: int, j: int| 0 <= i < j < after.len() implies (#[trigger] after[i]).0 != (
        #[trigger] after[j]).0 by {
            if i == 0 {
                assert(after[j] == tail[j - 1]);
                if j - 1 < rest.len() {
                    assert(tail[j - 1].0 == rest[j - 1].0);
                    assert(rest[j - 1] == entries[j]);
                } else {
                    lemma_put_new(rest, key, value);
                }
            } else {
                assert(after[i] == tail[i - 1] && after[j] == tail[j - 1]);
            }
        }
    }
}

/// The items are no higher than a bound exactly when each of them is.
pub proof fn lemma_items_height_bound(items: Seq<ValueView>, bound: nat)
    ensures
        items_height(items) <= bound <==> forall|i: int|
            0 <= i < items.len() ==> (#[trigger] items[i]).height() <= bound,
    decreases items.len(),
{
    if items.len() > 0 {
        let rest = items.drop_first();
        lemma_items_height_bound(rest, bound);
        if items_height(items) <= bound {
            assert forall|i: int| 0 <= i < items.len() implies (#[trigger] items[i]).height()
                <= bound by {
                if i > 0 {
                    assert(items[i] == rest[i - 1]);
                }
            }
        }
        if forall|i: int| 0 <= i < items.len() ==> (#[trigger] items[i]).height() <= bound {
            assert(items[0].height() <= bound);
            assert forall|i: int| 0 <= i < rest.len() implies (#[trigger] rest[i]).height()
                <= bound by {
                assert(rest[i] == items[i + 1]);
            }
        }
    }
}

/// The values of the entries are no higher than a bound exactly when each
/// of them is.
pub proof fn lemma_entries_height_bound(entries: Entries, bound: nat)
    ensures
        entries_height(entries) <= bound <==> forall|i: int|
            0 <= i < entries.len() ==> (#[trigger] entries[i]).1.height() <= bound,
    decreases entries.len(),
{
    if entries.len() > 0 {
        let rest = entries.drop_first();
        lemma_entries_height_bound(rest, bound);
        if entries_height(entries) <= bound {
            assert forall|i: int| 0 <= i < entries.len() implies (#[trigger] entries[i]).1.height()
                <= bound by {
                if i > 0 {
                    assert(entries[i] == rest[i - 1]);
                }
            }
        }
        if forall|i: int| 0 <= i < entries.len() ==> (#[trigger] entries[i]).1.height() <= bound {
            assert(entries[0].1.height() <= bound);
            assert forall|i: int| 0 <= i < rest.len() implies (#[trigger] rest[i]).1.height()
                <= bound by {
                assert(rest[i] == entries[i + 1]);
            }
        }
    }
}

} // verus!
