//! The wire format of value trees: what the bytes of a tree are, and what
//! tree some bytes stand for.

use super::dialect::Parsed;
use super::mutf8::{decode_text, encode_chars};
use super::wire::Dialect;
use crate::error::{seq_len_overflow_message, str_len_overflow_message, Category, SegmentView};
use crate::value::model::{
    lemma_entries_height_bound, lemma_items_height_bound, put, Entries, ListView, ValueView,
};
use crate::value::tag::TypeId;
use vstd::prelude::*;

verus! {

/// How deep lists and compounds may nest in a document: deeper trees are
/// neither written nor read, so that no tree, however deep, can exhaust
/// the stack.
pub const RECURSION_LIMIT: usize = 512;

/// The bytes of an array of bytes: one byte each.
pub open spec fn raw_bytes(a: Seq<i8>) -> Seq<u8> {
    Seq::new(a.len(), |i: int| a[i] as u8)
}

/// The bytes of an array of 32-bit integers: each as the dialect writes it.
pub open spec fn ints_bytes(d: Dialect, a: Seq<i32>) -> Seq<u8>
    decreases a.len(),
{
    if a.len() == 0 {
        Seq::empty()
    } else {
        ints_bytes(d, a.drop_last()) + d.i32_bytes(a.last())
    }
}

/// The bytes of an array of 64-bit integers: each as the dialect writes it.
pub open spec fn longs_bytes(d: Dialect, a: Seq<i64>) -> Seq<u8>
    decreases a.len(),
{
    if a.len() == 0 {
        Seq::empty()
    } else {
        longs_bytes(d, a.drop_last()) + d.i64_bytes(a.last())
    }
}

/// The bytes of a string: the byte length of its encoding, then the
/// encoding.
pub open spec fn str_bytes(d: Dialect, s: Seq<char>) -> Seq<u8> {
    d.str_len_bytes(encode_chars(s).len()) + encode_chars(s)
}

/// The payload of a value: its bytes without a tag in front.
///
/// A list is its element tag, its element count and the payloads of its
/// elements, with no tag per element. A compound is its entries, each as
/// tag, key and payload, and one `End` tag behind the last; it has no count.
pub open spec fn payload(d: Dialect, v: ValueView) -> Seq<u8>
    decreases v, 0nat,
{
    match v {
        ValueView::Byte(x) => seq![x as u8],
        ValueView::Short(x) => d.i16_bytes(x),
        ValueView::Int(x) => d.i32_bytes(x),
        ValueView::Long(x) => d.i64_bytes(x),
        ValueView::Float(x) => d.f32_bytes(x),
        ValueView::Double(x) => d.f64_bytes(x),
        ValueView::ByteArray(a) => d.seq_len_bytes(a.len()) + raw_bytes(a),
        ValueView::String(s) => str_bytes(d, s),
        ValueView::List(list) => seq![list.elem.code()] + d.seq_len_bytes(list.items.len())
            + items_bytes(d, list.items),
        ValueView::Compound(entries) => entries_bytes(d, entries) + seq![0u8],
        ValueView::IntArray(a) => d.seq_len_bytes(a.len()) + ints_bytes(d, a),
        ValueView::LongArray(a) => d.seq_len_bytes(a.len()) + longs_bytes(d, a),
    }
}

/// The payloads of the items, one after the other.
pub open spec fn items_bytes(d: Dialect, items: Seq<ValueView>) -> Seq<u8>
    decreases items, 1nat,
{
    if items.len() == 0 {
        Seq::empty()
    } else {
        items_bytes(d, items.drop_last()) + payload(d, items.last())
    }
}

/// The bytes of one entry of a compound: the tag of the value, the key and
/// the payload of the value.
pub open spec fn entry_bytes(d: Dialect, key: Seq<char>, value: ValueView) -> Seq<u8>
    decreases value, 1nat,
{
    seq![value.tag().code()] + str_bytes(d, key) + payload(d, value)
}

/// The bytes of the entries of a compound, one after the other.
pub open spec fn entries_bytes(d: Dialect, entries: Entries) -> Seq<u8>
    decreases entries, 2nat,
{
    if entries.len() == 0 {
        Seq::empty()
    } else {
        entries_bytes(d, entries.drop_last()) + entry_bytes(
            d,
            entries.last().0,
            entries.last().1,
        )
    }
}

/// The bytes of a document: the tag of the root, the name of the root and
/// the payload of the root.
pub open spec fn document(d: Dialect, name: Seq<char>, root: ValueView) -> Seq<u8> {
    seq![root.tag().code()] + str_bytes(d, name) + payload(d, root)
}

/// True when the dialect can count every string and every sequence of the
/// tree.
pub open spec fn encodable(d: Dialect, v: ValueView) -> bool
    decreases v,
{
    match v {
        ValueView::ByteArray(a) => a.len() <= d.seq_len_max(),
        ValueView::String(s) => encode_chars(s).len() <= d.str_len_max(),
        ValueView::List(list) => list.items.len() <= d.seq_len_max() && forall|i: int|
            0 <= i < list.items.len() ==> encodable(d, #[trigger] list.items[i]),
        ValueView::Compound(entries) => forall|i: int|
            0 <= i < entries.len() ==> encode_chars((#[trigger] entries[i]).0).len()
                <= d.str_len_max() && encodable(d, entries[i].1),
        ValueView::IntArray(a) => a.len() <= d.seq_len_max(),
        ValueView::LongArray(a) => a.len() <= d.seq_len_max(),
        _ => true,
    }
}

/// Reads a string off the front of the bytes.
#[verifier::opaque]
pub open spec fn parse_str(d: Dialect, s: Seq<u8>) -> Parsed<Seq<char>> {
    match d.parse_str_len(s) {
        Err(e) => Err(e),
        Ok((len, n)) => if n < 0 || s.len() < n + len {
            Err(Category::UnexpectedEof)
        } else {
            match decode_text(s.subrange(n, n + len)) {
                None => Err(Category::InvalidData),
                Some(text) => Ok((text, n + len)),
            }
        },
    }
}

/// Reads `count` 32-bit integers off the front of the bytes.
pub open spec fn parse_ints(d: Dialect, s: Seq<u8>, count: nat) -> Parsed<Seq<i32>>
    decreases count,
{
    if count == 0 {
        Ok((Seq::empty(), 0int))
    } else {
        match d.parse_i32(s) {
            Err(e) => Err(e),
            Ok((x, n)) => if n < 0 || n > s.len() {
                Err(Category::UnexpectedEof)
            } else {
                match parse_ints(d, s.skip(n), (count - 1) as nat) {
                    Err(e) => Err(e),
                    Ok((rest, m)) => Ok((seq![x] + rest, n + m)),
                }
            },
        }
    }
}

/// Reads `count` 64-bit integers off the front of the bytes.
pub open spec fn parse_longs(d: Dialect, s: Seq<u8>, count: nat) -> Parsed<Seq<i64>>
    decreases count,
{
    if count == 0 {
        Ok((Seq::empty(), 0int))
    } else {
        match d.parse_i64(s) {
            Err(e) => Err(e),
            Ok((x, n)) => if n < 0 || n > s.len() {
                Err(Category::UnexpectedEof)
            } else {
                match parse_longs(d, s.skip(n), (count - 1) as nat) {
                    Err(e) => Err(e),
                    Ok((rest, m)) => Ok((seq![x] + rest, n + m)),
                }
            },
        }
    }
}

/// Reads the payload of a value that holds no other value: a number, a
/// string or an array. For the other tags the outcome is `InvalidData`.
#[verifier::opaque]
pub open spec fn parse_leaf(d: Dialect, tag: TypeId, s: Seq<u8>) -> Parsed<ValueView> {
    match tag {
        TypeId::Byte => if s.len() < 1 {
            Err(Category::UnexpectedEof)
        } else {
            Ok((ValueView::Byte(s[0] as i8), 1int))
        },
        TypeId::Short => match d.parse_i16(s) {
            Ok((x, n)) => Ok((ValueView::Short(x), n)),
            Err(e) => Err(e),
        },
        TypeId::Int => match d.parse_i32(s) {
            Ok((x, n)) => Ok((ValueView::Int(x), n)),
            Err(e) => Err(e),
        },
        TypeId::Long => match d.parse_i64(s) {
            Ok((x, n)) => Ok((ValueView::Long(x), n)),
            Err(e) => Err(e),
        },
        TypeId::Float => match d.parse_f32(s) {
            Ok((x, n)) => Ok((ValueView::Float(x), n)),
            Err(e) => Err(e),
        },
        TypeId::Double => match d.parse_f64(s) {
            Ok((x, n)) => Ok((ValueView::Double(x), n)),
            Err(e) => Err(e),
        },
        TypeId::ByteArray => match d.parse_seq_len(s) {
            Err(e) => Err(e),
            Ok((count, n)) => if n < 0 || s.len() < n + count {
                Err(Category::UnexpectedEof)
            } else {
                Ok((ValueView::ByteArray(Seq::new(count, |i: int| s[n + i] as i8)), n + count))
            },
        },
        TypeId::String => match parse_str(d, s) {
            Ok((text, n)) => Ok((ValueView::String(text), n)),
            Err(e) => Err(e),
        },
        TypeId::IntArray => match d.parse_seq_len(s) {
            Err(e) => Err(e),
            Ok((count, n)) => if n < 0 || n > s.len() {
                Err(Category::UnexpectedEof)
            } else {
                match parse_ints(d, s.skip(n), count) {
                    Err(e) => Err(e),
                    Ok((a, m)) => Ok((ValueView::IntArray(a), n + m)),
                }
            },
        },
        TypeId::LongArray => match d.parse_seq_len(s) {
            Err(e) => Err(e),
            Ok((count, n)) => if n < 0 || n > s.len() {
                Err(Category::UnexpectedEof)
            } else {
                match parse_longs(d, s.skip(n), count) {
                    Err(e) => Err(e),
                    Ok((a, m)) => Ok((ValueView::LongArray(a), n + m)),
                }
            },
        },
        _ => Err(Category::InvalidData),
    }
}

/// Why and where reading a value fails.
pub struct Failure {
    pub category: Category,
    /// Where the reader stood in the document when it failed.
    pub path: Seq<SegmentView>,
}

/// The outcome of reading a value off the front of some bytes: the value
/// and the count of bytes it took, or the failure.
pub type Decoded<T> = Result<(T, int), Failure>;

/// The failure of the category at the path.
pub open spec fn failure<T>(category: Category, path: Seq<SegmentView>) -> Decoded<T> {
    Err(Failure { category, path })
}

/// Reads the payload of a value of the given tag off the front of the bytes.
/// `depth` is how many levels of lists and compounds may still be entered;
/// `path` is where the value stands in its document. A failure tells the
/// path at which it happened: an element of a list stands at its index, the
/// value of an entry at its key, and the key of an entry at a segment that
/// stands for a key not yet known.
///
/// Bytes that end inside the value are an `UnexpectedEof`. A tag byte above
/// `0x0C`, a negative length, text that is no Modified UTF-8, and a list
/// that declares elements of the tag `End` are `InvalidData`. A list or a
/// compound at depth `0` is `RecursionLimitExceeded`.
pub open spec fn parse_payload(
    d: Dialect,
    tag: TypeId,
    s: Seq<u8>,
    depth: nat,
    path: Seq<SegmentView>,
) -> Decoded<ValueView>
    decreases depth, 0nat, 0nat,
{
    match tag {
        TypeId::List => if s.len() < 1 {
            failure(Category::UnexpectedEof, path)
        } else {
            match TypeId::of_code(s[0]) {
                None => failure(Category::InvalidData, path),
                Some(elem) => match d.parse_seq_len(s.skip(1)) {
                    Err(e) => failure(e, path),
                    Ok((count, n)) => if elem == TypeId::End && count > 0 {
                        failure(Category::InvalidData, path)
                    } else if depth == 0 {
                        failure(Category::RecursionLimitExceeded, path)
                    } else if n < 0 || 1 + n > s.len() {
                        failure(Category::UnexpectedEof, path)
                    } else {
                        match parse_items(
                            d,
                            elem,
                            s.skip(1 + n),
                            count,
                            (depth - 1) as nat,
                            path,
                            0,
                        ) {
                            Err(e) => Err(e),
                            Ok((items, m)) => Ok(
                                (ValueView::List(ListView { elem, items }), 1 + n + m),
                            ),
                        }
                    },
                },
            }
        },
        TypeId::Compound => if depth == 0 {
            failure(Category::RecursionLimitExceeded, path)
        } else {
            match parse_entries(d, s, (depth - 1) as nat, Seq::empty(), path) {
                Err(e) => Err(e),
                Ok((entries, m)) => Ok((ValueView::Compound(entries), m)),
            }
        },
        _ => match parse_leaf(d, tag, s) {
            Ok(read) => Ok(read),
            Err(e) => failure(e, path),
        },
    }
}

/// Reads the payloads of `count` values of the given tag off the front of
/// the bytes: exactly that many, with no tag per element. `index` is the
/// index of the first of them in their list.
pub open spec fn parse_items(
    d: Dialect,
    elem: TypeId,
    s: Seq<u8>,
    count: nat,
    depth: nat,
    path: Seq<SegmentView>,
    index: nat,
) -> Decoded<Seq<ValueView>>
    decreases depth, count, 1nat,
{
    if count == 0 {
        Ok((Seq::empty(), 0int))
    } else {
        match parse_payload(d, elem, s, depth, path.push(SegmentView::Index(index as usize))) {
            Err(e) => Err(e),
            Ok((v, n)) => if n < 0 || n > s.len() {
                failure(Category::UnexpectedEof, path)
            } else {
                match parse_items(d, elem, s.skip(n), (count - 1) as nat, depth, path, index + 1) {
                    Err(e) => Err(e),
                    Ok((rest, m)) => Ok((seq![v] + rest, n + m)),
                }
            },
        }
    }
}

/// Reads the entries of a compound off the front of the bytes, up to and
/// with the `End` tag that closes it, and puts them behind the entries
/// `acc` that were read before. No count is trusted: the entries end where
/// the `End` tag stands, and bytes that run out before it are an
/// `UnexpectedEof`. An entry whose key was read before replaces the value
/// of that entry.
pub open spec fn parse_entries(
    d: Dialect,
    s: Seq<u8>,
    depth: nat,
    acc: Entries,
    path: Seq<SegmentView>,
) -> Decoded<Entries>
    decreases depth, s.len(), 1nat,
{
    if s.len() < 1 {
        failure(Category::UnexpectedEof, path)
    } else if s[0] == 0 {
        Ok((acc, 1int))
    } else {
        match TypeId::of_code(s[0]) {
            None => failure(Category::InvalidData, path),
            Some(tag) => match parse_str(d, s.skip(1)) {
                Err(e) => failure(e, path.push(SegmentView::Unresolved)),
                Ok((key, kn)) => if kn < 0 || 1 + kn > s.len() {
                    failure(Category::UnexpectedEof, path)
                } else {
                    match parse_payload(
                        d,
                        tag,
                        s.skip(1 + kn),
                        depth,
                        path.push(SegmentView::Identifier(key)),
                    ) {
                        Err(e) => Err(e),
                        Ok((value, vn)) => if vn < 0 || 1 + kn + vn > s.len() {
                            failure(Category::UnexpectedEof, path)
                        } else {
                            match parse_entries(
                                d,
                                s.skip(1 + kn + vn),
                                depth,
                                put(acc, key, value),
                                path,
                            ) {
                                Err(e) => Err(e),
                                Ok((entries, m)) => Ok((entries, 1 + kn + vn + m)),
                            }
                        },
                    }
                },
            },
        }
    }
}

/// True when a value of the tag may be the root of a document: a compound
/// always, a list where the caller allows it.
pub open spec fn is_root_tag(tag: TypeId, allow_list: bool) -> bool {
    tag == TypeId::Compound || (allow_list && tag == TypeId::List)
}

/// Reads a document off the front of the bytes: the tag of the root, its
/// name and its payload. The root stands at the empty path.
pub open spec fn parse_document(d: Dialect, s: Seq<u8>, depth: nat, allow_list: bool) -> Decoded<
    (Seq<char>, ValueView),
> {
    let path = Seq::<SegmentView>::empty();
    if s.len() < 1 {
        failure(Category::UnexpectedEof, path)
    } else {
        match TypeId::of_code(s[0]) {
            None => failure(Category::InvalidData, path),
            Some(tag) => if !is_root_tag(tag, allow_list) {
                failure(Category::InvalidData, path)
            } else {
                match parse_str(d, s.skip(1)) {
                    Err(e) => failure(e, path),
                    Ok((name, n)) => if n < 0 || 1 + n > s.len() {
                        failure(Category::UnexpectedEof, path)
                    } else {
                        match parse_payload(d, tag, s.skip(1 + n), depth, path) {
                            Err(e) => Err(e),
                            Ok((root, m)) => Ok(((name, root), 1 + n + m)),
                        }
                    },
                }
            },
        }
    }
}

/// Which limit a tree exceeds.
pub enum Limit {
    /// The greatest byte length of a string that the dialect can count.
    Text,
    /// The greatest number of elements of a sequence that the dialect can
    /// count.
    Count,
    /// The greatest depth to which lists and compounds may nest.
    Depth,
}

/// The first thing in a tree that cannot be written, and where it is.
pub struct Overflow {
    pub limit: Limit,
    pub path: Seq<SegmentView>,
}

impl Overflow {
    /// The category of the error that reports the overflow.
    pub open spec fn category(self) -> Category {
        match self.limit {
            Limit::Depth => Category::RecursionLimitExceeded,
            _ => Category::InvalidInput,
        }
    }

    /// The message of the error that reports the overflow: for a length,
    /// it names the limit.
    pub open spec fn message(self, d: Dialect) -> Seq<char> {
        match self.limit {
            Limit::Text => str_len_overflow_message(d.str_len_max() as usize),
            Limit::Count => seq_len_overflow_message(d.seq_len_max() as usize),
            Limit::Depth => "recursion limit exceeded"@,
        }
    }
}

/// The first thing of the tree, in the order of writing, that cannot be
/// written, or `None` where all of it can: a string or a sequence that the
/// dialect cannot count, or a list or a compound that nests deeper than
/// `depth` levels. `path` is where the tree stands in its document.
pub open spec fn overflow(d: Dialect, v: ValueView, path: Seq<SegmentView>, depth: nat) -> Option<
    Overflow,
>
    decreases v, 0nat, 0nat,
{
    match v {
        ValueView::ByteArray(a) => seq_overflow(d, a.len(), path),
        ValueView::String(s) => str_overflow(d, s, path),
        ValueView::List(list) => if depth == 0 {
            Some(Overflow { limit: Limit::Depth, path })
        } else {
            match seq_overflow(d, list.items.len(), path) {
                Some(o) => Some(o),
                None => items_overflow(d, list.items, path, 0, (depth - 1) as nat),
            }
        },
        ValueView::Compound(entries) => if depth == 0 {
            Some(Overflow { limit: Limit::Depth, path })
        } else {
            entries_overflow(d, entries, path, 0, (depth - 1) as nat)
        },
        ValueView::IntArray(a) => seq_overflow(d, a.len(), path),
        ValueView::LongArray(a) => seq_overflow(d, a.len(), path),
        _ => None,
    }
}

/// The overflow of a sequence of `len` elements, if it is one.
pub open spec fn seq_overflow(d: Dialect, len: nat, path: Seq<SegmentView>) -> Option<Overflow> {
    if len > d.seq_len_max() {
        Some(Overflow { limit: Limit::Count, path })
    } else {
        None
    }
}

/// The overflow of a string, if it is one.
pub open spec fn str_overflow(d: Dialect, s: Seq<char>, path: Seq<SegmentView>) -> Option<Overflow> {
    if encode_chars(s).len() > d.str_len_max() {
        Some(Overflow { limit: Limit::Text, path })
    } else {
        None
    }
}

/// The first overflow among the items from the `from`-th on.
pub open spec fn items_overflow(
    d: Dialect,
    items: Seq<ValueView>,
    path: Seq<SegmentView>,
    from: nat,
    depth: nat,
) -> Option<Overflow>
    decreases items, items.len() - from, 1nat,
{
    if from >= items.len() {
        None
    } else {
        match overflow(d, items[from as int], path.push(SegmentView::Index(from as usize)), depth) {
            Some(o) => Some(o),
            None => items_overflow(d, items, path, from + 1, depth),
        }
    }
}

/// The first overflow among the entries from the `from`-th on: of a key, or
/// inside a value.
pub open spec fn entries_overflow(
    d: Dialect,
    entries: Entries,
    path: Seq<SegmentView>,
    from: nat,
    depth: nat,
) -> Option<Overflow>
    decreases entries, entries.len() - from, 1nat,
{
    if from >= entries.len() {
        None
    } else {
        let inner = path.push(SegmentView::Identifier(entries[from as int].0));
        match str_overflow(d, entries[from as int].0, inner) {
            Some(o) => Some(o),
            None => match overflow(d, entries[from as int].1, inner, depth) {
                Some(o) => Some(o),
                None => entries_overflow(d, entries, path, from + 1, depth),
            },
        }
    }
}

/// The bytes of the items grow by the payload of the next item.
pub proof fn lemma_items_bytes_step(d: Dialect, items: Seq<ValueView>, i: int)
    ensures
        0 <= i < items.len() ==> items_bytes(d, items.take(i + 1)) == items_bytes(d, items.take(i))
            + payload(d, items[i]),
        items_bytes(d, items.take(0)) == Seq::<u8>::empty(),
        items.take(items.len() as int) == items,
{
    if 0 <= i < items.len() {
        assert(items.take(i + 1).drop_last() =~= items.take(i));
        assert(items.take(i + 1).last() == items[i]);
    }
    assert(items.take(0) =~= Seq::<ValueView>::empty());
    assert(items.take(items.len() as int) =~= items);
}

/// The bytes of the entries grow by the bytes of the next entry.
pub proof fn lemma_entries_bytes_step(d: Dialect, entries: Entries, i: int)
    ensures
        0 <= i < entries.len() ==> entries_bytes(d, entries.take(i + 1)) == entries_bytes(
            d,
            entries.take(i),
        ) + entry_bytes(d, entries[i].0, entries[i].1),
        entries_bytes(d, entries.take(0)) == Seq::<u8>::empty(),
        entries.take(entries.len() as int) == entries,
{
    if 0 <= i < entries.len() {
        assert(entries.take(i + 1).drop_last() =~= entries.take(i));
        assert(entries.take(i + 1).last() == entries[i]);
    }
    assert(entries.take(0) =~= Seq::<(Seq<char>, ValueView)>::empty());
    assert(entries.take(entries.len() as int) =~= entries);
}

/// The bytes of an array of integers grow by the bytes of the next integer.
pub proof fn lemma_ints_bytes_step(d: Dialect, a: Seq<i32>, b: Seq<i64>, i: int)
    ensures
        0 <= i < a.len() ==> ints_bytes(d, a.take(i + 1)) == ints_bytes(d, a.take(i)) + d.i32_bytes(
            a[i],
        ),
        0 <= i < b.len() ==> longs_bytes(d, b.take(i + 1)) == longs_bytes(d, b.take(i))
            + d.i64_bytes(b[i]),
        ints_bytes(d, a.take(0)) == Seq::<u8>::empty(),
        longs_bytes(d, b.take(0)) == Seq::<u8>::empty(),
        a.take(a.len() as int) == a,
        b.take(b.len() as int) == b,
{
    if 0 <= i < a.len() {
        assert(a.take(i + 1).drop_last() =~= a.take(i));
        assert(a.take(i + 1).last() == a[i]);
    }
    if 0 <= i < b.len() {
        assert(b.take(i + 1).drop_last() =~= b.take(i));
        assert(b.take(i + 1).last() == b[i]);
    }
    assert(a.take(0) =~= Seq::<i32>::empty());
    assert(b.take(0) =~= Seq::<i64>::empty());
    assert(a.take(a.len() as int) =~= a);
    assert(b.take(b.len() as int) =~= b);
}

/// A tree has no overflow exactly when the dialect can count all of it
/// and it nests no deeper than the limit, wherever the tree stands.
pub proof fn lemma_overflow_encodable(d: Dialect, v: ValueView, path: Seq<SegmentView>, depth: nat)
    ensures
        overflow(d, v, path, depth) is None <==> encodable(d, v) && v.height() <= depth,
    decreases v, 0nat, 0nat,
{
    match v {
        ValueView::List(list) => {
            if depth > 0 {
                lemma_items_overflow(d, list.items, path, 0, (depth - 1) as nat);
                lemma_items_height_bound(list.items, (depth - 1) as nat);
            }
        },
        ValueView::Compound(entries) => {
            if depth > 0 {
                lemma_entries_overflow(d, entries, path, 0, (depth - 1) as nat);
                lemma_entries_height_bound(entries, (depth - 1) as nat);
            }
        },
        _ => {},
    }
}

/// The items from the `from`-th on have no overflow exactly when the
/// dialect can count each of them and none nests deeper than the limit.
pub proof fn lemma_items_overflow(
    d: Dialect,
    items: Seq<ValueView>,
    path: Seq<SegmentView>,
    from: nat,
    depth: nat,
)
    ensures
        items_overflow(d, items, path, from, depth) is None <==> forall|i: int|
            from <= i < items.len() ==> encodable(d, #[trigger] items[i]) && items[i].height()
                <= depth,
    decreases items, items.len() - from, 1nat,
{
    if from < items.len() {
        lemma_overflow_encodable(
            d,
            items[from as int],
            path.push(SegmentView::Index(from as usize)),
            depth,
        );
        lemma_items_overflow(d, items, path, from + 1, depth);
    }
}

/// The entries from the `from`-th on have no overflow exactly when the
/// dialect can count each key and each value and no value nests deeper
/// than the limit.
pub proof fn lemma_entries_overflow(
    d: Dialect,
    entries: Entries,
    path: Seq<SegmentView>,
    from: nat,
    depth: nat,
)
    ensures
        entries_overflow(d, entries, path, from, depth) is None <==> forall|i: int|
            from <= i < entries.len() ==> encode_chars((#[trigger] entries[i]).0).len()
                <= d.str_len_max() && encodable(d, entries[i].1) && entries[i].1.height() <= depth,
    decreases entries, entries.len() - from, 1nat,
{
    if from < entries.len() {
        lemma_overflow_encodable(
            d,
            entries[from as int].1,
            path.push(SegmentView::Identifier(entries[from as int].0)),
            depth,
        );
        lemma_entries_overflow(d, entries, path, from + 1, depth);
    }
}

/// What was written stays written: bytes that grew from a prefix of
/// themselves still start with everything that prefix started with.
pub proof fn lemma_prefix(a: Seq<u8>, b: Seq<u8>, c: Seq<u8>, x: Seq<u8>)
    ensures
        a.is_prefix_of(a + x),
        a.is_prefix_of(a),
        a.is_prefix_of(b) && b.is_prefix_of(c) ==> a.is_prefix_of(c),
{
    assert((a + x).subrange(0, a.len() as int) =~= a);
    assert(a.subrange(0, a.len() as int) =~= a);
    if a.is_prefix_of(b) && b.is_prefix_of(c) {
        assert(c.subrange(0, a.len() as int) =~= b.subrange(0, a.len() as int));
    }
}

} // verus!
