//! What holds of the format as a whole: reading undoes writing.

use super::dialect::{lemma_len_round_trip, lemma_number_round_trip, lemma_fixed_round_trip};
use super::format::{
    failure, str_overflow, Failure, RECURSION_LIMIT,
    document, encodable, entries_bytes, entry_bytes, ints_bytes, is_root_tag, items_bytes,
    longs_bytes, parse_document, parse_entries, parse_ints, parse_items, parse_leaf, parse_longs,
    parse_payload, parse_str, payload, raw_bytes, str_bytes,
};
use super::mutf8::{encode_chars, lemma_text_round_trip};
use super::ser::document_accepted;
use super::wire::{lemma_signed_bits, lemma_uleb_round_trip, parse_uleb, pow128, uleb128, zigzag32, Dialect};
use crate::error::{Category, SegmentView};
use crate::value::model::{
    distinct_keys, entries_height, has_key, items_height, lemma_put_new, Entries, ListView,
    ValueView,
};
use crate::value::tag::{lemma_code_round_trip, TypeId};
use vstd::prelude::*;

verus! {

/// The bytes of a non-empty run of items start with the payload of the
/// first.
pub proof fn lemma_items_front(d: Dialect, items: Seq<ValueView>)
    requires
        items.len() > 0,
    ensures
        items_bytes(d, items) == payload(d, items[0]) + items_bytes(d, items.drop_first()),
    decreases items.len(),
{
    if items.len() == 1 {
        assert(items.drop_last() =~= Seq::<ValueView>::empty());
        assert(items.drop_first() =~= Seq::<ValueView>::empty());
        assert(items_bytes(d, items) =~= payload(d, items[0]) + items_bytes(d, items.drop_first()));
    } else {
        lemma_items_front(d, items.drop_last());
        assert(items.drop_last().drop_first() =~= items.drop_first().drop_last());
        assert(items.drop_last()[0] == items[0]);
        assert(items.drop_first().last() == items.last());
        assert(items_bytes(d, items) =~= payload(d, items[0]) + items_bytes(d, items.drop_first()));
    }
}

/// The bytes of a non-empty run of entries start with the bytes of the
/// first.
pub proof fn lemma_entries_front(d: Dialect, entries: Entries)
    requires
        entries.len() > 0,
    ensures
        entries_bytes(d, entries) == entry_bytes(d, entries[0].0, entries[0].1) + entries_bytes(
            d,
            entries.drop_first(),
        ),
    decreases entries.len(),
{
    if entries.len() == 1 {
        assert(entries.drop_last() =~= Seq::<(Seq<char>, ValueView)>::empty());
        assert(entries.drop_first() =~= Seq::<(Seq<char>, ValueView)>::empty());
        assert(entries_bytes(d, entries) =~= entry_bytes(d, entries[0].0, entries[0].1)
            + entries_bytes(d, entries.drop_first()));
    } else {
        lemma_entries_front(d, entries.drop_last());
        assert(entries.drop_last().drop_first() =~= entries.drop_first().drop_last());
        assert(entries.drop_last()[0] == entries[0]);
        assert(entries.drop_first().last() == entries.last());
        assert(entries_bytes(d, entries) =~= entry_bytes(d, entries[0].0, entries[0].1)
            + entries_bytes(d, entries.drop_first()));
    }
}

/// The bytes of a non-empty array of integers start with the bytes of the
/// first.
pub proof fn lemma_ints_front(d: Dialect, a: Seq<i32>, b: Seq<i64>)
    ensures
        a.len() > 0 ==> ints_bytes(d, a) == d.i32_bytes(a[0]) + ints_bytes(d, a.drop_first()),
        b.len() > 0 ==> longs_bytes(d, b) == d.i64_bytes(b[0]) + longs_bytes(d, b.drop_first()),
    decreases a.len() + b.len(),
{
    if a.len() == 1 {
        assert(a.drop_last() =~= Seq::<i32>::empty());
        assert(a.drop_first() =~= Seq::<i32>::empty());
        assert(ints_bytes(d, a) =~= d.i32_bytes(a[0]) + ints_bytes(d, a.drop_first()));
    } else if a.len() > 1 {
        lemma_ints_front(d, a.drop_last(), Seq::empty());
        assert(a.drop_last().drop_first() =~= a.drop_first().drop_last());
        assert(a.drop_last()[0] == a[0]);
        assert(a.drop_first().last() == a.last());
        assert(ints_bytes(d, a) =~= d.i32_bytes(a[0]) + ints_bytes(d, a.drop_first()));
    }
    if b.len() == 1 {
        assert(b.drop_last() =~= Seq::<i64>::empty());
        assert(b.drop_first() =~= Seq::<i64>::empty());
        assert(longs_bytes(d, b) =~= d.i64_bytes(b[0]) + longs_bytes(d, b.drop_first()));
    } else if b.len() > 1 {
        lemma_ints_front(d, Seq::empty(), b.drop_last());
        assert(b.drop_last().drop_first() =~= b.drop_first().drop_last());
        assert(b.drop_last()[0] == b[0]);
        assert(b.drop_first().last() == b.last());
        assert(longs_bytes(d, b) =~= d.i64_bytes(b[0]) + longs_bytes(d, b.drop_first()));
    }
}

/// A string is read back as it was written, whatever follows.
pub proof fn lemma_str_round_trip(d: Dialect, text: Seq<char>, rest: Seq<u8>)
    requires
        encode_chars(text).len() <= d.str_len_max(),
    ensures
        parse_str(d, str_bytes(d, text) + rest) == Ok::<(Seq<char>, int), Category>(
            (text, str_bytes(d, text).len() as int),
        ),
        str_bytes(d, text).len() >= 1,
{
    reveal(parse_str);
    let body = encode_chars(text);
    let head = d.str_len_bytes(body.len());
    let s = str_bytes(d, text) + rest;
    assert(s =~= head + (body + rest));
    lemma_len_round_trip(d, body.len(), body + rest);
    assert(s.subrange(head.len() as int, (head.len() + body.len()) as int) =~= body);
    lemma_text_round_trip(text);
}

/// An array of 32-bit integers is read back as it was written.
pub proof fn lemma_ints_round_trip(d: Dialect, a: Seq<i32>, rest: Seq<u8>)
    ensures
        parse_ints(d, ints_bytes(d, a) + rest, a.len()) == Ok::<(Seq<i32>, int), Category>(
            (a, ints_bytes(d, a).len() as int),
        ),
    decreases a.len(),
{
    if a.len() == 0 {
        assert(a =~= Seq::<i32>::empty());
    } else {
        lemma_ints_front(d, a, Seq::empty());
        let head = d.i32_bytes(a[0]);
        let tail = ints_bytes(d, a.drop_first());
        let s = ints_bytes(d, a) + rest;
        assert(s =~= head + (tail + rest));
        lemma_number_round_trip(d, 0, a[0], 0, tail + rest);
        assert(s.skip(head.len() as int) =~= tail + rest);
        lemma_ints_round_trip(d, a.drop_first(), rest);
        assert(seq![a[0]] + a.drop_first() =~= a);
    }
}

/// An array of 64-bit integers is read back as it was written.
pub proof fn lemma_longs_round_trip(d: Dialect, a: Seq<i64>, rest: Seq<u8>)
    ensures
        parse_longs(d, longs_bytes(d, a) + rest, a.len()) == Ok::<(Seq<i64>, int), Category>(
            (a, longs_bytes(d, a).len() as int),
        ),
    decreases a.len(),
{
    if a.len() == 0 {
        assert(a =~= Seq::<i64>::empty());
    } else {
        lemma_ints_front(d, Seq::empty(), a);
        let head = d.i64_bytes(a[0]);
        let tail = longs_bytes(d, a.drop_first());
        let s = longs_bytes(d, a) + rest;
        assert(s =~= head + (tail + rest));
        lemma_number_round_trip(d, 0, 0, a[0], tail + rest);
        assert(s.skip(head.len() as int) =~= tail + rest);
        lemma_longs_round_trip(d, a.drop_first(), rest);
        assert(seq![a[0]] + a.drop_first() =~= a);
    }
}

/// No item is higher than the highest.
pub proof fn lemma_items_height(items: Seq<ValueView>, i: int)
    requires
        0 <= i < items.len(),
    ensures
        items[i].height() <= items_height(items),
        items_height(items.drop_first()) <= items_height(items),
    decreases items.len(),
{
    if i > 0 {
        lemma_items_height(items.drop_first(), i - 1);
        assert(items.drop_first()[i - 1] == items[i]);
    }
}

/// No value of an entry is higher than the highest.
pub proof fn lemma_entries_height(entries: Entries, i: int)
    requires
        0 <= i < entries.len(),
    ensures
        entries[i].1.height() <= entries_height(entries),
        entries_height(entries.drop_first()) <= entries_height(entries),
    decreases entries.len(),
{
    if i > 0 {
        lemma_entries_height(entries.drop_first(), i - 1);
        assert(entries.drop_first()[i - 1] == entries[i]);
    }
}

/// The payload of a number is read back as the number.
proof fn lemma_number_payload(d: Dialect, v: ValueView, rest: Seq<u8>)
    requires
        v is Byte || v is Short || v is Int || v is Long || v is Float || v is Double,
    ensures
        parse_leaf(d, v.tag(), payload(d, v) + rest) == Ok::<(ValueView, int), Category>(
            (v, payload(d, v).len() as int),
        ),
        payload(d, v).len() >= 1,
{
    reveal(parse_leaf);
    let s = payload(d, v) + rest;
    let fixed = if d == Dialect::Varint {
        Dialect::LittleEndian
    } else {
        d
    };
    match v {
        ValueView::Byte(x) => {
            lemma_signed_bits(x, 0, 0, 0);
            assert(payload(d, v) =~= seq![x as u8]);
            assert(s[0] == payload(d, v)[0]);
        },
        ValueView::Short(x) => {
            lemma_number_round_trip(d, x, 0, 0, rest);
        },
        ValueView::Int(x) => {
            lemma_number_round_trip(d, 0, x, 0, rest);
        },
        ValueView::Long(x) => {
            lemma_number_round_trip(d, 0, 0, x, rest);
        },
        ValueView::Float(x) => {
            reveal(Dialect::f32_bytes);
            reveal(Dialect::parse_f32);
            reveal(Dialect::parse_fixed32);
            lemma_fixed_round_trip(fixed, 0, x, 0, rest);
        },
        ValueView::Double(x) => {
            reveal(Dialect::f64_bytes);
            reveal(Dialect::parse_f64);
            reveal(Dialect::parse_fixed64);
            lemma_fixed_round_trip(fixed, 0, 0, x, rest);
        },
        _ => {},
    }
}

/// The payload of a string or an array is read back as it was written.
proof fn lemma_array_payload(d: Dialect, v: ValueView, rest: Seq<u8>)
    requires
        v is ByteArray || v is String || v is IntArray || v is LongArray,
        encodable(d, v),
    ensures
        parse_leaf(d, v.tag(), payload(d, v) + rest) == Ok::<(ValueView, int), Category>(
            (v, payload(d, v).len() as int),
        ),
        payload(d, v).len() >= 1,
{
    reveal(parse_leaf);
    let s = payload(d, v) + rest;
    match v {
        ValueView::ByteArray(a) => {
            let head = d.seq_len_bytes(a.len());
            let body = raw_bytes(a);
            assert(s =~= head + (body + rest));
            lemma_len_round_trip(d, a.len(), body + rest);
            let n = head.len() as int;
            let read = Seq::new(a.len(), |i: int| s[n + i] as i8);
            assert forall|i: int| 0 <= i < a.len() implies read[i] == a[i] by {
                lemma_signed_bits(a[i], 0, 0, 0);
                assert(s[n + i] == body[i]);
            }
            assert(read =~= a);
        },
        ValueView::String(text) => {
            lemma_str_round_trip(d, text, rest);
        },
        ValueView::IntArray(a) => {
            let head = d.seq_len_bytes(a.len());
            let body = ints_bytes(d, a);
            assert(s =~= head + (body + rest));
            lemma_len_round_trip(d, a.len(), body + rest);
            assert(s.skip(head.len() as int) =~= body + rest);
            lemma_ints_round_trip(d, a, rest);
        },
        ValueView::LongArray(a) => {
            let head = d.seq_len_bytes(a.len());
            let body = longs_bytes(d, a);
            assert(s =~= head + (body + rest));
            lemma_len_round_trip(d, a.len(), body + rest);
            assert(s.skip(head.len() as int) =~= body + rest);
            lemma_longs_round_trip(d, a, rest);
        },
        _ => {},
    }
}

/// The payload of a well-formed tree is read back as the tree, whatever
/// follows it, where the dialect can count what the tree holds and the tree
/// nests no deeper than the reader may go.
pub proof fn lemma_payload_round_trip(
    d: Dialect,
    v: ValueView,
    rest: Seq<u8>,
    depth: nat,
    path: Seq<SegmentView>,
)
    requires
        v.wf(),
        encodable(d, v),
        v.height() <= depth,
    ensures
        parse_payload(d, v.tag(), payload(d, v) + rest, depth, path) == Ok::<
            (ValueView, int),
            Failure,
        >((v, payload(d, v).len() as int)),
        payload(d, v).len() >= 1,
    decreases v, 0nat,
{
    let s = payload(d, v) + rest;
    match v {
        ValueView::List(list) => {
            let head = d.seq_len_bytes(list.items.len());
            let body = items_bytes(d, list.items);
            assert(s =~= seq![list.elem.code()] + (head + (body + rest)));
            assert(s[0] == list.elem.code());
            lemma_code_round_trip(list.elem);
            assert(s.skip(1) =~= head + (body + rest));
            lemma_len_round_trip(d, list.items.len(), body + rest);
            assert(s.skip(1 + head.len() as int) =~= body + rest);
            assert forall|i: int| 0 <= i < list.items.len() implies (#[trigger] list.items[i]).height()
                <= depth - 1 by {
                lemma_items_height(list.items, i);
            }
            lemma_items_round_trip(d, list.elem, list.items, rest, (depth - 1) as nat, path, 0);
        },
        ValueView::Compound(entries) => {
            assert forall|i: int| 0 <= i < entries.len() implies (#[trigger] entries[i]).1.height()
                <= depth - 1 by {
                lemma_entries_height(entries, i);
            }
            assert(Seq::<(Seq<char>, ValueView)>::empty() + entries =~= entries);
            assert(s =~= entries_bytes(d, entries) + seq![0u8] + rest);
            lemma_entries_round_trip(d, entries, rest, (depth - 1) as nat, Seq::empty(), path);
        },
        ValueView::ByteArray(_) | ValueView::String(_) | ValueView::IntArray(_)
        | ValueView::LongArray(_) => {
            lemma_array_payload(d, v, rest);
        },
        _ => {
            lemma_number_payload(d, v, rest);
        },
    }
}

/// The payloads of the elements of a list are read back as the elements:
/// as many as were written, each of the tag that the list declares.
pub proof fn lemma_items_round_trip(
    d: Dialect,
    elem: TypeId,
    items: Seq<ValueView>,
    rest: Seq<u8>,
    depth: nat,
    path: Seq<SegmentView>,
    index: nat,
)
    requires
        forall|i: int|
            0 <= i < items.len() ==> (#[trigger] items[i]).tag() == elem && items[i].wf()
                && encodable(d, items[i]) && items[i].height() <= depth,
    ensures
        parse_items(d, elem, items_bytes(d, items) + rest, items.len(), depth, path, index) == Ok::<
            (Seq<ValueView>, int),
            Failure,
        >((items, items_bytes(d, items).len() as int)),
    decreases items, 1nat,
{
    if items.len() == 0 {
        assert(items =~= Seq::<ValueView>::empty());
    } else {
        lemma_items_front(d, items);
        let first = items[0];
        let tail = items.drop_first();
        let head = payload(d, first);
        let s = items_bytes(d, items) + rest;
        assert(s =~= head + (items_bytes(d, tail) + rest));
        assert(first.tag() == elem && first.wf() && encodable(d, first) && first.height() <= depth);
        lemma_payload_round_trip(
            d,
            first,
            items_bytes(d, tail) + rest,
            depth,
            path.push(SegmentView::Index(index as usize)),
        );
        assert(s.skip(head.len() as int) =~= items_bytes(d, tail) + rest);
        assert forall|i: int| 0 <= i < tail.len() implies (#[trigger] tail[i]).tag() == elem
            && tail[i].wf() && encodable(d, tail[i]) && tail[i].height() <= depth by {
            assert(tail[i] == items[i + 1]);
        }
        lemma_items_round_trip(d, elem, tail, rest, depth, path, index + 1);
        assert(seq![first] + tail =~= items);
    }
}

/// The first of the entries that follow some others, none of which has its
/// key, is new to them; putting it behind them changes nothing of the
/// whole.
proof fn lemma_next_key(acc: Entries, entries: Entries)
    requires
        entries.len() > 0,
        distinct_keys(acc + entries),
    ensures
        !has_key(acc, entries[0].0),
        acc.push(entries[0]) + entries.drop_first() == acc + entries,
        crate::value::model::put(acc, entries[0].0, entries[0].1) == acc.push(entries[0]),
{
    let whole = acc + entries;
    let key = entries[0].0;
    if has_key(acc, key) {
        let i = choose|i: int| 0 <= i < acc.len() && (#[trigger] acc[i]).0 == key;
        assert(whole[i] == acc[i]);
        assert(whole[acc.len() as int] == entries[0]);
    }
    lemma_put_new(acc, key, entries[0].1);
    assert(acc.push(entries[0]) + entries.drop_first() =~= whole);
}

/// The bytes of one entry and what follows them, taken apart.
proof fn lemma_entry_split(d: Dialect, key: Seq<char>, value: ValueView, after: Seq<u8>)
    ensures
        ({
            let s = entry_bytes(d, key, value) + after;
            let kn = str_bytes(d, key).len() as int;
            let vn = payload(d, value).len() as int;
            &&& s.len() >= 1 + kn + vn
            &&& s[0] == value.tag().code()
            &&& s[0] != 0
            &&& TypeId::of_code(s[0]) == Some(value.tag())
            &&& s.skip(1) == str_bytes(d, key) + (payload(d, value) + after)
            &&& s.skip(1 + kn) == payload(d, value) + after
            &&& s.skip(1 + kn + vn) == after
        }),
{
    let s = entry_bytes(d, key, value) + after;
    let key_bytes = str_bytes(d, key);
    let value_bytes = payload(d, value);
    assert(s =~= seq![value.tag().code()] + (key_bytes + (value_bytes + after)));
    lemma_code_round_trip(value.tag());
    assert(s.skip(1) =~= key_bytes + (value_bytes + after));
    assert(s.skip(1 + key_bytes.len() as int) =~= value_bytes + after);
    assert(s.skip((1 + key_bytes.len() + value_bytes.len()) as int) =~= after);
}

/// The bytes of the entries of a compound, closed by the `End` tag, are
/// read back as the entries: as many as were written, in their order.
pub proof fn lemma_entries_round_trip(
    d: Dialect,
    entries: Entries,
    rest: Seq<u8>,
    depth: nat,
    acc: Entries,
    path: Seq<SegmentView>,
)
    requires
        distinct_keys(acc + entries),
        forall|i: int|
            0 <= i < entries.len() ==> (#[trigger] entries[i]).1.wf() && encodable(d, entries[i].1)
                && entries[i].1.height() <= depth && encode_chars(entries[i].0).len()
                <= d.str_len_max(),
    ensures
        parse_entries(d, entries_bytes(d, entries) + seq![0u8] + rest, depth, acc, path) == Ok::<
            (Entries, int),
            Failure,
        >((acc + entries, (entries_bytes(d, entries).len() + 1) as int)),
    decreases entries, 1nat,
{
    let s = entries_bytes(d, entries) + seq![0u8] + rest;
    if entries.len() == 0 {
        assert(s[0] == 0u8);
        assert(acc + entries =~= acc);
    } else {
        lemma_entries_front(d, entries);
        let key = entries[0].0;
        let value = entries[0].1;
        let tail = entries.drop_first();
        let after = entries_bytes(d, tail) + seq![0u8] + rest;
        assert(s =~= entry_bytes(d, key, value) + after);
        lemma_entry_split(d, key, value, after);
        lemma_str_round_trip(d, key, payload(d, value) + after);
        lemma_payload_round_trip(d, value, after, depth, path.push(SegmentView::Identifier(key)));
        lemma_next_key(acc, entries);
        assert forall|i: int| 0 <= i < tail.len() implies (#[trigger] tail[i]).1.wf() && encodable(
            d,
            tail[i].1,
        ) && tail[i].1.height() <= depth && encode_chars(tail[i].0).len() <= d.str_len_max() by {
            assert(tail[i] == entries[i + 1]);
        }
        lemma_entries_round_trip(d, tail, rest, depth, acc.push(entries[0]), path);
    }
}

/// Reading undoes writing. A document that was written from a well-formed
/// tree is read back as that tree and that name, under the same dialect,
/// where the dialect can count what the tree holds, the tree nests no
/// deeper than the reader may go, and the root is of a kind that the reader
/// takes as a root.
pub proof fn lemma_document_round_trip(
    d: Dialect,
    name: Seq<char>,
    root: ValueView,
    depth: nat,
    allow_list: bool,
    rest: Seq<u8>,
)
    requires
        root.wf(),
        encodable(d, root),
        encode_chars(name).len() <= d.str_len_max(),
        root.height() <= depth,
        is_root_tag(root.tag(), allow_list),
    ensures
        parse_document(d, document(d, name, root) + rest, depth, allow_list) == Ok::<
            ((Seq<char>, ValueView), int),
            Failure,
        >(((name, root), document(d, name, root).len() as int)),
{
    let s = document(d, name, root) + rest;
    let name_bytes = str_bytes(d, name);
    let body = payload(d, root);
    assert(s =~= seq![root.tag().code()] + (name_bytes + (body + rest)));
    assert(s[0] == root.tag().code());
    lemma_code_round_trip(root.tag());
    assert(s.skip(1) =~= name_bytes + (body + rest));
    lemma_str_round_trip(d, name, body + rest);
    assert(s.skip(1 + name_bytes.len() as int) =~= body + rest);
    lemma_payload_round_trip(d, root, rest, depth, Seq::empty());
}

/// What the writer accepts, the reader gives back. A document that is
/// accepted for writing and written from a well-formed tree is read, at the
/// depth that the reader allows, as the same name and the same tree,
/// whatever bytes follow it.
pub proof fn lemma_accepted_document_reads_back(
    d: Dialect,
    name: Seq<char>,
    root: ValueView,
    allow_list: bool,
    rest: Seq<u8>,
)
    requires
        root.wf(),
        document_accepted(d, name, root, allow_list),
    ensures
        parse_document(d, document(d, name, root) + rest, RECURSION_LIMIT as nat, allow_list) == Ok::<
            ((Seq<char>, ValueView), int),
            Failure,
        >(((name, root), document(d, name, root).len() as int)),
{
    lemma_document_round_trip(d, name, root, RECURSION_LIMIT as nat, allow_list, rest);
}

/// A compound ends where its `End` tag stands and nowhere else: entries
/// that are not followed by an `End` tag before the bytes run out are an
/// `UnexpectedEof`, however many there are.
pub proof fn lemma_missing_end(
    d: Dialect,
    entries: Entries,
    depth: nat,
    acc: Entries,
    path: Seq<SegmentView>,
)
    requires
        forall|i: int|
            0 <= i < entries.len() ==> (#[trigger] entries[i]).1.wf() && encodable(d, entries[i].1)
                && entries[i].1.height() <= depth && encode_chars(entries[i].0).len()
                <= d.str_len_max(),
    ensures
        parse_entries(d, entries_bytes(d, entries), depth, acc, path) == failure::<Entries>(
            Category::UnexpectedEof,
            path,
        ),
    decreases entries.len(),
{
    let s = entries_bytes(d, entries);
    if entries.len() == 0 {
    } else {
        lemma_entries_front(d, entries);
        let key = entries[0].0;
        let value = entries[0].1;
        let tail = entries.drop_first();
        let after = entries_bytes(d, tail);
        let key_bytes = str_bytes(d, key);
        let value_bytes = payload(d, value);
        assert(s =~= seq![value.tag().code()] + (key_bytes + (value_bytes + after)));
        assert(s[0] == value.tag().code());
        lemma_code_round_trip(value.tag());
        assert(value.tag().code() != 0);
        assert(s.skip(1) =~= key_bytes + (value_bytes + after));
        lemma_str_round_trip(d, key, value_bytes + after);
        assert(s.skip(1 + key_bytes.len() as int) =~= value_bytes + after);
        lemma_payload_round_trip(d, value, after, depth, path.push(SegmentView::Identifier(key)));
        assert(s.skip((1 + key_bytes.len() + value_bytes.len()) as int) =~= after);
        assert forall|i: int| 0 <= i < tail.len() implies (#[trigger] tail[i]).1.wf() && encodable(
            d,
            tail[i].1,
        ) && tail[i].1.height() <= depth && encode_chars(tail[i].0).len() <= d.str_len_max() by {
            assert(tail[i] == entries[i + 1]);
        }
        lemma_missing_end(d, tail, depth, crate::value::model::put(acc, key, value), path);
    }
}

/// An unsigned LEB128 form that is cut off before its last byte is an
/// `UnexpectedEof`.
pub proof fn lemma_uleb_cut(v: nat, k: int, max: nat)
    requires
        0 <= k < uleb128(v).len(),
        k < max,
    ensures
        parse_uleb(uleb128(v).take(k), max) == Err::<(nat, int), Category>(Category::UnexpectedEof),
    decreases v,
{
    let cut = uleb128(v).take(k);
    if k > 0 {
        assert(v >= 128);
        let tail = uleb128(v / 128);
        assert(cut[0] == uleb128(v)[0]);
        assert(cut[0] >= 128);
        assert(cut.skip(1) =~= tail.take(k - 1));
        lemma_uleb_cut(v / 128, k - 1, (max - 1) as nat);
    }
}

/// A list whose bytes end inside its element count is an `UnexpectedEof`:
/// never a shorter list, and never a failure of another kind. `cut` is how
/// many bytes of the count are there.
pub proof fn lemma_truncated_count(
    d: Dialect,
    elem: TypeId,
    count: nat,
    cut: int,
    depth: nat,
    path: Seq<SegmentView>,
)
    requires
        count <= d.seq_len_max(),
        0 <= cut < d.seq_len_bytes(count).len(),
    ensures
        parse_payload(
            d,
            TypeId::List,
            seq![elem.code()] + d.seq_len_bytes(count).take(cut),
            depth,
            path,
        ) == failure::<ValueView>(Category::UnexpectedEof, path),
{
    reveal(Dialect::seq_len_bytes);
    reveal(Dialect::i32_bytes);
    reveal(Dialect::parse_seq_len);
    reveal(Dialect::parse_i32);
    reveal(Dialect::parse_fixed32);
    let part = d.seq_len_bytes(count).take(cut);
    let s = seq![elem.code()] + part;
    assert(s[0] == elem.code());
    lemma_code_round_trip(elem);
    assert(s.skip(1) =~= part);
    if d == Dialect::Varint {
        reveal_with_fuel(pow128, 6);
        lemma_uleb_round_trip(zigzag32(count as i32) as nat, Seq::empty(), 5);
        lemma_uleb_cut(zigzag32(count as i32) as nat, cut, 5);
    }
}

/// The two length limits: a string whose encoding takes more than 65,535
/// bytes and at most 2,147,483,647 overflows the fixed-width dialects and
/// not the varint dialect.
pub proof fn lemma_length_limits(text: Seq<char>, path: Seq<SegmentView>)
    requires
        65535 < encode_chars(text).len() <= 2147483647,
    ensures
        str_overflow(Dialect::BigEndian, text, path) is Some,
        str_overflow(Dialect::LittleEndian, text, path) is Some,
        str_overflow(Dialect::Varint, text, path) is None,
{
}

} // verus!
