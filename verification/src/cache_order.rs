//! The key cache only grows, and only at its end: what it holds after a part of a
//! document is a prefix of what it holds after more of the document.

use crate::cache_codes::{cacheable, emit, is_reference, resolve, Passed};
use crate::de::ErrorKind;
use crate::de::json::{transcode, transcode_entries, transcode_items};
use crate::json::JsonV;
use crate::ser::json::{
    encode_cached, encode_entries_cached, encode_flat_cached, encode_items_cached,
    encode_map_cached,
};
use crate::value::ValueV;
use vstd::prelude::*;

verus! {

/// A string of three characters or fewer passes through the cache as it is and leaves the
/// table as it was, on the way out and on the way in, whatever the table holds.
pub proof fn lemma_short_strings_pass(table: Seq<Seq<char>>, s: Seq<char>)
    requires
        s.len() <= 3,
    ensures
        emit(table, s) == Some(Passed { text: s, table }),
        !is_reference(s) ==> resolve(table, s) == Ok::<Passed, ErrorKind>(
            Passed { text: s, table },
        ),
{
}

/// The emit rule never admits a string of three characters or fewer: a table that holds
/// none holds none afterwards.
pub proof fn lemma_emit_admits_long_only(table: Seq<Seq<char>>, s: Seq<char>)
    requires
        forall|i: int| 0 <= i < table.len() ==> cacheable(#[trigger] table[i]),
        emit(table, s) is Some,
    ensures
        forall|i: int|
            0 <= i < emit(table, s)->0.table.len() ==> cacheable(
                #[trigger] emit(table, s)->0.table[i],
            ),
{
}

/// Both rules of the cache leave the table as it was or with one string more at its end.
pub proof fn lemma_pass_grows(table: Seq<Seq<char>>, s: Seq<char>)
    ensures
        emit(table, s) matches Some(p) ==> table.is_prefix_of(p.table),
        resolve(table, s) matches Ok(p) ==> table.is_prefix_of(p.table),
{
}

/// Writing a value leaves the table that it started with as a prefix of the table that it
/// ends with.
pub proof fn lemma_encode_grows(v: ValueV, table: Seq<Seq<char>>)
    requires
        encode_cached(v, table) is Some,
    ensures
        table.is_prefix_of(encode_cached(v, table)->0.table),
    decreases v, 0nat, 0nat,
{
    match v {
        ValueV::List(items) => {
            assert(items.take(items.len() as int) =~= items);
            lemma_encode_items_grow(items, table, 0, items.len() as int);
            assert(items.take(0) =~= Seq::<ValueV>::empty());
        },
        ValueV::SetOf(items) => {
            let p = emit(table, crate::tilde::set_tag())->0;
            assert(items.take(items.len() as int) =~= items);
            lemma_encode_items_grow(items, p.table, 0, items.len() as int);
            assert(items.take(0) =~= Seq::<ValueV>::empty());
        },
        ValueV::TaggedArray(tag, items) => {
            let p = emit(table, tag)->0;
            assert(items.take(items.len() as int) =~= items);
            lemma_encode_items_grow(items, p.table, 0, items.len() as int);
            assert(items.take(0) =~= Seq::<ValueV>::empty());
        },
        ValueV::MapOf(pairs) => {
            lemma_encode_map_grows(pairs, table);
        },
        ValueV::TaggedMap(tag, pairs) => {
            let p = emit(table, tag)->0;
            lemma_encode_map_grows(pairs, p.table);
        },
        _ => {},
    }
}

/// Writing a map leaves the table that it started with as a prefix of the table that it
/// ends with.
pub proof fn lemma_encode_map_grows(pairs: Seq<(ValueV, ValueV)>, table: Seq<Seq<char>>)
    requires
        encode_map_cached(pairs, table) is Some,
    ensures
        table.is_prefix_of(encode_map_cached(pairs, table)->0.table),
    decreases pairs, 2nat, 0nat,
{
    assert(pairs.take(pairs.len() as int) =~= pairs);
    assert(pairs.take(0) =~= Seq::<(ValueV, ValueV)>::empty());
    if crate::ser::json_verbose::all_scalar_keys(pairs) {
        lemma_encode_entries_grow(pairs, table, 0, pairs.len() as int);
    } else {
        let p = emit(table, crate::tilde::cmap_tag())->0;
        lemma_encode_flat_grow(pairs, p.table, 0, pairs.len() as int);
    }
}

/// Cache monotonicity over the items of an array: where the first `m` items can be
/// written, so can the first `n` of them for `n <= m`, and the table after the `n` is a
/// prefix of the table after the `m`.
pub proof fn lemma_encode_items_grow(items: Seq<ValueV>, table: Seq<Seq<char>>, n: int, m: int)
    requires
        0 <= n <= m <= items.len(),
        encode_items_cached(items.take(m), table) is Some,
    ensures
        encode_items_cached(items.take(n), table) is Some,
        encode_items_cached(items.take(n), table)->0.table.is_prefix_of(
            encode_items_cached(items.take(m), table)->0.table,
        ),
    decreases items, 1nat, m,
{
    if n < m {
        assert(items.take(m).drop_last() =~= items.take(m - 1));
        assert(items.take(m).last() == items[m - 1]);
        lemma_encode_items_grow(items, table, n, m - 1);
        let before = encode_items_cached(items.take(m - 1), table)->0;
        lemma_encode_grows(items[m - 1], before.table);
    }
}

/// Cache monotonicity over the pairs of a map whose keys pass through the cache.
pub proof fn lemma_encode_entries_grow(
    pairs: Seq<(ValueV, ValueV)>,
    table: Seq<Seq<char>>,
    n: int,
    m: int,
)
    requires
        0 <= n <= m <= pairs.len(),
        encode_entries_cached(pairs.take(m), table) is Some,
    ensures
        encode_entries_cached(pairs.take(n), table) is Some,
        encode_entries_cached(pairs.take(n), table)->0.table.is_prefix_of(
            encode_entries_cached(pairs.take(m), table)->0.table,
        ),
    decreases pairs, 1nat, m,
{
    if n < m {
        assert(pairs.take(m).drop_last() =~= pairs.take(m - 1));
        assert(pairs.take(m).last() == pairs[m - 1]);
        lemma_encode_entries_grow(pairs, table, n, m - 1);
        let before = encode_entries_cached(pairs.take(m - 1), table)->0;
        let text = crate::ser::key::key_form(pairs[m - 1].0)->0;
        let p = emit(before.table, text)->0;
        lemma_encode_grows(pairs[m - 1].1, p.table);
    }
}

/// Cache monotonicity over the pairs of a map under `~#cmap`.
pub proof fn lemma_encode_flat_grow(
    pairs: Seq<(ValueV, ValueV)>,
    table: Seq<Seq<char>>,
    n: int,
    m: int,
)
    requires
        0 <= n <= m <= pairs.len(),
        encode_flat_cached(pairs.take(m), table) is Some,
    ensures
        encode_flat_cached(pairs.take(n), table) is Some,
        encode_flat_cached(pairs.take(n), table)->0.table.is_prefix_of(
            encode_flat_cached(pairs.take(m), table)->0.table,
        ),
    decreases pairs, 1nat, m,
{
    if n < m {
        assert(pairs.take(m).drop_last() =~= pairs.take(m - 1));
        assert(pairs.take(m).last() == pairs[m - 1]);
        lemma_encode_flat_grow(pairs, table, n, m - 1);
        let before = encode_flat_cached(pairs.take(m - 1), table)->0;
        lemma_encode_grows(pairs[m - 1].0, before.table);
        let k = encode_cached(pairs[m - 1].0, before.table)->0;
        lemma_encode_grows(pairs[m - 1].1, k.table);
    }
}

/// Reading a cached node leaves the table that it started with as a prefix of the table
/// that it ends with.
pub proof fn lemma_transcode_grows(j: JsonV, table: Seq<Seq<char>>)
    requires
        transcode(j, table) is Ok,
    ensures
        table.is_prefix_of(transcode(j, table)->Ok_0.table),
    decreases j, 0nat, 0nat,
{
    match j {
        JsonV::Array(items) => {
            let head = crate::de::json::head_text(items);
            if head == Some(crate::tilde::map_marker()) {
                let flat = items.skip(1);
                assert(flat.take(flat.len() as int) =~= flat);
                assert(flat.take(0) =~= Seq::<JsonV>::empty());
                lemma_transcode_entries_grow(items, 0, (flat.len() / 2) as int, table);
            } else if head is Some && (is_reference(head->0) || crate::tilde::is_tag(head->0)) {
                let p = resolve(table, head->0)->Ok_0;
                lemma_transcode_grows(items[1], p.table);
            } else {
                assert(items.take(items.len() as int) =~= items);
                assert(items.take(0) =~= Seq::<JsonV>::empty());
                lemma_transcode_items_grow(items, table, 0, items.len() as int);
            }
        },
        _ => {},
    }
}

/// Cache monotonicity over the items of a cached array that is read.
pub proof fn lemma_transcode_items_grow(items: Seq<JsonV>, table: Seq<Seq<char>>, n: int, m: int)
    requires
        0 <= n <= m <= items.len(),
        transcode_items(items.take(m), table) is Ok,
    ensures
        transcode_items(items.take(n), table) is Ok,
        transcode_items(items.take(n), table)->Ok_0.table.is_prefix_of(
            transcode_items(items.take(m), table)->Ok_0.table,
        ),
    decreases items, 1nat, m,
{
    if n < m {
        assert(items.take(m).drop_last() =~= items.take(m - 1));
        assert(items.take(m).last() == items[m - 1]);
        lemma_transcode_items_grow(items, table, n, m - 1);
        let before = transcode_items(items.take(m - 1), table)->Ok_0;
        lemma_transcode_grows(items[m - 1], before.table);
    }
}

/// Cache monotonicity over the pairs of a cached map that is read; `items` is the array
/// of the map, with the `^` at its head.
pub proof fn lemma_transcode_entries_grow(items: Seq<JsonV>, n: int, m: int, table: Seq<Seq<char>>)
    requires
        items.len() >= 1,
        0 <= n <= m,
        2 * m <= items.len() - 1,
        transcode_entries(items.skip(1).take(2 * m), table) is Ok,
    ensures
        transcode_entries(items.skip(1).take(2 * n), table) is Ok,
        transcode_entries(items.skip(1).take(2 * n), table)->Ok_0.table.is_prefix_of(
            transcode_entries(items.skip(1).take(2 * m), table)->Ok_0.table,
        ),
    decreases items, 1nat, m,
{
    if n < m {
        let flat = items.skip(1);
        let part = flat.take(2 * m);
        assert(part.take(part.len() - 2) =~= flat.take(2 * (m - 1)));
        assert(part[part.len() - 1] == items[2 * m]);
        lemma_transcode_entries_grow(items, n, m - 1, table);
        let before = transcode_entries(flat.take(2 * (m - 1)), table)->Ok_0;
        let p = resolve(before.table, part[part.len() - 2]->Str_0)->Ok_0;
        lemma_transcode_grows(items[2 * m], p.table);
    }
}

} // verus!
