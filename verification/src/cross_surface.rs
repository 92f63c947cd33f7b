//! The two surfaces hold the same value: a cached document, turned into a verbose one, is
//! the verbose document of the value; so what the cached surface writes can be read back.

use crate::cache_codes::{
    emit, is_reference, lemma_find_from, lemma_resolve_emit, resolve, Passed, MAX_CACHED_KEYS,
};
use crate::de::{ErrorKind, OwnShape, Shape, TransitType};
use crate::de::json::{
    decode_document_cached, head_text, transcode, transcode_document, transcode_entries,
    transcode_items, CodedMembers,
};
use crate::de::json_verbose::decode_document;
use crate::json::JsonV;
use crate::round_trip::{lemma_key_form_letter, lemma_round_trip_document};
use crate::ser::json::{
    encode_cached, encode_document_cached, encode_entries_cached, encode_flat_cached,
    encode_items_cached, encode_map_cached, tagged_array, Coded, CodedSeq,
};
use crate::ser::json_verbose::{
    all_scalar_keys, alternate, encode, encode_document, encode_items, encode_keys, encode_values,
    key_texts, lemma_encode_keys, lemma_encode_values, map_envelope, object_of, scalar_json,
    tagged,
};
use crate::ser::key::key_form;
use crate::tilde::{
    cmap_tag, is_tag, lemma_unescape_escape, map_marker, quote_tag, set_tag,
};
use crate::value::{all_pairs_wf, all_wf, ValueV};
use vstd::prelude::*;

verus! {

/// A node that is neither a tag nor a reference to the cache: what the first item of a
/// list has to be, for the list to be told from a map or a tagged composite.
pub open spec fn plain_node(j: JsonV) -> bool {
    match j {
        JsonV::Str(w) => !is_reference(w) && !is_tag(w),
        _ => true,
    }
}

/// What the emit rule writes for a tag or a key form is a tag or a reference, never the
/// marker of a map, and the decoder's rule reads it back.
pub proof fn lemma_emit_read_back(table: Seq<Seq<char>>, s: Seq<char>)
    requires
        table.len() <= MAX_CACHED_KEYS as int,
        !is_reference(s),
        emit(table, s) is Some,
    ensures
        resolve(table, emit(table, s)->0.text) == Ok::<Passed, ErrorKind>(
            Passed { text: s, table: emit(table, s)->0.table },
        ),
        emit(table, s)->0.table.len() <= MAX_CACHED_KEYS as int,
        table.is_prefix_of(emit(table, s)->0.table),
        emit(table, s)->0.text != map_marker(),
        is_tag(s) ==> is_tag(emit(table, s)->0.text) || is_reference(emit(table, s)->0.text),
{
    lemma_resolve_emit(table, s);
    lemma_find_from(table, s, 0);
    let text = emit(table, s)->0.text;
    if text != s {
        assert(text.len() >= 2);
        assert(text[0] == '^');
    }
    if text == map_marker() {
        assert(text.len() == 1);
    }
}

/// Inside a document, the cached node of a well-formed value, turned into a verbose
/// node with the table that it was written with, is the verbose node of the value, and
/// the decoder's table ends as the encoder's did.
pub proof fn lemma_transcode_encode(v: ValueV, table: Seq<Seq<char>>)
    requires
        v.wf(),
        table.len() <= MAX_CACHED_KEYS as int,
        encode_cached(v, table) is Some,
    ensures
        transcode(encode_cached(v, table)->0.node, table) == Ok::<Coded, ErrorKind>(
            Coded { node: encode(v), table: encode_cached(v, table)->0.table },
        ),
        encode_cached(v, table)->0.table.len() <= MAX_CACHED_KEYS as int,
        table.is_prefix_of(encode_cached(v, table)->0.table),
        plain_node(encode_cached(v, table)->0.node),
    decreases v, 0nat, 0nat,
{
    match v {
        ValueV::Str(s) => {
            lemma_unescape_escape(s);
        },
        ValueV::Instant(t) => {
            let w = scalar_json(v)->Str_0;
            assert(w[0] == '~' && w[1] == 't');
        },
        ValueV::List(items) => {
            lemma_transcode_list(items, table);
        },
        ValueV::SetOf(items) => {
            assert(is_tag(set_tag()));
            lemma_transcode_tagged_list(set_tag(), items, table);
        },
        ValueV::TaggedArray(tag, items) => {
            lemma_transcode_tagged_list(tag, items, table);
        },
        ValueV::MapOf(pairs) => {
            lemma_transcode_map(pairs, table);
        },
        ValueV::TaggedMap(tag, pairs) => {
            lemma_emit_read_back(table, tag);
            let p = emit(table, tag)->0;
            lemma_transcode_map(pairs, p.table);
            let c = encode_map_cached(pairs, p.table)->0;
            let node = tagged_array(p.text, c.node);
            assert(head_text(node->Array_0) == Some(p.text));
        },
        _ => {},
    }
}

/// The cached array of a tagged list, turned into a verbose node, is the verbose
/// envelope of the list under its tag.
pub proof fn lemma_transcode_tagged_list(tag: Seq<char>, items: Seq<ValueV>, table: Seq<Seq<char>>)
    requires
        is_tag(tag),
        all_wf(items),
        table.len() <= MAX_CACHED_KEYS as int,
        emit(table, tag) is Some,
        encode_items_cached(items, emit(table, tag)->0.table) is Some,
    ensures
        ({
            let p = emit(table, tag)->0;
            let r = encode_items_cached(items, p.table)->0;
            &&& transcode(tagged_array(p.text, JsonV::Array(r.nodes)), table) == Ok::<
                Coded,
                ErrorKind,
            >(Coded { node: tagged(tag, JsonV::Array(encode_items(items))), table: r.table })
            &&& r.table.len() <= MAX_CACHED_KEYS as int
            &&& table.is_prefix_of(r.table)
        }),
    decreases items, 3nat, 0nat,
{
    lemma_emit_read_back(table, tag);
    let p = emit(table, tag)->0;
    lemma_transcode_list(items, p.table);
    let r = encode_items_cached(items, p.table)->0;
    let node = tagged_array(p.text, JsonV::Array(r.nodes));
    assert(head_text(node->Array_0) == Some(p.text));
}

/// The cached array of a list, turned into a verbose node, is the verbose array of the
/// list.
pub proof fn lemma_transcode_list(items: Seq<ValueV>, table: Seq<Seq<char>>)
    requires
        all_wf(items),
        table.len() <= MAX_CACHED_KEYS as int,
        encode_items_cached(items, table) is Some,
    ensures
        ({
            let r = encode_items_cached(items, table)->0;
            &&& transcode(JsonV::Array(r.nodes), table) == Ok::<Coded, ErrorKind>(
                Coded { node: JsonV::Array(encode_items(items)), table: r.table },
            )
            &&& r.table.len() <= MAX_CACHED_KEYS as int
            &&& table.is_prefix_of(r.table)
        }),
    decreases items, 2nat, 0nat,
{
    assert(items.take(items.len() as int) =~= items);
    lemma_transcode_items(items, table, items.len() as int);
}

/// The cached nodes of the first `n` of the items, turned into verbose nodes, are the
/// verbose nodes of those items; and the first of them is a plain node.
pub proof fn lemma_transcode_items(items: Seq<ValueV>, table: Seq<Seq<char>>, n: int)
    requires
        all_wf(items),
        table.len() <= MAX_CACHED_KEYS as int,
        0 <= n <= items.len(),
        encode_items_cached(items.take(n), table) is Some,
    ensures
        ({
            let r = encode_items_cached(items.take(n), table)->0;
            &&& transcode_items(r.nodes, table) == Ok::<CodedSeq, ErrorKind>(
                CodedSeq { nodes: encode_items(items.take(n)), table: r.table },
            )
            &&& r.nodes.len() == n
            &&& r.table.len() <= MAX_CACHED_KEYS as int
            &&& table.is_prefix_of(r.table)
            &&& n > 0 ==> plain_node(r.nodes[0])
        }),
    decreases items, 1nat, n,
{
    if n > 0 {
        let part = items.take(n);
        assert(part.drop_last() =~= items.take(n - 1));
        assert(part.last() == items[n - 1]);
        lemma_transcode_items(items, table, n - 1);
        let before = encode_items_cached(items.take(n - 1), table)->0;
        lemma_transcode_encode(items[n - 1], before.table);
        let r = encode_items_cached(part, table)->0;
        assert(r.nodes.drop_last() =~= before.nodes);
    }
}

/// The cached node of a map, turned into a verbose node, is the verbose envelope of the
/// map.
pub proof fn lemma_transcode_map(pairs: Seq<(ValueV, ValueV)>, table: Seq<Seq<char>>)
    requires
        all_pairs_wf(pairs),
        table.len() <= MAX_CACHED_KEYS as int,
        encode_map_cached(pairs, table) is Some,
    ensures
        ({
            let c = encode_map_cached(pairs, table)->0;
            &&& transcode(c.node, table) == Ok::<Coded, ErrorKind>(
                Coded {
                    node: map_envelope(
                        all_scalar_keys(pairs),
                        key_texts(pairs),
                        encode_keys(pairs),
                        encode_values(pairs),
                    ),
                    table: c.table,
                },
            )
            &&& c.table.len() <= MAX_CACHED_KEYS as int
            &&& table.is_prefix_of(c.table)
            &&& c.node is Array
        }),
    decreases pairs, 2nat, 0nat,
{
    assert(pairs.take(pairs.len() as int) =~= pairs);
    if all_scalar_keys(pairs) {
        lemma_transcode_entries(pairs, table, pairs.len() as int);
        let r = encode_entries_cached(pairs, table)->0;
        let items = seq![JsonV::Str(map_marker())] + r.nodes;
        assert(items.skip(1) =~= r.nodes);
        assert(head_text(items) == Some(map_marker()));
        assert(key_texts(pairs).take(pairs.len() as int) =~= key_texts(pairs));
        assert(encode_values(pairs).take(pairs.len() as int) =~= encode_values(pairs)) by {
            lemma_encode_values(pairs);
        }
        let c = encode_map_cached(pairs, table)->0;
        assert(c.node == JsonV::Array(items));
        assert(items.len() % 2 == 1);
        assert(transcode(c.node, table) == Ok::<Coded, ErrorKind>(
            Coded {
                node: JsonV::Object(object_of(key_texts(pairs), encode_values(pairs))),
                table: r.table,
            },
        ));
    } else {
        assert(is_tag(cmap_tag()));
        lemma_emit_read_back(table, cmap_tag());
        let p = emit(table, cmap_tag())->0;
        lemma_transcode_flat(pairs, p.table, pairs.len() as int);
        let r = encode_flat_cached(pairs, p.table)->0;
        let node = tagged_array(p.text, JsonV::Array(r.nodes));
        assert(head_text(node->Array_0) == Some(p.text));
        lemma_encode_keys(pairs);
        lemma_encode_values(pairs);
        let flat = alternate(encode_keys(pairs), encode_values(pairs));
        assert(flat.take(2 * (pairs.len() as int)) =~= flat);
        assert(pairs.len() > 0);
        assert(head_text(r.nodes) is Some ==> plain_node(r.nodes[0]));
        assert(transcode(JsonV::Array(r.nodes), p.table) == Ok::<Coded, ErrorKind>(
            Coded { node: JsonV::Array(flat), table: r.table },
        ));
        assert(transcode(node, table) == Ok::<Coded, ErrorKind>(
            Coded { node: tagged(cmap_tag(), JsonV::Array(flat)), table: r.table },
        ));
    }
}

/// The cached keys and values of the first `n` of the pairs, turned into members of a
/// verbose object, are the members that the verbose surface writes for those pairs.
pub proof fn lemma_transcode_entries(pairs: Seq<(ValueV, ValueV)>, table: Seq<Seq<char>>, n: int)
    requires
        all_pairs_wf(pairs),
        all_scalar_keys(pairs),
        table.len() <= MAX_CACHED_KEYS as int,
        0 <= n <= pairs.len(),
        encode_entries_cached(pairs.take(n), table) is Some,
    ensures
        ({
            let r = encode_entries_cached(pairs.take(n), table)->0;
            &&& transcode_entries(r.nodes, table) == Ok::<CodedMembers, ErrorKind>(
                CodedMembers {
                    members: object_of(key_texts(pairs).take(n), encode_values(pairs).take(n)),
                    table: r.table,
                },
            )
            &&& r.nodes.len() == 2 * n
            &&& r.table.len() <= MAX_CACHED_KEYS as int
            &&& table.is_prefix_of(r.table)
        }),
    decreases pairs, 1nat, n,
{
    lemma_encode_values(pairs);
    let texts = key_texts(pairs);
    let values = encode_values(pairs);
    if n > 0 {
        let part = pairs.take(n);
        assert(part.drop_last() =~= pairs.take(n - 1));
        assert(part.last() == pairs[n - 1]);
        lemma_transcode_entries(pairs, table, n - 1);
        let before = encode_entries_cached(pairs.take(n - 1), table)->0;
        assert(key_form(pairs[n - 1].0) is Some);
        let text = key_form(pairs[n - 1].0)->0;
        lemma_key_form_letter(pairs[n - 1].0);
        lemma_emit_read_back(before.table, text);
        let p = emit(before.table, text)->0;
        lemma_transcode_encode(pairs[n - 1].1, p.table);
        let r = encode_entries_cached(part, table)->0;
        assert(r.nodes.take(r.nodes.len() - 2) =~= before.nodes);
        assert(texts.take(n).drop_last() =~= texts.take(n - 1));
        assert(values.take(n).drop_last() =~= values.take(n - 1));
    }
}

/// The cached nodes of the first `n` of the pairs of a map under `~#cmap`, turned into
/// verbose nodes, are the verbose nodes of those keys and values in turn; and the first of
/// them is a plain node.
pub proof fn lemma_transcode_flat(pairs: Seq<(ValueV, ValueV)>, table: Seq<Seq<char>>, n: int)
    requires
        all_pairs_wf(pairs),
        table.len() <= MAX_CACHED_KEYS as int,
        0 <= n <= pairs.len(),
        encode_flat_cached(pairs.take(n), table) is Some,
    ensures
        ({
            let r = encode_flat_cached(pairs.take(n), table)->0;
            &&& transcode_items(r.nodes, table) == Ok::<CodedSeq, ErrorKind>(
                CodedSeq {
                    nodes: alternate(encode_keys(pairs), encode_values(pairs)).take(2 * n),
                    table: r.table,
                },
            )
            &&& r.nodes.len() == 2 * n
            &&& r.table.len() <= MAX_CACHED_KEYS as int
            &&& table.is_prefix_of(r.table)
            &&& n > 0 ==> plain_node(r.nodes[0])
        }),
    decreases pairs, 1nat, n,
{
    lemma_encode_keys(pairs);
    lemma_encode_values(pairs);
    let flat = alternate(encode_keys(pairs), encode_values(pairs));
    if n > 0 {
        let part = pairs.take(n);
        assert(part.drop_last() =~= pairs.take(n - 1));
        assert(part.last() == pairs[n - 1]);
        lemma_transcode_flat(pairs, table, n - 1);
        let before = encode_flat_cached(pairs.take(n - 1), table)->0;
        lemma_transcode_encode(pairs[n - 1].0, before.table);
        let k = encode_cached(pairs[n - 1].0, before.table)->0;
        lemma_transcode_encode(pairs[n - 1].1, k.table);
        let c = encode_cached(pairs[n - 1].1, k.table)->0;
        let r = encode_flat_cached(part, table)->0;
        let with_key = before.nodes.push(k.node);
        assert(r.nodes == with_key.push(c.node));
        assert(r.nodes.drop_last() =~= with_key);
        assert(with_key.drop_last() =~= before.nodes);
        assert(transcode_items(with_key, table) == Ok::<CodedSeq, ErrorKind>(
            CodedSeq { nodes: flat.take(2 * (n - 1)).push(encode(pairs[n - 1].0)), table: k.table },
        ));
        assert(flat.take(2 * n) =~= flat.take(2 * (n - 1)).push(encode(pairs[n - 1].0)).push(
            encode(pairs[n - 1].1),
        ));
    } else {
        assert(flat.take(0) =~= Seq::<JsonV>::empty());
    }
}

/// The two surfaces agree: the cached document of a well-formed value, turned into a
/// verbose document, is the verbose document of the value.
pub proof fn lemma_transcode_document(v: ValueV)
    requires
        v.wf(),
        encode_document_cached(v) is Some,
    ensures
        transcode_document(encode_document_cached(v)->0.node) == Ok::<JsonV, ErrorKind>(
            encode_document(v),
        ),
{
    let table = Seq::<Seq<char>>::empty();
    if v.kind() == TransitType::Scalar {
        lemma_transcode_encode(v, table);
        let node = tagged_array(quote_tag(), scalar_json(v));
        assert(head_text(node->Array_0) == Some(quote_tag()));
        assert(is_tag(quote_tag()));
        assert(quote_tag() != map_marker()) by {
            assert(quote_tag().len() == 2);
        }
        assert(encode(v) == scalar_json(v));
    } else {
        lemma_transcode_encode(v, table);
    }
}

/// Equivalence of the surfaces: the cached document of a well-formed value of a shape,
/// turned into a verbose document and read as one of that shape, gives the value back.
pub proof fn lemma_cross_surface(shape: Shape, v: ValueV)
    requires
        v.wf(),
        shape.admits(v),
        encode_document_cached(v) is Some,
    ensures
        transcode_document(encode_document_cached(v)->0.node) is Ok,
        decode_document(shape, transcode_document(encode_document_cached(v)->0.node)->Ok_0)
            == Ok::<ValueV, ErrorKind>(v),
{
    lemma_transcode_document(v);
    lemma_round_trip_document(shape, v);
}

/// Round trip on the cached surface: the cached document of a well-formed value of a
/// shape, read as a cached document of that shape, gives the value back.
pub proof fn lemma_round_trip_cached(shape: Shape, v: ValueV)
    requires
        v.wf(),
        shape.admits(v),
        encode_document_cached(v) is Some,
    ensures
        decode_document_cached(shape, encode_document_cached(v)->0.node) == Ok::<
            ValueV,
            ErrorKind,
        >(v),
{
    lemma_cross_surface(shape, v);
}

/// Round trip of a typed value on the cached surface: the cached document of a value of a
/// type with a shape of its own, read as a cached document of that shape, gives the
/// logical value of what was written.
pub proof fn lemma_round_trip_cached_typed<T: OwnShape>(x: T)
    requires
        encode_document_cached(x.transit_value()) is Some,
    ensures
        decode_document_cached(T::spec_shape(), encode_document_cached(x.transit_value())->0.node)
            == Ok::<ValueV, ErrorKind>(x.transit_value()),
{
    x.lemma_own_shape();
    lemma_round_trip_cached(T::spec_shape(), x.transit_value());
}

} // verus!
