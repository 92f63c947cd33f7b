//! Which envelope a map goes into, and what stands at the root of a document.

use crate::cache_codes::{emit, is_reference, lemma_find_from, resolve};
use crate::cross_surface::lemma_round_trip_cached;
use crate::de::{ErrorKind, Shape, TransitType};
use crate::de::impls::untag;
use crate::de::json::{
    decode_document_cached, head_text, transcode, transcode_entries, transcode_items,
};
use crate::de::json_verbose::decode_document;
use crate::json::{all_members_wf, distinct_keys, lemma_insert_member_wf, JsonV};
use crate::round_trip::{lemma_document_root, lemma_round_trip_document, lemma_single_member};
use crate::ser::json::{encode_document_cached, encode_map_cached};
use crate::ser::json_verbose::{
    all_scalar_keys, alternate, encode, encode_document, encode_items, encode_keys, encode_values,
    key_texts, lemma_encode_items, lemma_encode_keys, lemma_encode_values, map_envelope,
    object_of, tagged,
};
use crate::tilde::{cmap_tag, is_tag, map_marker, set_tag};
use crate::value::ValueV;
use vstd::prelude::*;

verus! {

/// Envelope selection on the verbose surface: a map is written in the `~#cmap` envelope
/// if and only if some key has no key form; where every key has one, it is written as the
/// object of the key forms, which is never that envelope.
pub proof fn lemma_envelope_selection(pairs: Seq<(ValueV, ValueV)>)
    ensures
        encode(ValueV::MapOf(pairs)) is Object,
        !all_scalar_keys(pairs) <==> untag(cmap_tag(), encode(ValueV::MapOf(pairs))) is Some,
        all_scalar_keys(pairs) ==> encode(ValueV::MapOf(pairs)) == JsonV::Object(
            object_of(key_texts(pairs), encode_values(pairs)),
        ),
        !all_scalar_keys(pairs) ==> encode(ValueV::MapOf(pairs)) == tagged(
            cmap_tag(),
            JsonV::Array(alternate(encode_keys(pairs), encode_values(pairs))),
        ),
{
    assert(is_tag(cmap_tag()));
    if all_scalar_keys(pairs) && pairs.len() > 0 {
        lemma_single_member(pairs);
    }
}

/// Envelope selection on the cached surface: a map is written as the array that begins
/// with `^` if and only if every key has a key form; otherwise its array begins with what
/// the cache gives for the `~#cmap` tag.
pub proof fn lemma_envelope_selection_cached(pairs: Seq<(ValueV, ValueV)>, table: Seq<Seq<char>>)
    requires
        encode_map_cached(pairs, table) is Some,
    ensures
        encode_map_cached(pairs, table)->0.node is Array,
        all_scalar_keys(pairs) <==> head_text(encode_map_cached(pairs, table)->0.node->Array_0)
            == Some(map_marker()),
        !all_scalar_keys(pairs) ==> emit(table, cmap_tag()) is Some && head_text(
            encode_map_cached(pairs, table)->0.node->Array_0,
        ) == Some(emit(table, cmap_tag())->0.text),
{
    if !all_scalar_keys(pairs) {
        lemma_find_from(table, cmap_tag(), 0);
        let text = emit(table, cmap_tag())->0.text;
        assert(text.len() >= 2);
        assert(map_marker().len() == 1);
    }
}

/// Top-level quoting: the document of a scalar has a composite node at its root on both
/// surfaces, and read as a document of a shape of the scalar it gives the scalar back.
pub proof fn lemma_top_level_quoting(shape: Shape, v: ValueV)
    requires
        v.kind() == TransitType::Scalar,
        shape.admits(v),
    ensures
        encode_document(v).is_composite(),
        decode_document(shape, encode_document(v)) == Ok::<ValueV, ErrorKind>(v),
        encode_document_cached(v) is Some,
        encode_document_cached(v)->0.node.is_composite(),
        decode_document_cached(shape, encode_document_cached(v)->0.node) == Ok::<
            ValueV,
            ErrorKind,
        >(v),
{
    lemma_document_root(v);
    lemma_round_trip_document(shape, v);
    lemma_round_trip_cached(shape, v);
}

/// The object built by inserting well-formed nodes holds each key once, and well-formed
/// nodes only.
pub proof fn lemma_object_of_wf(keys: Seq<Seq<char>>, values: Seq<JsonV>)
    requires
        forall|i: int| 0 <= i < values.len() ==> (#[trigger] values[i]).wf(),
    ensures
        distinct_keys(object_of(keys, values)),
        all_members_wf(object_of(keys, values)),
    decreases keys.len(),
{
    if keys.len() > 0 && values.len() == keys.len() {
        lemma_object_of_wf(keys.drop_last(), values.drop_last());
        lemma_insert_member_wf(
            object_of(keys.drop_last(), values.drop_last()),
            keys.last(),
            values.last(),
        );
    }
}

/// What the verbose surface writes for a value inside a document is a well-formed host
/// tree: every object in it holds each of its keys once.
pub proof fn lemma_encode_wf(v: ValueV)
    ensures
        encode(v).wf(),
    decreases v, 1nat,
{
    match v {
        ValueV::List(items) => {
            lemma_encode_items_wf(items);
            assert(encode(v)->Array_0 == encode_items(items));
        },
        ValueV::SetOf(items) => {
            lemma_encode_items_wf(items);
            lemma_tagged_wf(set_tag(), JsonV::Array(encode_items(items)));
        },
        ValueV::TaggedArray(tag, items) => {
            lemma_encode_items_wf(items);
            lemma_tagged_wf(tag, JsonV::Array(encode_items(items)));
        },
        ValueV::MapOf(pairs) => {
            lemma_encode_map_wf(pairs);
        },
        ValueV::TaggedMap(tag, pairs) => {
            lemma_encode_map_wf(pairs);
            lemma_tagged_wf(
                tag,
                map_envelope(
                    all_scalar_keys(pairs),
                    key_texts(pairs),
                    encode_keys(pairs),
                    encode_values(pairs),
                ),
            );
        },
        _ => {},
    }
}

/// The envelope of a tag around a well-formed node is well-formed; so is the array of
/// well-formed nodes.
pub proof fn lemma_tagged_wf(tag: Seq<char>, payload: JsonV)
    requires
        payload matches JsonV::Array(items) ==> forall|i: int|
            0 <= i < items.len() ==> (#[trigger] items[i]).wf(),
        !(payload is Array) ==> payload.wf(),
    ensures
        payload.wf(),
        tagged(tag, payload).wf(),
{
    let members = tagged(tag, payload)->Object_0;
    assert(members[0].1 == payload);
}

/// The nodes that the verbose surface writes for the items of a sequence are well-formed.
pub proof fn lemma_encode_items_wf(items: Seq<ValueV>)
    ensures
        forall|i: int|
            0 <= i < encode_items(items).len() ==> (#[trigger] encode_items(items)[i]).wf(),
    decreases items, 0nat,
{
    lemma_encode_items(items);
    assert forall|i: int| 0 <= i < encode_items(items).len() implies (#[trigger] encode_items(
        items,
    )[i]).wf() by {
        lemma_encode_wf(items[i]);
    }
}

/// The envelope that the verbose surface writes for a map is well-formed.
pub proof fn lemma_encode_map_wf(pairs: Seq<(ValueV, ValueV)>)
    ensures
        map_envelope(
            all_scalar_keys(pairs),
            key_texts(pairs),
            encode_keys(pairs),
            encode_values(pairs),
        ).wf(),
    decreases pairs, 0nat,
{
    lemma_encode_keys(pairs);
    lemma_encode_values(pairs);
    let keys = encode_keys(pairs);
    let values = encode_values(pairs);
    assert forall|i: int| 0 <= i < values.len() implies (#[trigger] values[i]).wf() by {
        lemma_encode_wf(pairs[i].1);
    }
    assert forall|i: int| 0 <= i < keys.len() implies (#[trigger] keys[i]).wf() by {
        lemma_encode_wf(pairs[i].0);
    }
    let node = map_envelope(all_scalar_keys(pairs), key_texts(pairs), keys, values);
    if all_scalar_keys(pairs) {
        lemma_object_of_wf(key_texts(pairs), values);
        assert(node->Object_0 == object_of(key_texts(pairs), values));
    } else {
        let flat = alternate(keys, values);
        assert forall|i: int| 0 <= i < flat.len() implies (#[trigger] flat[i]).wf() by {
            if i % 2 == 0 {
                assert(flat[i] == keys[i / 2]);
            } else {
                assert(flat[i] == values[i / 2]);
            }
        }
        lemma_tagged_wf(cmap_tag(), JsonV::Array(flat));
    }
}

/// The verbose document of a value is a well-formed host tree.
pub proof fn lemma_encode_document_wf(v: ValueV)
    ensures
        encode_document(v).wf(),
{
    lemma_encode_wf(v);
}

/// The verbose node that a cached node is turned into is a well-formed host tree.
pub proof fn lemma_transcode_wf(j: JsonV, table: Seq<Seq<char>>)
    requires
        transcode(j, table) is Ok,
    ensures
        transcode(j, table)->Ok_0.node.wf(),
    decreases j, 0nat,
{
    match j {
        JsonV::Array(items) => {
            let head = head_text(items);
            if head == Some(map_marker()) {
                let flat = items.skip(1);
                assert(flat.take(flat.len() as int) =~= flat);
                lemma_transcode_entries_wf(items, (flat.len() / 2) as int, table);
            } else if head is Some && (is_reference(head->0) || is_tag(head->0)) {
                let p = resolve(table, head->0)->Ok_0;
                lemma_transcode_wf(items[1], p.table);
            } else {
                assert(items.take(items.len() as int) =~= items);
                lemma_transcode_items_wf(items, table, items.len() as int);
            }
        },
        _ => {},
    }
}

/// The verbose nodes that the first `n` of the cached nodes are turned into are
/// well-formed.
pub proof fn lemma_transcode_items_wf(items: Seq<JsonV>, table: Seq<Seq<char>>, n: int)
    requires
        0 <= n <= items.len(),
        transcode_items(items.take(n), table) is Ok,
    ensures
        forall|i: int|
            0 <= i < transcode_items(items.take(n), table)->Ok_0.nodes.len() ==> (
            #[trigger] transcode_items(items.take(n), table)->Ok_0.nodes[i]).wf(),
    decreases items, 1nat, n,
{
    if n > 0 {
        assert(items.take(n).drop_last() =~= items.take(n - 1));
        assert(items.take(n).last() == items[n - 1]);
        lemma_transcode_items_wf(items, table, n - 1);
        let before = transcode_items(items.take(n - 1), table)->Ok_0;
        lemma_transcode_wf(items[n - 1], before.table);
    }
}

/// The members that the first `n` pairs of a cached map are turned into have distinct
/// keys and well-formed values; `items` is the array of the map, with the `^` at its head.
pub proof fn lemma_transcode_entries_wf(items: Seq<JsonV>, n: int, table: Seq<Seq<char>>)
    requires
        items.len() >= 1,
        0 <= n,
        2 * n <= items.len() - 1,
        transcode_entries(items.skip(1).take(2 * n), table) is Ok,
    ensures
        distinct_keys(transcode_entries(items.skip(1).take(2 * n), table)->Ok_0.members),
        all_members_wf(transcode_entries(items.skip(1).take(2 * n), table)->Ok_0.members),
    decreases items, 1nat, n,
{
    if n > 0 {
        let flat = items.skip(1);
        let part = flat.take(2 * n);
        assert(part.take(part.len() - 2) =~= flat.take(2 * (n - 1)));
        assert(part[part.len() - 1] == items[2 * n]);
        lemma_transcode_entries_wf(items, n - 1, table);
        let before = transcode_entries(flat.take(2 * (n - 1)), table)->Ok_0;
        let p = resolve(before.table, part[part.len() - 2]->Str_0)->Ok_0;
        lemma_transcode_wf(items[2 * n], p.table);
        let c = transcode(items[2 * n], p.table)->Ok_0;
        lemma_insert_member_wf(before.members, p.text, c.node);
    }
}

} // verus!
