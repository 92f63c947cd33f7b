//! What a decoder reads is of the shape that it was told to expect.

use crate::de::impls::{
    decode, decode_flat, decode_items, decode_key, decode_members, decode_pairs, decode_record,
    decode_tuple, untag,
};
use crate::de::json_verbose::decode_document;
use crate::de::{ErrorKind, Shape};
use crate::json::JsonV;
use crate::value::ValueV;
use vstd::prelude::*;

verus! {

/// The shape of the items of `shape`, where `shape` is one of lists, sets or tagged
/// arrays.
pub open spec fn item_shape(shape: Shape) -> Shape {
    match shape {
        Shape::List(inner) => *inner,
        Shape::SetOf(inner) => *inner,
        Shape::TaggedArray(_, inner) => *inner,
        _ => shape,
    }
}

/// The shape of the keys of `shape`, where `shape` is one of maps.
pub open spec fn key_shape(shape: Shape) -> Shape {
    match shape {
        Shape::MapOf(key, _) => *key,
        Shape::TaggedMap(_, key, _) => *key,
        _ => shape,
    }
}

/// The shape of the values of `shape`, where `shape` is one of maps.
pub open spec fn value_shape(shape: Shape) -> Shape {
    match shape {
        Shape::MapOf(_, value) => *value,
        Shape::TaggedMap(_, _, value) => *value,
        _ => shape,
    }
}

/// All the keys and values of `pairs` are of the shapes of the keys and values of
/// `shape`.
pub open spec fn admits_pairs(shape: Shape, pairs: Seq<(ValueV, ValueV)>) -> bool {
    forall|i: int|
        0 <= i < pairs.len() ==> key_shape(shape).admits((#[trigger] pairs[i]).0) && value_shape(
            shape,
        ).admits(pairs[i].1)
}

/// What is read where a key stands is of the shape expected.
pub proof fn lemma_decode_key_admits(shape: Shape, w: Seq<char>)
    requires
        decode_key(shape, w) is Ok,
    ensures
        shape.admits(decode_key(shape, w)->Ok_0),
    decreases shape,
{
    match shape {
        Shape::Optional(inner) => {
            if w != crate::tilde::null_code() {
                lemma_decode_key_admits(*inner, w);
            }
        },
        _ => {},
    }
}

/// What is read where a value stands is of the shape expected.
pub proof fn lemma_decode_admits(shape: Shape, j: JsonV)
    requires
        decode(shape, j) is Ok,
    ensures
        shape.admits(decode(shape, j)->Ok_0),
    decreases shape, 2nat, 0nat,
{
    match shape {
        Shape::Optional(inner) => {
            if !(j is Null) {
                lemma_decode_admits(*inner, j);
            }
        },
        Shape::List(_) => {
            lemma_decode_items_admits(shape, j->Array_0);
        },
        Shape::SetOf(_) => {
            lemma_decode_items_admits(shape, untag(crate::tilde::set_tag(), j)->0->Array_0);
        },
        Shape::TaggedArray(tag, _) => {
            lemma_decode_items_admits(shape, untag(tag@, j)->0->Array_0);
        },
        Shape::MapOf(_, _) => {
            lemma_decode_pairs_admits(shape, j);
        },
        Shape::TaggedMap(tag, _, _) => {
            lemma_decode_pairs_admits(shape, untag(tag@, j)->0);
        },
        Shape::Tuple(tag, shapes) => {
            let items = untag(tag@, j)->0->Array_0;
            lemma_decode_tuple_admits(shape, items, items.len() as int);
        },
        Shape::Record(tag, fields) => {
            let members = untag(tag@, j)->0->Object_0;
            lemma_decode_record_admits(shape, members, members.len() as int);
        },
        Shape::OneOf(variants) => {
            let tag = crate::de::impls::node_tag(j)->0;
            crate::de::lemma_variant_from(variants@, tag, 0);
            let at = crate::de::variant_from(variants@, tag, 0)->0;
            lemma_decode_admits(variants@[at], j);
        },
        _ => {},
    }
}

/// The first `n` items read for a tuple are of the shapes at their places.
pub proof fn lemma_decode_tuple_admits(shape: Shape, items: Seq<JsonV>, n: int)
    requires
        shape matches Shape::Tuple(_, shapes) && 0 <= n <= shapes@.len(),
        decode_tuple(shape, items, n) is Ok,
    ensures
        decode_tuple(shape, items, n)->Ok_0.len() == n,
        forall|i: int|
            0 <= i < n ==> (#[trigger] shape->Tuple_1@[i]).admits(
                decode_tuple(shape, items, n)->Ok_0[i],
            ),
    decreases shape, 0nat, n,
{
    if n > 0 {
        lemma_decode_tuple_admits(shape, items, n - 1);
        lemma_decode_admits(shape->Tuple_1@[n - 1], items[n - 1]);
    }
}

/// The first `n` fields read for a record stand under their names and are of the shapes
/// of the fields.
pub proof fn lemma_decode_record_admits(shape: Shape, members: Seq<(Seq<char>, JsonV)>, n: int)
    requires
        shape matches Shape::Record(_, fields) && 0 <= n <= fields@.len(),
        decode_record(shape, members, n) is Ok,
    ensures
        decode_record(shape, members, n)->Ok_0.len() == n,
        forall|i: int|
            0 <= i < n ==> decode_record(shape, members, n)->Ok_0[i].0 == ValueV::Str(
                (#[trigger] shape->Record_1@[i]).0@,
            ) && shape->Record_1@[i].1.admits(decode_record(shape, members, n)->Ok_0[i].1),
    decreases shape, 0nat, n,
{
    if n > 0 {
        lemma_decode_record_admits(shape, members, n - 1);
        let fields = shape->Record_1@;
        let at = crate::json::member_index(members, crate::tilde::escape(fields[n - 1].0@))->0;
        lemma_decode_admits(fields[n - 1].1, members[at].1);
    }
}

/// The items read are of the shape of the items expected.
pub proof fn lemma_decode_items_admits(shape: Shape, items: Seq<JsonV>)
    requires
        shape is List || shape is SetOf || shape is TaggedArray,
        decode_items(shape, items) is Ok,
    ensures
        decode_items(shape, items)->Ok_0.len() == items.len(),
        forall|i: int|
            0 <= i < items.len() ==> item_shape(shape).admits(
                #[trigger] decode_items(shape, items)->Ok_0[i],
            ),
    decreases shape, 0nat, items.len(),
{
    if items.len() > 0 {
        lemma_decode_items_admits(shape, items.drop_last());
        lemma_decode_admits(item_shape(shape), items.last());
    }
}

/// The pairs read are of the shapes of the keys and values expected.
pub proof fn lemma_decode_pairs_admits(shape: Shape, j: JsonV)
    requires
        shape is MapOf || shape is TaggedMap,
        decode_pairs(shape, j) is Ok,
    ensures
        admits_pairs(shape, decode_pairs(shape, j)->Ok_0),
    decreases shape, 1nat, 0nat,
{
    let members = j->Object_0;
    if members.len() > 0 && members[0].0 == crate::tilde::cmap_tag() {
        lemma_decode_flat_admits(shape, members[0].1->Array_0);
    } else {
        lemma_decode_members_admits(shape, members);
    }
}

/// The pairs read from the members of an object are of the shapes expected.
pub proof fn lemma_decode_members_admits(shape: Shape, members: Seq<(Seq<char>, JsonV)>)
    requires
        shape is MapOf || shape is TaggedMap,
        decode_members(shape, members) is Ok,
    ensures
        admits_pairs(shape, decode_members(shape, members)->Ok_0),
    decreases shape, 0nat, members.len(),
{
    if members.len() > 0 {
        lemma_decode_members_admits(shape, members.drop_last());
        lemma_decode_key_admits(key_shape(shape), members.last().0);
        lemma_decode_admits(value_shape(shape), members.last().1);
    }
}

/// The pairs read from the nodes under `~#cmap` are of the shapes expected.
pub proof fn lemma_decode_flat_admits(shape: Shape, flat: Seq<JsonV>)
    requires
        shape is MapOf || shape is TaggedMap,
        decode_flat(shape, flat) is Ok,
    ensures
        admits_pairs(shape, decode_flat(shape, flat)->Ok_0),
    decreases shape, 0nat, flat.len(),
{
    if flat.len() >= 2 {
        lemma_decode_flat_admits(shape, flat.take(flat.len() - 2));
        lemma_decode_admits(key_shape(shape), flat[flat.len() - 2]);
        lemma_decode_admits(value_shape(shape), flat[flat.len() - 1]);
    }
}

/// What is read from a document is of the shape expected.
pub proof fn lemma_decode_document_admits(shape: Shape, j: JsonV)
    requires
        decode_document(shape, j) is Ok,
    ensures
        shape.admits(decode_document(shape, j)->Ok_0),
{
    match j {
        JsonV::Object(members) => {
            if members.len() == 1 && members[0].0 == crate::tilde::quote_tag()
                && !members[0].1.is_composite() {
                lemma_decode_admits(shape, members[0].1);
            } else {
                lemma_decode_admits(shape, j);
            }
        },
        JsonV::Array(_) => {
            lemma_decode_admits(shape, j);
        },
        _ => {},
    }
}

/// A shape whose values can stand as no key: any shape but a scalar one or an optional
/// one.
pub open spec fn never_a_key(shape: Shape) -> bool {
    !(shape is Null || shape is Bool || shape is Int || shape is Int32 || shape is Str
        || shape is Instant || shape is Optional)
}

/// An unexpected tag: an object that is not empty and whose first key is not `~#cmap`,
/// read as a map whose keys can stand as no key, is a node that does not match.
pub proof fn lemma_unexpected_tag(shape: Shape, members: Seq<(Seq<char>, JsonV)>)
    requires
        shape is MapOf,
        never_a_key(key_shape(shape)),
        members.len() > 0,
        members[0].0 != crate::tilde::cmap_tag(),
    ensures
        decode(shape, JsonV::Object(members)) == Err::<ValueV, ErrorKind>(ErrorKind::DoNotMatch),
{
    let first = members.take(1);
    assert(first.drop_last() =~= Seq::<(Seq<char>, JsonV)>::empty());
    assert(first.last() == members[0]);
    assert(decode_key(key_shape(shape), members[0].0) == Err::<ValueV, ErrorKind>(
        ErrorKind::CannotBeKey,
    ));
    assert(decode_members(shape, first.drop_last()) == Ok::<Seq<(ValueV, ValueV)>, ErrorKind>(
        Seq::empty(),
    ));
    assert(*shape->MapOf_0 == key_shape(shape));
    assert(decode_members(shape, first) == Err::<Seq<(ValueV, ValueV)>, ErrorKind>(
        ErrorKind::DoNotMatch,
    ));
    crate::de::impls::lemma_decode_members_prefix(shape, members, 1);
    assert(decode_pairs(shape, JsonV::Object(members)) == decode_members(shape, members));
}

/// Reading where a value stands never answers that something cannot be a key: that is the
/// answer of reading a key text alone.
pub proof fn lemma_decode_never_cannot_be_key(shape: Shape, j: JsonV)
    ensures
        decode(shape, j) != Err::<ValueV, ErrorKind>(ErrorKind::CannotBeKey),
    decreases shape, 2nat, 0nat,
{
    match shape {
        Shape::Optional(inner) => {
            lemma_decode_never_cannot_be_key(*inner, j);
        },
        Shape::List(_) => {
            if j is Array {
                lemma_decode_items_never(shape, j->Array_0);
            }
        },
        Shape::SetOf(_) => {
            if let Some(JsonV::Array(items)) = untag(crate::tilde::set_tag(), j) {
                lemma_decode_items_never(shape, items);
            }
        },
        Shape::TaggedArray(tag, _) => {
            if let Some(JsonV::Array(items)) = untag(tag@, j) {
                lemma_decode_items_never(shape, items);
            }
        },
        Shape::MapOf(_, _) => {
            lemma_decode_pairs_never(shape, j);
        },
        Shape::TaggedMap(tag, _, _) => {
            if let Some(payload) = untag(tag@, j) {
                lemma_decode_pairs_never(shape, payload);
            }
        },
        Shape::Tuple(tag, _) => {
            if let Some(JsonV::Array(items)) = untag(tag@, j) {
                lemma_decode_tuple_never(shape, items, items.len() as int);
            }
        },
        Shape::Record(tag, _) => {
            if let Some(JsonV::Object(members)) = untag(tag@, j) {
                lemma_decode_record_never(shape, members, members.len() as int);
            }
        },
        Shape::OneOf(variants) => {
            if let Some(tag) = crate::de::impls::node_tag(j) {
                if let Some(at) = crate::de::variant_from(variants@, tag, 0) {
                    if 0 <= at < variants@.len() {
                        lemma_decode_never_cannot_be_key(variants@[at], j);
                    }
                }
            }
        },
        _ => {},
    }
}

/// Reading the items of an array never answers that something cannot be a key.
pub proof fn lemma_decode_items_never(shape: Shape, items: Seq<JsonV>)
    ensures
        decode_items(shape, items) != Err::<Seq<ValueV>, ErrorKind>(ErrorKind::CannotBeKey),
    decreases shape, 0nat, items.len(),
{
    if (shape is List || shape is SetOf || shape is TaggedArray) && items.len() > 0 {
        lemma_decode_items_never(shape, items.drop_last());
        lemma_decode_never_cannot_be_key(item_shape(shape), items.last());
    }
}

/// Reading the pairs of a map never answers that something cannot be a key.
pub proof fn lemma_decode_pairs_never(shape: Shape, j: JsonV)
    ensures
        decode_pairs(shape, j) != Err::<Seq<(ValueV, ValueV)>, ErrorKind>(ErrorKind::CannotBeKey),
    decreases shape, 1nat, 0nat,
{
    if let JsonV::Object(members) = j {
        if members.len() > 0 && members[0].0 == crate::tilde::cmap_tag() {
            if let JsonV::Array(flat) = members[0].1 {
                lemma_decode_flat_never(shape, flat);
            }
        } else {
            lemma_decode_members_never(shape, members);
        }
    }
}

/// Reading the members of an object as pairs never answers that something cannot be a
/// key.
pub proof fn lemma_decode_members_never(shape: Shape, members: Seq<(Seq<char>, JsonV)>)
    ensures
        decode_members(shape, members) != Err::<Seq<(ValueV, ValueV)>, ErrorKind>(
            ErrorKind::CannotBeKey,
        ),
    decreases shape, 0nat, members.len(),
{
    if (shape is MapOf || shape is TaggedMap) && members.len() > 0 {
        lemma_decode_members_never(shape, members.drop_last());
        lemma_decode_never_cannot_be_key(value_shape(shape), members.last().1);
    }
}

/// Reading the nodes under `~#cmap` as pairs never answers that something cannot be a
/// key.
pub proof fn lemma_decode_flat_never(shape: Shape, flat: Seq<JsonV>)
    ensures
        decode_flat(shape, flat) != Err::<Seq<(ValueV, ValueV)>, ErrorKind>(
            ErrorKind::CannotBeKey,
        ),
    decreases shape, 0nat, flat.len(),
{
    if (shape is MapOf || shape is TaggedMap) && flat.len() >= 2 {
        lemma_decode_flat_never(shape, flat.take(flat.len() - 2));
        lemma_decode_never_cannot_be_key(key_shape(shape), flat[flat.len() - 2]);
        lemma_decode_never_cannot_be_key(value_shape(shape), flat[flat.len() - 1]);
    }
}

/// Reading the items of a tuple never answers that something cannot be a key.
pub proof fn lemma_decode_tuple_never(shape: Shape, items: Seq<JsonV>, n: int)
    ensures
        decode_tuple(shape, items, n) != Err::<Seq<ValueV>, ErrorKind>(ErrorKind::CannotBeKey),
    decreases shape, 0nat, n,
{
    if let Shape::Tuple(_, shapes) = shape {
        if 0 < n <= shapes@.len() {
            lemma_decode_tuple_never(shape, items, n - 1);
            lemma_decode_never_cannot_be_key(shapes@[n - 1], items[n - 1]);
        }
    }
}

/// Reading the fields of a record never answers that something cannot be a key.
pub proof fn lemma_decode_record_never(shape: Shape, members: Seq<(Seq<char>, JsonV)>, n: int)
    ensures
        decode_record(shape, members, n) != Err::<Seq<(ValueV, ValueV)>, ErrorKind>(
            ErrorKind::CannotBeKey,
        ),
    decreases shape, 0nat, n,
{
    if let Shape::Record(_, fields) = shape {
        if 0 < n <= fields@.len() {
            lemma_decode_record_never(shape, members, n - 1);
            let at = crate::json::member_index(members, crate::tilde::escape(fields@[n - 1].0@));
            if at is Some {
                lemma_decode_never_cannot_be_key(fields@[n - 1].1, members[at->0].1);
            }
        }
    }
}

} // verus!
