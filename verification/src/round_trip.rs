//! What is written can be read back: the verbose surface.

use crate::cache_codes::is_reference;
use crate::de::{ErrorKind, OwnShape, Shape, TransitType};
use crate::de::impls::{
    decode, decode_flat, decode_items, decode_key, decode_members, decode_pairs, decode_record,
    decode_tuple, untag,
};
use crate::de::json_verbose::decode_document;
use crate::json::{lemma_member_from, member_index, JsonV};
use crate::ser::json_verbose::{
    all_scalar_keys, alternate, encode, encode_document, encode_items, encode_keys, encode_values,
    key_texts, lemma_encode_items, lemma_encode_keys, lemma_encode_values, map_envelope, object_of,
    tagged,
};
use crate::ser::key::key_form;
use crate::text::{decimal, lemma_parse_decimal};
use crate::tilde::{
    cmap_tag, escape, instant_prefix, int_prefix, is_tag, lemma_unescape_escape, null_code,
    quote_tag,
};
use crate::value::{distinct_keys, ValueV};
use vstd::prelude::*;

verus! {

/// The character after the leading `~` of a code, or -1 for a text that is no code.
pub open spec fn code_letter(w: Seq<char>) -> int {
    if w.len() >= 2 && w[0] == '~' {
        w[1] as int
    } else {
        -1
    }
}

/// Each kind of scalar has key forms with a letter of its own, so that no key form is a
/// tag, a cache reference or the form of a scalar of another kind.
pub proof fn lemma_key_form_letter(v: ValueV)
    requires
        key_form(v) is Some,
    ensures
        v is Null ==> code_letter(key_form(v)->0) == '_' as int,
        v is Bool ==> code_letter(key_form(v)->0) == '?' as int,
        v is Int ==> code_letter(key_form(v)->0) == 'i' as int,
        v is Instant ==> code_letter(key_form(v)->0) == 't' as int,
        v is Str ==> code_letter(key_form(v)->0) == '~' as int || code_letter(key_form(v)->0)
            == '^' as int || code_letter(key_form(v)->0) == -1,
        !is_tag(key_form(v)->0),
        !is_reference(key_form(v)->0),
{
    let w = key_form(v)->0;
    match v {
        ValueV::Int(n) => {
            assert(w[0] == '~' && w[1] == 'i');
        },
        ValueV::Instant(t) => {
            assert(w[0] == '~' && w[1] == 't');
        },
        ValueV::Str(s) => {
            lemma_unescape_escape(s);
            if s.len() > 0 && (s[0] == '~' || s[0] == '^') {
                assert(w[0] == '~' && w[1] == s[0]);
            }
        },
        _ => {},
    }
}

/// Two scalars with one key form are one scalar.
pub proof fn lemma_key_form_injective(a: ValueV, b: ValueV)
    requires
        key_form(a) is Some,
        key_form(a) == key_form(b),
    ensures
        a == b,
{
    lemma_key_form_letter(a);
    lemma_key_form_letter(b);
    let w = key_form(a)->0;
    match (a, b) {
        (ValueV::Int(n), ValueV::Int(m)) => {
            lemma_parse_decimal(n as int);
            lemma_parse_decimal(m as int);
            assert(w.skip(2) =~= decimal(n as int));
            assert(w.skip(2) =~= decimal(m as int));
        },
        (ValueV::Str(s), ValueV::Str(t)) => {
            lemma_unescape_escape(s);
            lemma_unescape_escape(t);
        },
        (ValueV::Instant(s), ValueV::Instant(t)) => {
            assert(w.skip(2) =~= s);
            assert(w.skip(2) =~= t);
        },
        (ValueV::Bool(x), ValueV::Bool(y)) => {
            assert(w[2] == if x {
                't'
            } else {
                'f'
            });
        },
        _ => {},
    }
}

/// A key form is read back as the scalar that it stands for.
pub proof fn lemma_key_round_trip(shape: Shape, v: ValueV)
    requires
        shape.admits(v),
        key_form(v) is Some,
    ensures
        decode_key(shape, key_form(v)->0) == Ok::<ValueV, ErrorKind>(v),
    decreases shape,
{
    let w = key_form(v)->0;
    lemma_key_form_letter(v);
    match shape {
        Shape::Int | Shape::Int32 => {
            let n = v->Int_0;
            lemma_parse_decimal(n as int);
            assert(w.take(2) =~= int_prefix());
            assert(w.skip(2) =~= decimal(n as int));
        },
        Shape::Str => {
            lemma_unescape_escape(v->Str_0);
        },
        Shape::Instant => {
            assert(w.take(2) =~= instant_prefix());
            assert(w.skip(2) =~= v->Instant_0);
        },
        Shape::Optional(inner) => {
            if !(v is Null) {
                assert(code_letter(null_code()) == '_' as int);
                lemma_key_round_trip(*inner, v);
            }
        },
        _ => {},
    }
}

/// No text stands twice in `keys`.
pub open spec fn distinct(keys: Seq<Seq<char>>) -> bool {
    forall|i: int, j: int| 0 <= i < j < keys.len() ==> keys[i] != keys[j]
}

/// The member `i` of the object that pairs `keys` with `values` one to one.
pub open spec fn zipped(keys: Seq<Seq<char>>, values: Seq<JsonV>) -> Seq<(Seq<char>, JsonV)> {
    Seq::new(keys.len(), |i: int| (keys[i], values[i]))
}

/// Where no key stands twice, the object built by inserting the pairs in order holds
/// each pair at its place.
pub proof fn lemma_object_of_distinct(keys: Seq<Seq<char>>, values: Seq<JsonV>)
    requires
        keys.len() == values.len(),
        distinct(keys),
    ensures
        object_of(keys, values) == zipped(keys, values),
    decreases keys.len(),
{
    if keys.len() == 0 {
        assert(object_of(keys, values) =~= zipped(keys, values));
    } else {
        let front_keys = keys.drop_last();
        let front_values = values.drop_last();
        lemma_object_of_distinct(front_keys, front_values);
        let front = zipped(front_keys, front_values);
        lemma_member_from(front, keys.last(), 0);
        assert(member_index(front, keys.last()) is None) by {
            if member_index(front, keys.last()) is Some {
                let i = member_index(front, keys.last())->0;
                assert(front[i].0 == keys[i]);
            }
        }
        assert(object_of(keys, values) =~= zipped(keys, values));
    }
}

/// In a well-formed map whose keys all are scalars, no key form stands twice.
pub proof fn lemma_key_texts_distinct(pairs: Seq<(ValueV, ValueV)>)
    requires
        all_scalar_keys(pairs),
        distinct_keys(pairs),
    ensures
        distinct(key_texts(pairs)),
{
    let texts = key_texts(pairs);
    assert forall|i: int, j: int| 0 <= i < j < texts.len() implies texts[i] != texts[j] by {
        assert(key_form(pairs[i].0) is Some && key_form(pairs[j].0) is Some);
        if texts[i] == texts[j] {
            lemma_key_form_injective(pairs[i].0, pairs[j].0);
        }
    }
}

/// The shape of the keys and that of the values of a shape of maps.
pub open spec fn is_map_shape(shape: Shape, key: Shape, value: Shape) -> bool {
    match shape {
        Shape::MapOf(k, v) => *k == key && *v == value,
        Shape::TaggedMap(_, k, v) => *k == key && *v == value,
        _ => false,
    }
}

/// The shape of the items of a shape of lists, sets or tagged arrays.
pub open spec fn is_items_shape(shape: Shape, item: Shape) -> bool {
    match shape {
        Shape::List(inner) => *inner == item,
        Shape::SetOf(inner) => *inner == item,
        Shape::TaggedArray(_, inner) => *inner == item,
        _ => false,
    }
}

/// Inside a document, the verbose node of a well-formed value of a shape is read back as
/// that value.
pub proof fn lemma_round_trip(shape: Shape, v: ValueV)
    requires
        v.wf(),
        shape.admits(v),
    ensures
        decode(shape, encode(v)) == Ok::<ValueV, ErrorKind>(v),
    decreases shape, 2nat, 0nat,
{
    match shape {
        Shape::Str => {
            lemma_unescape_escape(v->Str_0);
        },
        Shape::Instant => {
            let w = instant_prefix() + v->Instant_0;
            assert(w.take(2) =~= instant_prefix());
            assert(w.skip(2) =~= v->Instant_0);
        },
        Shape::Optional(inner) => {
            if !(v is Null) {
                lemma_round_trip(*inner, v);
            }
        },
        Shape::List(inner) => {
            let items = v->List_0;
            lemma_round_trip_items(shape, *inner, items, items.len() as int);
            assert(items.take(items.len() as int) =~= items);
            assert(encode_items(items).take(items.len() as int) =~= encode_items(items)) by {
                lemma_encode_items(items);
            }
        },
        Shape::SetOf(inner) => {
            let items = v->SetOf_0;
            lemma_round_trip_items(shape, *inner, items, items.len() as int);
            assert(items.take(items.len() as int) =~= items);
            assert(encode_items(items).take(items.len() as int) =~= encode_items(items)) by {
                lemma_encode_items(items);
            }
        },
        Shape::TaggedArray(tag, inner) => {
            let items = v->TaggedArray_1;
            lemma_round_trip_items(shape, *inner, items, items.len() as int);
            assert(items.take(items.len() as int) =~= items);
            assert(encode_items(items).take(items.len() as int) =~= encode_items(items)) by {
                lemma_encode_items(items);
            }
        },
        Shape::MapOf(key, value) => {
            lemma_round_trip_pairs(shape, *key, *value, v->MapOf_0);
        },
        Shape::TaggedMap(tag, key, value) => {
            lemma_round_trip_pairs(shape, *key, *value, v->TaggedMap_1);
        },
        Shape::Tuple(tag, shapes) => {
            let items = v->TaggedArray_1;
            lemma_encode_items(items);
            lemma_round_trip_tuple(shape, items, items.len() as int);
            assert(items.take(items.len() as int) =~= items);
        },
        Shape::Record(tag, fields) => {
            let pairs = v->TaggedMap_1;
            lemma_encode_values(pairs);
            assert forall|i: int| 0 <= i < pairs.len() implies key_form(
                (#[trigger] pairs[i]).0,
            ) is Some by {
                assert(pairs[i].0 == ValueV::Str(fields@[i].0@));
            }
            lemma_key_texts_distinct(pairs);
            lemma_object_of_distinct(key_texts(pairs), encode_values(pairs));
            lemma_round_trip_record(shape, pairs, pairs.len() as int);
            assert(pairs.take(pairs.len() as int) =~= pairs);
        },
        Shape::OneOf(variants) => {
            let tag = v.tag()->0;
            crate::de::lemma_variant_from(variants@, tag, 0);
            let at = crate::de::variant_from(variants@, tag, 0)->0;
            lemma_round_trip(variants@[at], v);
        },
        _ => {},
    }
}

/// The nodes of the first `n` items of a tuple are read back as those items.
pub proof fn lemma_round_trip_tuple(shape: Shape, items: Seq<ValueV>, n: int)
    requires
        shape matches Shape::Tuple(_, shapes) && shapes@.len() == items.len(),
        0 <= n <= items.len(),
        forall|i: int|
            0 <= i < items.len() ==> (#[trigger] items[i]).wf() && shape->Tuple_1@[i].admits(
                items[i],
            ),
    ensures
        decode_tuple(shape, encode_items(items), n) == Ok::<Seq<ValueV>, ErrorKind>(items.take(n)),
    decreases shape, 0nat, n,
{
    lemma_encode_items(items);
    if n == 0 {
        assert(items.take(0) =~= Seq::<ValueV>::empty());
    } else {
        lemma_round_trip_tuple(shape, items, n - 1);
        lemma_round_trip(shape->Tuple_1@[n - 1], items[n - 1]);
        assert(items.take(n) =~= items.take(n - 1).push(items[n - 1]));
    }
}

/// In an object that pairs distinct keys with values one to one, each key is found at its
/// place.
pub proof fn lemma_member_index_zipped(keys: Seq<Seq<char>>, values: Seq<JsonV>, i: int)
    requires
        distinct(keys),
        0 <= i < keys.len(),
    ensures
        member_index(zipped(keys, values), keys[i]) == Some(i),
{
    let members = zipped(keys, values);
    lemma_member_from(members, keys[i], 0);
    match member_index(members, keys[i]) {
        Some(at) => {
            assert(members[at].0 == keys[at]);
        },
        None => {
            assert(members[i].0 == keys[i]);
        },
    }
}

/// The members of the first `n` fields of a record are read back as those fields.
pub proof fn lemma_round_trip_record(shape: Shape, pairs: Seq<(ValueV, ValueV)>, n: int)
    requires
        shape matches Shape::Record(_, fields) && fields@.len() == pairs.len(),
        0 <= n <= pairs.len(),
        all_scalar_keys(pairs),
        distinct(key_texts(pairs)),
        forall|i: int|
            0 <= i < pairs.len() ==> (#[trigger] pairs[i]).1.wf() && pairs[i].0 == ValueV::Str(
                shape->Record_1@[i].0@,
            ) && shape->Record_1@[i].1.admits(pairs[i].1),
    ensures
        decode_record(shape, zipped(key_texts(pairs), encode_values(pairs)), n) == Ok::<
            Seq<(ValueV, ValueV)>,
            ErrorKind,
        >(pairs.take(n)),
    decreases shape, 0nat, n,
{
    lemma_encode_values(pairs);
    let texts = key_texts(pairs);
    let members = zipped(texts, encode_values(pairs));
    if n == 0 {
        assert(pairs.take(0) =~= Seq::<(ValueV, ValueV)>::empty());
    } else {
        lemma_round_trip_record(shape, pairs, n - 1);
        let field = shape->Record_1@[n - 1];
        assert(pairs[n - 1].0 == ValueV::Str(field.0@));
        assert(texts[n - 1] == escape(field.0@));
        lemma_member_index_zipped(texts, encode_values(pairs), n - 1);
        lemma_round_trip(field.1, pairs[n - 1].1);
        assert(pairs.take(n) =~= pairs.take(n - 1).push(pairs[n - 1]));
    }
}

/// The nodes of the first `n` of the items are read back as those items.
pub proof fn lemma_round_trip_items(shape: Shape, item: Shape, items: Seq<ValueV>, n: int)
    requires
        is_items_shape(shape, item),
        0 <= n <= items.len(),
        forall|i: int| 0 <= i < items.len() ==> (#[trigger] items[i]).wf() && item.admits(items[i]),
    ensures
        decode_items(shape, encode_items(items).take(n)) == Ok::<Seq<ValueV>, ErrorKind>(
            items.take(n),
        ),
    decreases shape, 0nat, n,
{
    lemma_encode_items(items);
    let nodes = encode_items(items);
    if n == 0 {
        assert(items.take(0) =~= Seq::<ValueV>::empty());
    } else {
        lemma_round_trip_items(shape, item, items, n - 1);
        lemma_round_trip(item, items[n - 1]);
        assert(nodes.take(n).drop_last() =~= nodes.take(n - 1));
        assert(items.take(n) =~= items.take(n - 1).push(items[n - 1]));
    }
}

/// The envelope of a well-formed map is read back as the pairs of the map.
pub proof fn lemma_round_trip_pairs(
    shape: Shape,
    key: Shape,
    value: Shape,
    pairs: Seq<(ValueV, ValueV)>,
)
    requires
        is_map_shape(shape, key, value),
        distinct_keys(pairs),
        forall|i: int|
            0 <= i < pairs.len() ==> (#[trigger] pairs[i]).0.wf() && pairs[i].1.wf() && key.admits(
                pairs[i].0,
            ) && value.admits(pairs[i].1),
    ensures
        decode_pairs(
            shape,
            map_envelope(
                all_scalar_keys(pairs),
                key_texts(pairs),
                encode_keys(pairs),
                encode_values(pairs),
            ),
        ) == Ok::<Seq<(ValueV, ValueV)>, ErrorKind>(pairs),
    decreases shape, 1nat, 0nat,
{
    lemma_encode_keys(pairs);
    lemma_encode_values(pairs);
    if all_scalar_keys(pairs) {
        let texts = key_texts(pairs);
        let values = encode_values(pairs);
        lemma_key_texts_distinct(pairs);
        lemma_object_of_distinct(texts, values);
        let members = zipped(texts, values);
        if members.len() > 0 {
            assert(key_form(pairs[0].0) is Some);
            lemma_key_form_letter(pairs[0].0);
            assert(is_tag(cmap_tag()));
        }
        lemma_round_trip_members(shape, key, value, pairs, pairs.len() as int);
        assert(members.take(pairs.len() as int) =~= members);
        assert(pairs.take(pairs.len() as int) =~= pairs);
    } else {
        let flat = alternate(encode_keys(pairs), encode_values(pairs));
        lemma_round_trip_flat(shape, key, value, pairs, pairs.len() as int);
        assert(flat.take(2 * (pairs.len() as int)) =~= flat);
        assert(pairs.take(pairs.len() as int) =~= pairs);
    }
}

/// The first `n` members of the object of a map are read back as the first `n` pairs.
pub proof fn lemma_round_trip_members(
    shape: Shape,
    key: Shape,
    value: Shape,
    pairs: Seq<(ValueV, ValueV)>,
    n: int,
)
    requires
        is_map_shape(shape, key, value),
        all_scalar_keys(pairs),
        0 <= n <= pairs.len(),
        forall|i: int|
            0 <= i < pairs.len() ==> (#[trigger] pairs[i]).1.wf() && key.admits(pairs[i].0)
                && value.admits(pairs[i].1),
    ensures
        decode_members(shape, zipped(key_texts(pairs), encode_values(pairs)).take(n)) == Ok::<
            Seq<(ValueV, ValueV)>,
            ErrorKind,
        >(pairs.take(n)),
    decreases shape, 0nat, n,
{
    lemma_encode_values(pairs);
    let members = zipped(key_texts(pairs), encode_values(pairs));
    if n == 0 {
        assert(pairs.take(0) =~= Seq::<(ValueV, ValueV)>::empty());
    } else {
        lemma_round_trip_members(shape, key, value, pairs, n - 1);
        assert(key_form(pairs[n - 1].0) is Some);
        lemma_key_round_trip(key, pairs[n - 1].0);
        lemma_round_trip(value, pairs[n - 1].1);
        assert(members.take(n).drop_last() =~= members.take(n - 1));
        assert(members.take(n).last() == (key_form(pairs[n - 1].0)->0, encode(pairs[n - 1].1)));
        assert(pairs.take(n) =~= pairs.take(n - 1).push(pairs[n - 1]));
    }
}

/// The first `n` pairs of nodes under `~#cmap` are read back as the first `n` pairs.
pub proof fn lemma_round_trip_flat(
    shape: Shape,
    key: Shape,
    value: Shape,
    pairs: Seq<(ValueV, ValueV)>,
    n: int,
)
    requires
        is_map_shape(shape, key, value),
        0 <= n <= pairs.len(),
        forall|i: int|
            0 <= i < pairs.len() ==> (#[trigger] pairs[i]).0.wf() && pairs[i].1.wf() && key.admits(
                pairs[i].0,
            ) && value.admits(pairs[i].1),
    ensures
        decode_flat(shape, alternate(encode_keys(pairs), encode_values(pairs)).take(2 * n))
            == Ok::<Seq<(ValueV, ValueV)>, ErrorKind>(pairs.take(n)),
    decreases shape, 0nat, n,
{
    lemma_encode_keys(pairs);
    lemma_encode_values(pairs);
    let flat = alternate(encode_keys(pairs), encode_values(pairs));
    if n == 0 {
        assert(pairs.take(0) =~= Seq::<(ValueV, ValueV)>::empty());
    } else {
        lemma_round_trip_flat(shape, key, value, pairs, n - 1);
        lemma_round_trip(key, pairs[n - 1].0);
        lemma_round_trip(value, pairs[n - 1].1);
        let part = flat.take(2 * n);
        assert(part.take(part.len() - 2) =~= flat.take(2 * (n - 1)));
        assert(part[part.len() - 2] == encode(pairs[n - 1].0));
        assert(part[part.len() - 1] == encode(pairs[n - 1].1));
        assert(pairs.take(n) =~= pairs.take(n - 1).push(pairs[n - 1]));
    }
}

/// Round trip on the verbose surface: the verbose document of a well-formed value of a
/// shape, read as a document of that shape, gives the value back.
pub proof fn lemma_round_trip_document(shape: Shape, v: ValueV)
    requires
        v.wf(),
        shape.admits(v),
    ensures
        decode_document(shape, encode_document(v)) == Ok::<ValueV, ErrorKind>(v),
{
    lemma_round_trip(shape, v);
    lemma_document_root(v);
}

/// The root of a verbose document is a composite node, and is the quoting envelope
/// exactly where the value is a scalar.
pub proof fn lemma_document_root(v: ValueV)
    ensures
        encode_document(v).is_composite(),
        v.kind() == TransitType::Scalar ==> encode_document(v) == tagged(quote_tag(), encode(v))
            && !encode(v).is_composite(),
        v.kind() == TransitType::Composite ==> encode_document(v) == encode(v) && !(untag(
            quote_tag(),
            encode(v),
        ) matches Some(payload) && !payload.is_composite()),
{
    match v {
        ValueV::MapOf(pairs) => {
            if all_scalar_keys(pairs) && pairs.len() > 0 {
                lemma_single_member(pairs);
            }
        },
        _ => {},
    }
}

/// The object of a map with scalar keys has no tag as the key of its first member.
pub proof fn lemma_single_member(pairs: Seq<(ValueV, ValueV)>)
    requires
        all_scalar_keys(pairs),
        pairs.len() > 0,
    ensures
        object_of(key_texts(pairs), encode_values(pairs)).len() > 0,
        !is_tag(object_of(key_texts(pairs), encode_values(pairs))[0].0),
    decreases pairs.len(),
{
    lemma_encode_values(pairs);
    let texts = key_texts(pairs);
    let values = encode_values(pairs);
    let front = object_of(texts.drop_last(), values.drop_last());
    lemma_member_from(front, texts.last(), 0);
    if pairs.len() == 1 {
        assert(front =~= Seq::empty());
        assert(key_form(pairs[0].0) is Some);
        lemma_key_form_letter(pairs[0].0);
    } else {
        let fewer = pairs.drop_last();
        assert(key_texts(fewer) =~= texts.drop_last());
        assert(encode_values(fewer) =~= values.drop_last()) by {
            lemma_encode_values(fewer);
        }
        assert forall|i: int|
            0 <= i < fewer.len() implies key_form((#[trigger] fewer[i]).0) is Some by {
            assert(fewer[i] == pairs[i]);
        }
        lemma_single_member(fewer);
        if member_index(front, texts.last()) == Some(0int) {
            assert(key_form(pairs[pairs.len() - 1].0) is Some);
            lemma_key_form_letter(pairs[pairs.len() - 1].0);
        }
    }
}

/// Round trip of a typed value on the verbose surface: the verbose document of a value of
/// a type with a shape of its own, read as a document of that shape, gives the logical
/// value of what was written.
pub proof fn lemma_round_trip_typed<T: OwnShape>(x: T)
    ensures
        decode_document(T::spec_shape(), encode_document(x.transit_value())) == Ok::<
            ValueV,
            ErrorKind,
        >(x.transit_value()),
{
    x.lemma_own_shape();
    lemma_round_trip_document(T::spec_shape(), x.transit_value());
}

} // verus!
