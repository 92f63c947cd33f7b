//! What each shape reads from a host node: where a value stands, and where a key stands.

use crate::de::json_verbose::JsonDeserializer;
use crate::de::{variant_from, Error, ErrorKind, OwnShape, Shape, TransitDeserialize};
use crate::json::{
    array_view, find_member, lemma_array_view, lemma_object_view, member_index, object_view, Json,
    JsonV,
};
use crate::ser::impls::values_of;
use crate::ser::TransitSerialize;
use crate::text::{
    chars_vec, parse_decimal, read_decimal, same_text, starts_with, string_of, Decimal,
};
use crate::tilde::{
    cmap_tag, cmap_text, escape, escaped, false_code, instant_prefix, int_prefix, null_code,
    set_tag, true_code, unescape, unescaped,
};
use crate::value::{
    items_view, lemma_items_view, lemma_items_view_push, lemma_pairs_view_push, pairs_view, Value,
    ValueV,
};
use vstd::prelude::*;

verus! {

/// The integer that the key form `w` writes, for a target of 32 bits where `narrow`, else
/// of 64 bits.
pub open spec fn decode_int_key(w: Seq<char>, narrow: bool) -> Result<ValueV, ErrorKind> {
    if !starts_with(w, int_prefix()) {
        Err(ErrorKind::DoNotMatch)
    } else {
        match parse_decimal(w.skip(2)) {
            None => Err(ErrorKind::DoNotMatch),
            Some(n) => if i64::MIN <= n <= i64::MAX && (!narrow || i32::MIN <= n <= i32::MAX) {
                Ok(ValueV::Int(n as i64))
            } else {
                Err(ErrorKind::ItWontFit)
            },
        }
    }
}

/// The plain text that the wire text `w` stands for.
pub open spec fn decode_text(w: Seq<char>) -> Result<ValueV, ErrorKind> {
    match unescape(w) {
        Some(s) => Ok(ValueV::Str(s)),
        None => Err(ErrorKind::DoNotMatch),
    }
}

/// The instant that the wire text `w` stands for.
pub open spec fn decode_instant(w: Seq<char>) -> Result<ValueV, ErrorKind> {
    if starts_with(w, instant_prefix()) {
        Ok(ValueV::Instant(w.skip(2)))
    } else {
        Err(ErrorKind::DoNotMatch)
    }
}

/// What the key text `w` holds, read as a value of the shape `shape`. No composite shape
/// can stand where a key stands.
pub open spec fn decode_key(shape: Shape, w: Seq<char>) -> Result<ValueV, ErrorKind>
    decreases shape,
{
    match shape {
        Shape::Null => if w == null_code() {
            Ok(ValueV::Null)
        } else {
            Err(ErrorKind::DoNotMatch)
        },
        Shape::Bool => if w == true_code() {
            Ok(ValueV::Bool(true))
        } else if w == false_code() {
            Ok(ValueV::Bool(false))
        } else {
            Err(ErrorKind::DoNotMatch)
        },
        Shape::Int => decode_int_key(w, false),
        Shape::Int32 => decode_int_key(w, true),
        Shape::Str => decode_text(w),
        Shape::Instant => decode_instant(w),
        Shape::Optional(inner) => if w == null_code() {
            Ok(ValueV::Null)
        } else {
            decode_key(*inner, w)
        },
        _ => Err(ErrorKind::CannotBeKey),
    }
}

/// The payload of the envelope with the one member `tag`, if `j` is that envelope.
pub open spec fn untag(tag: Seq<char>, j: JsonV) -> Option<JsonV> {
    match j {
        JsonV::Object(members) => if members.len() == 1 && members[0].0 == tag {
            Some(members[0].1)
        } else {
            None
        },
        _ => None,
    }
}

/// What the node `j` holds, read as a value of the shape `shape`.
pub open spec fn decode(shape: Shape, j: JsonV) -> Result<ValueV, ErrorKind>
    decreases shape, 2nat, 0nat,
{
    match shape {
        Shape::Null => if j is Null {
            Ok(ValueV::Null)
        } else {
            Err(ErrorKind::DoNotMatch)
        },
        Shape::Bool => match j {
            JsonV::Bool(b) => Ok(ValueV::Bool(b)),
            _ => Err(ErrorKind::DoNotMatch),
        },
        Shape::Int => match j {
            JsonV::Int(n) => Ok(ValueV::Int(n)),
            _ => Err(ErrorKind::DoNotMatch),
        },
        Shape::Int32 => match j {
            JsonV::Int(n) => if i32::MIN <= n <= i32::MAX {
                Ok(ValueV::Int(n))
            } else {
                Err(ErrorKind::ItWontFit)
            },
            _ => Err(ErrorKind::DoNotMatch),
        },
        Shape::Str => match j {
            JsonV::Str(w) => decode_text(w),
            _ => Err(ErrorKind::DoNotMatch),
        },
        Shape::Instant => match j {
            JsonV::Str(w) => decode_instant(w),
            _ => Err(ErrorKind::DoNotMatch),
        },
        Shape::Optional(inner) => if j is Null {
            Ok(ValueV::Null)
        } else {
            decode(*inner, j)
        },
        Shape::List(_) => match j {
            JsonV::Array(items) => match decode_items(shape, items) {
                Ok(values) => Ok(ValueV::List(values)),
                Err(e) => Err(e),
            },
            _ => Err(ErrorKind::DoNotMatch),
        },
        Shape::SetOf(_) => match untag(set_tag(), j) {
            Some(JsonV::Array(items)) => match decode_items(shape, items) {
                Ok(values) => Ok(ValueV::SetOf(values)),
                Err(e) => Err(e),
            },
            _ => Err(ErrorKind::DoNotMatch),
        },
        Shape::MapOf(_, _) => match decode_pairs(shape, j) {
            Ok(pairs) => Ok(ValueV::MapOf(pairs)),
            Err(e) => Err(e),
        },
        Shape::TaggedArray(tag, _) => match untag(tag@, j) {
            Some(JsonV::Array(items)) => match decode_items(shape, items) {
                Ok(values) => Ok(ValueV::TaggedArray(tag@, values)),
                Err(e) => Err(e),
            },
            _ => Err(ErrorKind::DoNotMatch),
        },
        Shape::TaggedMap(tag, _, _) => match untag(tag@, j) {
            Some(payload) => match decode_pairs(shape, payload) {
                Ok(pairs) => Ok(ValueV::TaggedMap(tag@, pairs)),
                Err(e) => Err(e),
            },
            None => Err(ErrorKind::DoNotMatch),
        },
        Shape::Tuple(tag, shapes) => match untag(tag@, j) {
            Some(JsonV::Array(items)) => if items.len() == shapes@.len() {
                match decode_tuple(shape, items, items.len() as int) {
                    Ok(values) => Ok(ValueV::TaggedArray(tag@, values)),
                    Err(e) => Err(e),
                }
            } else {
                Err(ErrorKind::DoNotMatch)
            },
            _ => Err(ErrorKind::DoNotMatch),
        },
        Shape::Record(tag, fields) => match untag(tag@, j) {
            Some(JsonV::Object(members)) => if members.len() == fields@.len() {
                match decode_record(shape, members, members.len() as int) {
                    Ok(pairs) => Ok(ValueV::TaggedMap(tag@, pairs)),
                    Err(e) => Err(e),
                }
            } else {
                Err(ErrorKind::DoNotMatch)
            },
            _ => Err(ErrorKind::DoNotMatch),
        },
        Shape::OneOf(variants) => match node_tag(j) {
            Some(tag) => match variant_from(variants@, tag, 0) {
                Some(at) => if 0 <= at < variants@.len() {
                    decode(variants@[at], j)
                } else {
                    Err(ErrorKind::DoNotMatch)
                },
                None => Err(ErrorKind::DoNotMatch),
            },
            None => Err(ErrorKind::DoNotMatch),
        },
    }
}

/// The tag of a node that is the envelope of a tagged composite: the key of an object with
/// one member.
pub open spec fn node_tag(j: JsonV) -> Option<Seq<char>> {
    match j {
        JsonV::Object(members) => if members.len() == 1 {
            Some(members[0].0)
        } else {
            None
        },
        _ => None,
    }
}

/// What the first `n` of the nodes `items` hold, each read as the item at its place in a
/// tuple of the shape `shape`. The first that cannot be read decides the error.
pub open spec fn decode_tuple(shape: Shape, items: Seq<JsonV>, n: int) -> Result<
    Seq<ValueV>,
    ErrorKind,
>
    decreases shape, 0nat, n,
{
    match shape {
        Shape::Tuple(_, shapes) => {
            if n <= 0 || n > shapes@.len() {
                Ok(Seq::empty())
            } else {
                match decode_tuple(shape, items, n - 1) {
                    Err(e) => Err(e),
                    Ok(values) => match decode(shapes@[n - 1], items[n - 1]) {
                        Err(e) => Err(e),
                        Ok(value) => Ok(values.push(value)),
                    },
                }
            }
        },
        _ => Err(ErrorKind::DoNotMatch),
    }
}

/// What the members `members` hold for the first `n` fields of a record of the shape
/// `shape`: each field is looked up under its name, wherever the member stands. The first
/// field that is missing or cannot be read decides the error.
pub open spec fn decode_record(shape: Shape, members: Seq<(Seq<char>, JsonV)>, n: int) -> Result<
    Seq<(ValueV, ValueV)>,
    ErrorKind,
>
    decreases shape, 0nat, n,
{
    match shape {
        Shape::Record(_, fields) => {
            if n <= 0 || n > fields@.len() {
                Ok(Seq::empty())
            } else {
                match decode_record(shape, members, n - 1) {
                    Err(e) => Err(e),
                    Ok(pairs) => match member_index(members, escape(fields@[n - 1].0@)) {
                        None => Err(ErrorKind::DoNotMatch),
                        Some(at) => match decode(fields@[n - 1].1, members[at].1) {
                            Err(e) => Err(e),
                            Ok(value) => Ok(pairs.push((ValueV::Str(fields@[n - 1].0@), value))),
                        },
                    },
                }
            }
        },
        _ => Err(ErrorKind::DoNotMatch),
    }
}

/// What the nodes `items` hold, each read as an item of the shape `shape`, which is one
/// of a list, a set or a tagged array. The first item that cannot be read decides the error.
pub open spec fn decode_items(shape: Shape, items: Seq<JsonV>) -> Result<Seq<ValueV>, ErrorKind>
    decreases shape, 0nat, items.len(),
{
    match shape {
        Shape::List(inner) | Shape::SetOf(inner) | Shape::TaggedArray(_, inner) => {
            if items.len() == 0 {
                Ok(Seq::empty())
            } else {
                match decode_items(shape, items.drop_last()) {
                    Err(e) => Err(e),
                    Ok(values) => match decode(*inner, items.last()) {
                        Err(e) => Err(e),
                        Ok(value) => Ok(values.push(value)),
                    },
                }
            }
        },
        _ => Err(ErrorKind::DoNotMatch),
    }
}

/// What the node `j` holds, read as the pairs of a map of the shape `shape`. An object
/// whose first key is `~#cmap` holds keys and values in turn in the array under that key;
/// any other object holds each pair as one member, the key in its key form.
pub open spec fn decode_pairs(shape: Shape, j: JsonV) -> Result<Seq<(ValueV, ValueV)>, ErrorKind>
    decreases shape, 1nat, 0nat,
{
    match j {
        JsonV::Object(members) => if members.len() > 0 && members[0].0 == cmap_tag() {
            match members[0].1 {
                JsonV::Array(flat) => if members.len() == 1 && flat.len() % 2 == 0 {
                    decode_flat(shape, flat)
                } else {
                    Err(ErrorKind::DoNotMatch)
                },
                _ => Err(ErrorKind::DoNotMatch),
            }
        } else {
            decode_members(shape, members)
        },
        _ => Err(ErrorKind::DoNotMatch),
    }
}

/// The error of a map whose member has a key text that the shape of the keys cannot read.
/// A shape that can stand as no key at all has its maps in the `~#cmap` envelope, so that
/// an object with such a member is an envelope with an unexpected tag: the node does not
/// match. Any other error of the key is the error of the map.
pub open spec fn member_key_error(e: ErrorKind) -> ErrorKind {
    if e == ErrorKind::CannotBeKey {
        ErrorKind::DoNotMatch
    } else {
        e
    }
}

/// What the members of an object hold, each read as one pair of a map of the shape
/// `shape`: the key from its key form, then the value. The first that cannot be read
/// decides the error; a key of a shape that cannot stand as a key makes the node one that
/// does not match.
pub open spec fn decode_members(shape: Shape, members: Seq<(Seq<char>, JsonV)>) -> Result<
    Seq<(ValueV, ValueV)>,
    ErrorKind,
>
    decreases shape, 0nat, members.len(),
{
    match shape {
        Shape::MapOf(key, value) | Shape::TaggedMap(_, key, value) => {
            if members.len() == 0 {
                Ok(Seq::empty())
            } else {
                match decode_members(shape, members.drop_last()) {
                    Err(e) => Err(e),
                    Ok(pairs) => match decode_key(*key, members.last().0) {
                        Err(e) => Err(member_key_error(e)),
                        Ok(k) => match decode(*value, members.last().1) {
                            Err(e) => Err(e),
                            Ok(v) => Ok(pairs.push((k, v))),
                        },
                    },
                }
            }
        },
        _ => Err(ErrorKind::DoNotMatch),
    }
}

/// What the nodes `flat` hold, read two by two as the pairs of a map of the shape `shape`:
/// a key as a value, then its value. The first that cannot be read decides the error.
pub open spec fn decode_flat(shape: Shape, flat: Seq<JsonV>) -> Result<
    Seq<(ValueV, ValueV)>,
    ErrorKind,
>
    decreases shape, 0nat, flat.len(),
{
    match shape {
        Shape::MapOf(key, value) | Shape::TaggedMap(_, key, value) => {
            if flat.len() < 2 {
                Ok(Seq::empty())
            } else {
                match decode_flat(shape, flat.take(flat.len() - 2)) {
                    Err(e) => Err(e),
                    Ok(pairs) => match decode(*key, flat[flat.len() - 2]) {
                        Err(e) => Err(e),
                        Ok(k) => match decode(*value, flat[flat.len() - 1]) {
                            Err(e) => Err(e),
                            Ok(v) => Ok(pairs.push((k, v))),
                        },
                    },
                }
            }
        },
        _ => Err(ErrorKind::DoNotMatch),
    }
}

/// Once a prefix of the items cannot be read, the items cannot, and for the same reason.
pub proof fn lemma_decode_items_prefix(shape: Shape, items: Seq<JsonV>, n: int)
    requires
        0 <= n <= items.len(),
        decode_items(shape, items.take(n)) is Err,
    ensures
        decode_items(shape, items) == decode_items(shape, items.take(n)),
    decreases items.len() - n,
{
    if n < items.len() {
        assert(items.take(n + 1).drop_last() =~= items.take(n));
        lemma_decode_items_prefix(shape, items, n + 1);
    } else {
        assert(items.take(n) =~= items);
    }
}

/// Once a prefix of the members cannot be read, the members cannot, and for the same
/// reason.
pub proof fn lemma_decode_members_prefix(shape: Shape, members: Seq<(Seq<char>, JsonV)>, n: int)
    requires
        0 <= n <= members.len(),
        decode_members(shape, members.take(n)) is Err,
    ensures
        decode_members(shape, members) == decode_members(shape, members.take(n)),
    decreases members.len() - n,
{
    if n < members.len() {
        assert(members.take(n + 1).drop_last() =~= members.take(n));
        lemma_decode_members_prefix(shape, members, n + 1);
    } else {
        assert(members.take(n) =~= members);
    }
}

/// Once a prefix of whole pairs cannot be read, the nodes cannot, and for the same reason.
pub proof fn lemma_decode_flat_prefix(shape: Shape, flat: Seq<JsonV>, n: int)
    requires
        0 <= n,
        2 * n <= flat.len(),
        flat.len() % 2 == 0,
        decode_flat(shape, flat.take(2 * n)) is Err,
    ensures
        decode_flat(shape, flat) == decode_flat(shape, flat.take(2 * n)),
    decreases flat.len() - 2 * n,
{
    if 2 * n < flat.len() {
        let longer = flat.take(2 * n + 2);
        assert(longer.take(longer.len() - 2) =~= flat.take(2 * n));
        lemma_decode_flat_prefix(shape, flat, n + 1);
    } else {
        assert(flat.take(2 * n) =~= flat);
    }
}

/// Reads the key text `text` as an integer.
fn deserialize_int_key(text: &str, narrow: bool) -> (r: Result<Value, Error>)
    ensures
        match r {
            Ok(v) => decode_int_key(text@, narrow) == Ok::<ValueV, ErrorKind>(v@),
            Err(e) => decode_int_key(text@, narrow) == Err::<ValueV, ErrorKind>(e.kind()),
        },
{
    let chars = chars_vec(text);
    if chars.len() < 2 || chars[0] != '~' || chars[1] != 'i' {
        assert(!starts_with(text@, int_prefix())) by {
            if text@.len() >= 2 {
                assert(text@.take(2)[0] == text@[0] && text@.take(2)[1] == text@[1]);
            }
        }
        return Err(Error::DoNotMatch(String::from_str("not an integer key")));
    }
    assert(text@.take(2) =~= int_prefix());
    match read_decimal(&chars, 2) {
        Decimal::Fits(n) => {
            if narrow && (n < -2147483648 || n > 2147483647) {
                Err(Error::ItWontFit(String::from_str("cannot fit in 32 bits")))
            } else {
                Ok(Value::Int(n))
            }
        },
        Decimal::TooLarge => Err(Error::ItWontFit(String::from_str("cannot fit in 64 bits"))),
        Decimal::Malformed => Err(Error::DoNotMatch(String::from_str("not an integer key"))),
    }
}

/// Reads the wire text `text` as plain text.
fn deserialize_text(text: &str) -> (r: Result<Value, Error>)
    ensures
        match r {
            Ok(v) => decode_text(text@) == Ok::<ValueV, ErrorKind>(v@),
            Err(e) => decode_text(text@) == Err::<ValueV, ErrorKind>(e.kind()),
        },
{
    match unescaped(text) {
        Some(s) => Ok(Value::Str(s)),
        None => Err(Error::DoNotMatch(String::from_str("a code where plain text is expected"))),
    }
}

/// Reads the wire text `text` as an instant.
fn deserialize_instant(text: &str) -> (r: Result<Value, Error>)
    ensures
        match r {
            Ok(v) => decode_instant(text@) == Ok::<ValueV, ErrorKind>(v@),
            Err(e) => decode_instant(text@) == Err::<ValueV, ErrorKind>(e.kind()),
        },
{
    let chars = chars_vec(text);
    if chars.len() < 2 || chars[0] != '~' || chars[1] != 't' {
        assert(!starts_with(text@, instant_prefix())) by {
            if text@.len() >= 2 {
                assert(text@.take(2)[0] == text@[0] && text@.take(2)[1] == text@[1]);
            }
        }
        return Err(Error::DoNotMatch(String::from_str("not an instant")));
    }
    assert(text@.take(2) =~= instant_prefix());
    let t = string_of(&chars, 2, chars.len());
    assert(t@ =~= text@.skip(2));
    Ok(Value::Instant(t))
}

/// Reads the key text `text` as a value of the shape `shape`.
pub fn deserialize_key(shape: &Shape, text: &str) -> (r: Result<Value, Error>)
    ensures
        match r {
            Ok(v) => decode_key(*shape, text@) == Ok::<ValueV, ErrorKind>(v@),
            Err(e) => decode_key(*shape, text@) == Err::<ValueV, ErrorKind>(e.kind()),
        },
    decreases shape,
{
    proof {
        reveal_strlit("~_");
        reveal_strlit("~?t");
        reveal_strlit("~?f");
        assert("~_"@ =~= null_code());
        assert("~?t"@ =~= true_code());
        assert("~?f"@ =~= false_code());
    }
    match shape {
        Shape::Null => {
            if same_text(text, "~_") {
                Ok(Value::Null)
            } else {
                Err(Error::DoNotMatch(String::from_str("not the null key")))
            }
        },
        Shape::Bool => {
            if same_text(text, "~?t") {
                Ok(Value::Bool(true))
            } else if same_text(text, "~?f") {
                Ok(Value::Bool(false))
            } else {
                Err(Error::DoNotMatch(String::from_str("wrong bool key")))
            }
        },
        Shape::Int => deserialize_int_key(text, false),
        Shape::Int32 => deserialize_int_key(text, true),
        Shape::Str => deserialize_text(text),
        Shape::Instant => deserialize_instant(text),
        Shape::Optional(inner) => {
            if same_text(text, "~_") {
                Ok(Value::Null)
            } else {
                deserialize_key(inner, text)
            }
        },
        Shape::List(_) => Err(Error::CannotBeKey("a list cannot be deserialized as key")),
        Shape::SetOf(_) => Err(Error::CannotBeKey("a set cannot be deserialized as key")),
        Shape::MapOf(_, _) => Err(Error::CannotBeKey("a map cannot be deserialized as key")),
        Shape::TaggedArray(_, _) => Err(
            Error::CannotBeKey("a tagged array cannot be deserialized as key"),
        ),
        Shape::TaggedMap(_, _, _) => Err(
            Error::CannotBeKey("a tagged map cannot be deserialized as key"),
        ),
        Shape::Tuple(_, _) => Err(Error::CannotBeKey("a tuple cannot be deserialized as key")),
        Shape::Record(_, _) => Err(Error::CannotBeKey("a record cannot be deserialized as key")),
        Shape::OneOf(_) => Err(Error::CannotBeKey("an enum cannot be deserialized as key")),
    }
}

/// The payload of the envelope with the one member `tag`, if `input` is that envelope.
fn untagged<'a>(deserializer: &JsonDeserializer, tag: &str, input: &'a Json) -> (r: Result<
    &'a Json,
    Error,
>)
    ensures
        match r {
            Ok(payload) => untag(tag@, input@) == Some(payload@),
            Err(e) => untag(tag@, input@) is None && e.kind() == ErrorKind::DoNotMatch,
        },
{
    match deserializer.deserialize_map(input) {
        Ok((members, _)) => {
            proof {
                lemma_object_view(members@);
            }
            if members.len() == 1 && same_text(members[0].0.as_str(), tag) {
                Ok(&members[0].1)
            } else {
                Err(Error::DoNotMatch(String::from_str("the tag is not the one expected")))
            }
        },
        Err(e) => Err(e),
    }
}

/// Reads the node `input` as a value of the shape `shape`.
pub fn deserialize(shape: &Shape, deserializer: &JsonDeserializer, input: &Json) -> (r: Result<
    Value,
    Error,
>)
    ensures
        match r {
            Ok(v) => decode(*shape, input@) == Ok::<ValueV, ErrorKind>(v@),
            Err(e) => decode(*shape, input@) == Err::<ValueV, ErrorKind>(e.kind()),
        },
    decreases shape, 2nat, 0nat,
{
    match shape {
        Shape::Null => match input {
            Json::Null => Ok(Value::Null),
            _ => Err(Error::DoNotMatch(String::from_str("not null"))),
        },
        Shape::Bool => match deserializer.deserialize_bool(input) {
            Ok(b) => Ok(Value::Bool(b)),
            Err(e) => Err(e),
        },
        Shape::Int => match deserializer.deserialize_int(input) {
            Ok(n) => Ok(Value::Int(n)),
            Err(e) => Err(e),
        },
        Shape::Int32 => match deserializer.deserialize_int(input) {
            Ok(n) => {
                if n < -2147483648 || n > 2147483647 {
                    Err(Error::ItWontFit(String::from_str("cannot fit in 32 bits")))
                } else {
                    Ok(Value::Int(n))
                }
            },
            Err(e) => Err(e),
        },
        Shape::Str => match deserializer.deserialize_string(input) {
            Ok(s) => deserialize_text(s.as_str()),
            Err(e) => Err(e),
        },
        Shape::Instant => match deserializer.deserialize_string(input) {
            Ok(s) => deserialize_instant(s.as_str()),
            Err(e) => Err(e),
        },
        Shape::Optional(inner) => match input {
            Json::Null => Ok(Value::Null),
            _ => deserialize(inner, deserializer, input),
        },
        Shape::List(_) => match deserializer.deserialize_array(input) {
            Ok((items, _)) => match deserialize_items(shape, deserializer, items) {
                Ok(values) => Ok(Value::List(values)),
                Err(e) => Err(e),
            },
            Err(e) => Err(e),
        },
        Shape::SetOf(_) => {
            proof {
                reveal_strlit("~#set");
                assert("~#set"@ =~= set_tag());
            }
            match untagged(deserializer, "~#set", input) {
                Ok(payload) => match deserializer.deserialize_array(payload) {
                    Ok((items, _)) => match deserialize_items(shape, deserializer, items) {
                        Ok(values) => Ok(Value::SetOf(values)),
                        Err(e) => Err(e),
                    },
                    Err(e) => Err(e),
                },
                Err(e) => Err(e),
            }
        },
        Shape::MapOf(_, _) => match deserialize_pairs(shape, deserializer, input) {
            Ok(pairs) => Ok(Value::MapOf(pairs)),
            Err(e) => Err(e),
        },
        Shape::TaggedArray(tag, _) => match untagged(deserializer, tag.as_str(), input) {
            Ok(payload) => match deserializer.deserialize_array(payload) {
                Ok((items, _)) => match deserialize_items(shape, deserializer, items) {
                    Ok(values) => Ok(Value::TaggedArray(tag.clone(), values)),
                    Err(e) => Err(e),
                },
                Err(e) => Err(e),
            },
            Err(e) => Err(e),
        },
        Shape::TaggedMap(tag, _, _) => match untagged(deserializer, tag.as_str(), input) {
            Ok(payload) => match deserialize_pairs(shape, deserializer, payload) {
                Ok(pairs) => Ok(Value::TaggedMap(tag.clone(), pairs)),
                Err(e) => Err(e),
            },
            Err(e) => Err(e),
        },
        Shape::Tuple(tag, shapes) => match untagged(deserializer, tag.as_str(), input) {
            Ok(payload) => match deserializer.deserialize_array(payload) {
                Ok((items, _)) => {
                    proof {
                        lemma_array_view(items@);
                    }
                    if items.len() != shapes.len() {
                        return Err(
                            Error::DoNotMatch(
                                String::from_str("not as many items as the tuple has"),
                            ),
                        );
                    }
                    match deserialize_tuple(shape, deserializer, items) {
                        Ok(values) => Ok(Value::TaggedArray(tag.clone(), values)),
                        Err(e) => Err(e),
                    }
                },
                Err(e) => Err(e),
            },
            Err(e) => Err(e),
        },
        Shape::Record(tag, fields) => match untagged(deserializer, tag.as_str(), input) {
            Ok(payload) => match deserializer.deserialize_map(payload) {
                Ok((members, _)) => {
                    proof {
                        lemma_object_view(members@);
                    }
                    if members.len() != fields.len() {
                        return Err(
                            Error::DoNotMatch(
                                String::from_str("not as many members as the record has fields"),
                            ),
                        );
                    }
                    match deserialize_record(shape, deserializer, members) {
                        Ok(pairs) => Ok(Value::TaggedMap(tag.clone(), pairs)),
                        Err(e) => Err(e),
                    }
                },
                Err(e) => Err(e),
            },
            Err(e) => Err(e),
        },
        Shape::OneOf(variants) => match deserializer.deserialize_map(input) {
            Ok((members, _)) => {
                proof {
                    lemma_object_view(members@);
                }
                if members.len() != 1 {
                    return Err(Error::DoNotMatch(String::from_str("not a tagged composite")));
                }
                match find_variant(variants, members[0].0.as_str()) {
                    Some(at) => {
                        assert(decreases_to!(shape => shape->OneOf_0@[at as int]));
                        deserialize(&variants[at], deserializer, input)
                    },
                    None => Err(Error::DoNotMatch(String::from_str("no variant has this tag"))),
                }
            },
            Err(e) => Err(e),
        },
    }
}

/// Where the first shape with the tag `tag` stands among `variants`, if there is one.
pub fn find_variant(variants: &Vec<Shape>, tag: &str) -> (at: Option<usize>)
    ensures
        match at {
            Some(at) => variant_from(variants@, tag@, 0) == Some(at as int) && at
                < variants.len(),
            None => variant_from(variants@, tag@, 0) is None,
        },
{
    let mut i: usize = 0;
    while i < variants.len()
        invariant
            i <= variants.len(),
            variant_from(variants@, tag@, 0) == variant_from(variants@, tag@, i as int),
        decreases variants.len() - i,
    {
        match variants[i].tag_text() {
            Some(t) => {
                if same_text(t.as_str(), tag) {
                    return Some(i);
                }
            },
            None => {},
        }
        i += 1;
    }
    None
}

/// Once the first `n` items of a tuple cannot be read, no more of them can, and for the
/// same reason.
pub proof fn lemma_decode_tuple_prefix(shape: Shape, items: Seq<JsonV>, n: int, m: int)
    requires
        0 <= n <= m,
        shape matches Shape::Tuple(_, shapes) && m <= shapes@.len(),
        decode_tuple(shape, items, n) is Err,
    ensures
        decode_tuple(shape, items, m) == decode_tuple(shape, items, n),
    decreases m - n,
{
    if n < m {
        lemma_decode_tuple_prefix(shape, items, n, m - 1);
    }
}

/// Once the first `n` fields of a record cannot be read, no more of them can, and for the
/// same reason.
pub proof fn lemma_decode_record_prefix(
    shape: Shape,
    members: Seq<(Seq<char>, JsonV)>,
    n: int,
    m: int,
)
    requires
        0 <= n <= m,
        shape matches Shape::Record(_, fields) && m <= fields@.len(),
        decode_record(shape, members, n) is Err,
    ensures
        decode_record(shape, members, m) == decode_record(shape, members, n),
    decreases m - n,
{
    if n < m {
        lemma_decode_record_prefix(shape, members, n, m - 1);
    }
}

/// Reads `items` as the items of a tuple of the shape `shape`, each by the shape at its
/// place.
fn deserialize_tuple(shape: &Shape, deserializer: &JsonDeserializer, items: &Vec<Json>) -> (r:
    Result<Vec<Value>, Error>)
    requires
        shape matches Shape::Tuple(_, shapes) && shapes@.len() == items@.len(),
    ensures
        match r {
            Ok(values) => decode_tuple(*shape, array_view(items@), items@.len() as int) == Ok::<
                Seq<ValueV>,
                ErrorKind,
            >(items_view(values@)),
            Err(e) => decode_tuple(*shape, array_view(items@), items@.len() as int) == Err::<
                Seq<ValueV>,
                ErrorKind,
            >(e.kind()),
        },
    decreases shape, 0nat, 0nat,
{
    let ghost nodes = array_view(items@);
    match shape {
        Shape::Tuple(_, shapes) => {
            let mut values: Vec<Value> = Vec::with_capacity(items.len());
            proof {
                lemma_array_view(items@);
                assert(items_view(values@) =~= Seq::<ValueV>::empty());
            }
            let mut i: usize = 0;
            while i < items.len()
                invariant
                    i <= items.len(),
                    shapes@.len() == items@.len(),
                    *shape matches Shape::Tuple(_, x) && x == shapes,
                    nodes == array_view(items@),
                    nodes.len() == items@.len(),
                    forall|j: int| 0 <= j < items@.len() ==> (#[trigger] nodes[j]) == items@[j]@,
                    decode_tuple(*shape, nodes, i as int) == Ok::<Seq<ValueV>, ErrorKind>(
                        items_view(values@),
                    ),
                decreases items.len() - i,
            {
                assert(decreases_to!(shape => shape->Tuple_1@[i as int]));
                match deserialize(&shapes[i], deserializer, &items[i]) {
                    Ok(value) => {
                        proof {
                            lemma_items_view_push(values@, value);
                        }
                        values.push(value);
                    },
                    Err(e) => {
                        proof {
                            lemma_decode_tuple_prefix(*shape, nodes, i + 1, items@.len() as int);
                        }
                        return Err(e);
                    },
                }
                i += 1;
            }
            Ok(values)
        },
        _ => Err(Error::DoNotMatch(String::from_str("not the shape of a tuple"))),
    }
}

/// Reads `members` as the fields of a record of the shape `shape`, each looked up under
/// its name.
fn deserialize_record(
    shape: &Shape,
    deserializer: &JsonDeserializer,
    members: &Vec<(String, Json)>,
) -> (r: Result<Vec<(Value, Value)>, Error>)
    requires
        shape is Record,
    ensures
        match r {
            Ok(pairs) => decode_record(
                *shape,
                object_view(members@),
                shape->Record_1@.len() as int,
            ) == Ok::<Seq<(ValueV, ValueV)>, ErrorKind>(pairs_view(pairs@)),
            Err(e) => decode_record(*shape, object_view(members@), shape->Record_1@.len() as int)
                == Err::<Seq<(ValueV, ValueV)>, ErrorKind>(e.kind()),
        },
    decreases shape, 0nat, 0nat,
{
    let ghost nodes = object_view(members@);
    match shape {
        Shape::Record(_, fields) => {
            let mut pairs: Vec<(Value, Value)> = Vec::with_capacity(fields.len());
            proof {
                lemma_object_view(members@);
                assert(pairs_view(pairs@) =~= Seq::<(ValueV, ValueV)>::empty());
            }
            let mut i: usize = 0;
            while i < fields.len()
                invariant
                    i <= fields.len(),
                    *shape matches Shape::Record(_, x) && x == fields,
                    nodes == object_view(members@),
                    nodes.len() == members@.len(),
                    forall|j: int|
                        0 <= j < members@.len() ==> (#[trigger] nodes[j]) == (
                            members@[j].0@,
                            members@[j].1@,
                        ),
                    decode_record(*shape, nodes, i as int) == Ok::<
                        Seq<(ValueV, ValueV)>,
                        ErrorKind,
                    >(pairs_view(pairs@)),
                decreases fields.len() - i,
            {
                assert(decreases_to!(shape => shape->Record_1@[i as int].1));
                let key = escaped(fields[i].0.as_str());
                let value = match find_member(members, key.as_str()) {
                    Some(at) => match deserialize(&fields[i].1, deserializer, &members[at].1) {
                        Ok(value) => value,
                        Err(e) => {
                            proof {
                                lemma_decode_record_prefix(
                                    *shape,
                                    nodes,
                                    i + 1,
                                    fields@.len() as int,
                                );
                            }
                            return Err(e);
                        },
                    },
                    None => {
                        proof {
                            lemma_decode_record_prefix(*shape, nodes, i + 1, fields@.len() as int);
                        }
                        return Err(Error::DoNotMatch(String::from_str("a field is missing")));
                    },
                };
                let pair = (Value::Str(fields[i].0.clone()), value);
                proof {
                    lemma_pairs_view_push(pairs@, pair);
                }
                pairs.push(pair);
                i += 1;
            }
            Ok(pairs)
        },
        _ => Err(Error::DoNotMatch(String::from_str("not the shape of a record"))),
    }
}

/// Reads `items` as the items of a list, a set or a tagged array of the shape `shape`.
pub fn deserialize_items(shape: &Shape, deserializer: &JsonDeserializer, items: &Vec<Json>) -> (r:
    Result<Vec<Value>, Error>)
    ensures
        match r {
            Ok(values) => decode_items(*shape, array_view(items@)) == Ok::<Seq<ValueV>, ErrorKind>(
                items_view(values@),
            ),
            Err(e) => decode_items(*shape, array_view(items@)) == Err::<Seq<ValueV>, ErrorKind>(
                e.kind(),
            ),
        },
    decreases shape, 0nat, 0nat,
{
    let ghost nodes = array_view(items@);
    match shape {
        Shape::List(inner) | Shape::SetOf(inner) | Shape::TaggedArray(_, inner) => {
            let mut values: Vec<Value> = Vec::with_capacity(items.len());
            proof {
                lemma_array_view(items@);
                assert(nodes.take(0) =~= Seq::<JsonV>::empty());
                assert(items_view(values@) =~= Seq::<ValueV>::empty());
            }
            let mut i: usize = 0;
            while i < items.len()
                invariant
                    i <= items.len(),
                    nodes == array_view(items@),
                    nodes.len() == items@.len(),
                    forall|j: int| 0 <= j < items@.len() ==> (#[trigger] nodes[j]) == items@[j]@,
                    *shape matches Shape::List(x) ==> x == inner,
                    *shape matches Shape::SetOf(x) ==> x == inner,
                    *shape matches Shape::TaggedArray(_, x) ==> x == inner,
                    *shape is List || *shape is SetOf || *shape is TaggedArray,
                    decode_items(*shape, nodes.take(i as int)) == Ok::<Seq<ValueV>, ErrorKind>(
                        items_view(values@),
                    ),
                decreases items.len() - i,
            {
                proof {
                    assert(nodes.take(i + 1).drop_last() =~= nodes.take(i as int));
                }
                match deserialize(inner, deserializer, &items[i]) {
                    Ok(value) => {
                        proof {
                            lemma_items_view_push(values@, value);
                        }
                        values.push(value);
                    },
                    Err(e) => {
                        proof {
                            lemma_decode_items_prefix(*shape, nodes, i + 1);
                        }
                        return Err(e);
                    },
                }
                i += 1;
            }
            assert(nodes.take(items.len() as int) =~= nodes);
            Ok(values)
        },
        _ => Err(Error::DoNotMatch(String::from_str("not a shape with items"))),
    }
}

/// Reads the node `input` as the pairs of a map of the shape `shape`.
pub fn deserialize_pairs(shape: &Shape, deserializer: &JsonDeserializer, input: &Json) -> (r:
    Result<Vec<(Value, Value)>, Error>)
    ensures
        match r {
            Ok(pairs) => decode_pairs(*shape, input@) == Ok::<Seq<(ValueV, ValueV)>, ErrorKind>(
                pairs_view(pairs@),
            ),
            Err(e) => decode_pairs(*shape, input@) == Err::<Seq<(ValueV, ValueV)>, ErrorKind>(
                e.kind(),
            ),
        },
    decreases shape, 1nat, 0nat,
{
    match deserializer.deserialize_map(input) {
        Ok((members, _)) => {
            proof {
                lemma_object_view(members@);
            }
            if members.len() > 0 && same_text(members[0].0.as_str(), cmap_text().as_str()) {
                match deserializer.deserialize_array(&members[0].1) {
                    Ok((flat, _)) => {
                        proof {
                            lemma_array_view(flat@);
                        }
                        if members.len() == 1 && flat.len() % 2 == 0 {
                            deserialize_flat(shape, deserializer, flat)
                        } else {
                            Err(Error::DoNotMatch(String::from_str("not a ~#cmap envelope")))
                        }
                    },
                    Err(e) => Err(e),
                }
            } else {
                deserialize_members(shape, deserializer, members)
            }
        },
        Err(e) => Err(e),
    }
}

/// Reads `members` as the pairs of a map of the shape `shape`, each key from its key
/// form.
pub fn deserialize_members(
    shape: &Shape,
    deserializer: &JsonDeserializer,
    members: &Vec<(String, Json)>,
) -> (r: Result<Vec<(Value, Value)>, Error>)
    ensures
        match r {
            Ok(pairs) => decode_members(*shape, object_view(members@)) == Ok::<
                Seq<(ValueV, ValueV)>,
                ErrorKind,
            >(pairs_view(pairs@)),
            Err(e) => decode_members(*shape, object_view(members@)) == Err::<
                Seq<(ValueV, ValueV)>,
                ErrorKind,
            >(e.kind()),
        },
    decreases shape, 0nat, 0nat,
{
    let ghost nodes = object_view(members@);
    match shape {
        Shape::MapOf(key, value) | Shape::TaggedMap(_, key, value) => {
            let mut pairs: Vec<(Value, Value)> = Vec::with_capacity(members.len());
            proof {
                lemma_object_view(members@);
                assert(nodes.take(0) =~= Seq::<(Seq<char>, JsonV)>::empty());
                assert(pairs_view(pairs@) =~= Seq::<(ValueV, ValueV)>::empty());
            }
            let mut i: usize = 0;
            while i < members.len()
                invariant
                    i <= members.len(),
                    nodes == object_view(members@),
                    nodes.len() == members@.len(),
                    forall|j: int|
                        0 <= j < members@.len() ==> (#[trigger] nodes[j]) == (
                            members@[j].0@,
                            members@[j].1@,
                        ),
                    *shape matches Shape::MapOf(x, y) ==> x == key && y == value,
                    *shape matches Shape::TaggedMap(_, x, y) ==> x == key && y == value,
                    *shape is MapOf || *shape is TaggedMap,
                    decode_members(*shape, nodes.take(i as int)) == Ok::<
                        Seq<(ValueV, ValueV)>,
                        ErrorKind,
                    >(pairs_view(pairs@)),
                decreases members.len() - i,
            {
                proof {
                    assert(nodes.take(i + 1).drop_last() =~= nodes.take(i as int));
                }
                let k = match deserialize_key(key, members[i].0.as_str()) {
                    Ok(k) => k,
                    Err(e) => {
                        proof {
                            lemma_decode_members_prefix(*shape, nodes, i + 1);
                        }
                        return match e {
                            Error::CannotBeKey(_) => Err(
                                Error::DoNotMatch(
                                    String::from_str("the tag of the envelope must be ~#cmap"),
                                ),
                            ),
                            other => Err(other),
                        };
                    },
                };
                let v = match deserialize(value, deserializer, &members[i].1) {
                    Ok(v) => v,
                    Err(e) => {
                        proof {
                            lemma_decode_members_prefix(*shape, nodes, i + 1);
                        }
                        return Err(e);
                    },
                };
                proof {
                    lemma_pairs_view_push(pairs@, (k, v));
                }
                pairs.push((k, v));
                i += 1;
            }
            assert(nodes.take(members.len() as int) =~= nodes);
            Ok(pairs)
        },
        _ => Err(Error::DoNotMatch(String::from_str("not a shape with pairs"))),
    }
}

/// Reads `flat` two by two as the pairs of a map of the shape `shape`, each key as a
/// value.
fn deserialize_flat(shape: &Shape, deserializer: &JsonDeserializer, flat: &Vec<Json>) -> (r:
    Result<Vec<(Value, Value)>, Error>)
    requires
        flat.len() % 2 == 0,
    ensures
        match r {
            Ok(pairs) => decode_flat(*shape, array_view(flat@)) == Ok::<
                Seq<(ValueV, ValueV)>,
                ErrorKind,
            >(pairs_view(pairs@)),
            Err(e) => decode_flat(*shape, array_view(flat@)) == Err::<
                Seq<(ValueV, ValueV)>,
                ErrorKind,
            >(e.kind()),
        },
    decreases shape, 0nat, 0nat,
{
    let ghost nodes = array_view(flat@);
    match shape {
        Shape::MapOf(key, value) | Shape::TaggedMap(_, key, value) => {
            let mut pairs: Vec<(Value, Value)> = Vec::with_capacity(flat.len() / 2);
            proof {
                lemma_array_view(flat@);
                assert(nodes.take(0) =~= Seq::<JsonV>::empty());
                assert(pairs_view(pairs@) =~= Seq::<(ValueV, ValueV)>::empty());
            }
            let mut i: usize = 0;
            while i < flat.len()
                invariant
                    i <= flat.len(),
                    i % 2 == 0,
                    flat.len() % 2 == 0,
                    nodes == array_view(flat@),
                    nodes.len() == flat@.len(),
                    forall|j: int| 0 <= j < flat@.len() ==> (#[trigger] nodes[j]) == flat@[j]@,
                    *shape matches Shape::MapOf(x, y) ==> x == key && y == value,
                    *shape matches Shape::TaggedMap(_, x, y) ==> x == key && y == value,
                    *shape is MapOf || *shape is TaggedMap,
                    decode_flat(*shape, nodes.take(i as int)) == Ok::<
                        Seq<(ValueV, ValueV)>,
                        ErrorKind,
                    >(pairs_view(pairs@)),
                decreases flat.len() - i,
            {
                proof {
                    let longer = nodes.take(i + 2);
                    assert(longer.take(longer.len() - 2) =~= nodes.take(i as int));
                }
                let k = match deserialize(key, deserializer, &flat[i]) {
                    Ok(k) => k,
                    Err(e) => {
                        proof {
                            lemma_decode_flat_prefix(*shape, nodes, (i + 2) / 2);
                        }
                        return Err(e);
                    },
                };
                let v = match deserialize(value, deserializer, &flat[i + 1]) {
                    Ok(v) => v,
                    Err(e) => {
                        proof {
                            lemma_decode_flat_prefix(*shape, nodes, (i + 2) / 2);
                        }
                        return Err(e);
                    },
                };
                proof {
                    lemma_pairs_view_push(pairs@, (k, v));
                }
                pairs.push((k, v));
                i += 2;
            }
            assert(nodes.take(flat.len() as int) =~= nodes);
            Ok(pairs)
        },
        _ => Err(Error::DoNotMatch(String::from_str("not a shape with pairs"))),
    }
}

impl TransitDeserialize for bool {
    open spec fn spec_shape() -> Shape {
        Shape::Bool
    }

    fn shape() -> (s: Shape) {
        Shape::Bool
    }

    fn from_value(v: Value) -> (r: Result<Self, Error>)
        ensures
            r matches Err(e) ==> e.kind() == ErrorKind::DoNotMatch,
    {
        match v {
            Value::Bool(b) => Ok(b),
            _ => Err(Error::DoNotMatch(String::from_str("not a bool"))),
        }
    }
}

impl TransitDeserialize for i32 {
    open spec fn spec_shape() -> Shape {
        Shape::Int32
    }

    fn shape() -> (s: Shape) {
        Shape::Int32
    }

    fn from_value(v: Value) -> (r: Result<Self, Error>)
        ensures
            r matches Err(e) ==> e.kind() == if v@ is Int {
                ErrorKind::ItWontFit
            } else {
                ErrorKind::DoNotMatch
            },
    {
        match v {
            Value::Int(n) => {
                if n < -2147483648 || n > 2147483647 {
                    Err(Error::ItWontFit(String::from_str("cannot fit in i32")))
                } else {
                    Ok(n as i32)
                }
            },
            _ => Err(Error::DoNotMatch(String::from_str("not an int"))),
        }
    }
}

impl TransitDeserialize for i64 {
    open spec fn spec_shape() -> Shape {
        Shape::Int
    }

    fn shape() -> (s: Shape) {
        Shape::Int
    }

    fn from_value(v: Value) -> (r: Result<Self, Error>)
        ensures
            r matches Err(e) ==> e.kind() == ErrorKind::DoNotMatch,
    {
        match v {
            Value::Int(n) => Ok(n),
            _ => Err(Error::DoNotMatch(String::from_str("not an int"))),
        }
    }
}

impl TransitDeserialize for String {
    open spec fn spec_shape() -> Shape {
        Shape::Str
    }

    fn shape() -> (s: Shape) {
        Shape::Str
    }

    fn from_value(v: Value) -> (r: Result<Self, Error>)
        ensures
            r matches Err(e) ==> e.kind() == ErrorKind::DoNotMatch,
    {
        match v {
            Value::Str(s) => Ok(s),
            _ => Err(Error::DoNotMatch(String::from_str("not a string"))),
        }
    }
}

impl<T: TransitDeserialize> TransitDeserialize for Option<T> {
    open spec fn spec_shape() -> Shape {
        Shape::Optional(Box::new(T::spec_shape()))
    }

    fn shape() -> (s: Shape) {
        Shape::Optional(Box::new(T::shape()))
    }

    fn from_value(v: Value) -> (r: Result<Self, Error>) {
        match v {
            Value::Null => Ok(None),
            _ => match T::from_value(v) {
                Ok(x) => Ok(Some(x)),
                Err(e) => Err(e),
            },
        }
    }
}

impl<T: TransitDeserialize> TransitDeserialize for Vec<T> {
    open spec fn spec_shape() -> Shape {
        Shape::List(Box::new(T::spec_shape()))
    }

    fn shape() -> (s: Shape) {
        Shape::List(Box::new(T::shape()))
    }

    fn from_value(v: Value) -> (r: Result<Self, Error>) {
        let ghost model = v@;
        match v {
            Value::List(items) => {
                let ghost values = items_view(items@);
                proof {
                    lemma_items_view(items@);
                    assert(model == ValueV::List(values));
                }
                let mut items = items;
                let mut out: Vec<T> = Vec::with_capacity(items.len());
                let mut i: usize = 0;
                assert(values_of(out@) =~= values.take(0));
                while i < items.len()
                    invariant
                        i <= items.len(),
                        model == v@,
                        model == ValueV::List(values),
                        items@.len() == values.len(),
                        forall|j: int|
                            i <= j < items@.len() ==> (#[trigger] items@[j])@ == values[j],
                        forall|j: int| 0 <= j < i ==> T::spec_shape().admits(#[trigger] values[j]),
                        values_of(out@) == values.take(i as int),
                    decreases items.len() - i,
                {
                    let ghost before = out@;
                    assert(items@[i as int]@ == values[i as int]);
                    let mut item = Value::Null;
                    core::mem::swap(&mut items[i], &mut item);
                    assert(item@ == values[i as int]);
                    match T::from_value(item) {
                        Ok(x) => {
                            out.push(x);
                            assert(out@ == before.push(x));
                            assert(values_of(out@) =~= values_of(before).push(x.transit_value()));
                            assert(values.take(i + 1) =~= values.take(i as int).push(
                                values[i as int],
                            ));
                        },
                        Err(e) => {
                            assert(!Self::spec_shape().admits(model)) by {
                                if Self::spec_shape().admits(model) {
                                    assert(model->List_0 == values);
                                    assert(Self::spec_shape()->List_0.admits(values[i as int]));
                                }
                            }
                            return Err(e);
                        },
                    }
                    i += 1;
                }
                assert(values.take(items.len() as int) =~= values);
                Ok(out)
            },
            _ => Err(Error::DoNotMatch(String::from_str("not a list"))),
        }
    }
}

impl OwnShape for bool {
    proof fn lemma_own_shape(&self) {
    }
}

impl OwnShape for i32 {
    proof fn lemma_own_shape(&self) {
    }
}

impl OwnShape for i64 {
    proof fn lemma_own_shape(&self) {
    }
}

impl OwnShape for String {
    proof fn lemma_own_shape(&self) {
    }
}

impl<T: OwnShape> OwnShape for Option<T> {
    proof fn lemma_own_shape(&self) {
        match self {
            Some(x) => {
                x.lemma_own_shape();
            },
            None => {},
        }
    }
}

impl<T: OwnShape> OwnShape for Vec<T> {
    proof fn lemma_own_shape(&self) {
        let items = values_of(self@);
        assert forall|i: int| 0 <= i < items.len() implies T::spec_shape().admits(
            #[trigger] items[i],
        ) && items[i].wf() by {
            self@[i].lemma_own_shape();
        }
    }
}

} // verus!
