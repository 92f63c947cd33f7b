//! The verbose JSON surface, read: what a host node is taken for, and the entry point
//! that reads a whole document.

use crate::de::admits::{lemma_decode_admits, lemma_decode_document_admits, lemma_decode_key_admits};
use crate::de::impls::{decode, decode_key, deserialize, deserialize_key};
use crate::de::{outcome, Error, ErrorKind, Shape, TransitDeserialize, TransitDeserializer};
use crate::json::{array_view, lemma_array_view};
use crate::json::{lemma_object_view, object_view, Json, JsonV};
use crate::ser::TransitSerialize;
use crate::text::same_text;
use crate::tilde::{quote_tag, quote_text};
use crate::value::{Value, ValueV};
use vstd::prelude::*;

verus! {

/// What a verbose document of the shape `shape` holds. The root is a composite: the
/// quoting envelope around a scalar, or the node of a composite value.
pub open spec fn decode_document(shape: Shape, j: JsonV) -> Result<ValueV, ErrorKind> {
    match j {
        JsonV::Object(members) => if members.len() == 1 && members[0].0 == quote_tag()
            && !members[0].1.is_composite() {
            decode(shape, members[0].1)
        } else {
            decode(shape, j)
        },
        JsonV::Array(_) => decode(shape, j),
        _ => Err(ErrorKind::DoNotMatch),
    }
}

/// Reads host nodes for the decoder, and says no where a node is of another kind.
#[derive(Clone, Copy, Debug)]
pub struct JsonDeserializer;

impl JsonDeserializer {
    /// The text of a string node.
    pub fn deserialize_string<'a>(&self, v: &'a Json) -> (r: Result<&'a String, Error>)
        ensures
            match r {
                Ok(s) => v@ == JsonV::Str(s@),
                Err(e) => !(v@ is Str) && e.kind() == ErrorKind::DoNotMatch,
            },
    {
        match v {
            Json::Str(s) => Ok(s),
            _ => Err(Error::DoNotMatch(String::from_str("not a string"))),
        }
    }

    /// The truth value of a boolean node.
    pub fn deserialize_bool(&self, v: &Json) -> (r: Result<bool, Error>)
        ensures
            match r {
                Ok(b) => v@ == JsonV::Bool(b),
                Err(e) => !(v@ is Bool) && e.kind() == ErrorKind::DoNotMatch,
            },
    {
        match v {
            Json::Bool(b) => Ok(*b),
            _ => Err(Error::DoNotMatch(String::from_str("not a bool"))),
        }
    }

    /// The number of an integer node.
    pub fn deserialize_int(&self, v: &Json) -> (r: Result<i64, Error>)
        ensures
            match r {
                Ok(n) => v@ == JsonV::Int(n),
                Err(e) => !(v@ is Int) && e.kind() == ErrorKind::DoNotMatch,
            },
    {
        match v {
            Json::Int(n) => Ok(*n),
            _ => Err(Error::DoNotMatch(String::from_str("not an int"))),
        }
    }

    /// The items of an array node, and how many they are.
    pub fn deserialize_array<'a>(&self, v: &'a Json) -> (r: Result<
        (&'a Vec<Json>, Option<usize>),
        Error,
    >)
        ensures
            match r {
                Ok((items, hint)) => *v == Json::Array(*items) && v@ == JsonV::Array(
                    array_view(items@),
                ) && hint == Some(items.len()),
                Err(e) => !(v@ is Array) && e.kind() == ErrorKind::DoNotMatch,
            },
    {
        match v {
            Json::Array(items) => {
                let l = items.len();
                Ok((items, Some(l)))
            },
            _ => Err(Error::DoNotMatch(String::from_str("not an array"))),
        }
    }

    /// The members of an object node, and how many they are.
    pub fn deserialize_map<'a>(&self, v: &'a Json) -> (r: Result<
        (&'a Vec<(String, Json)>, Option<usize>),
        Error,
    >)
        ensures
            match r {
                Ok((members, hint)) => *v == Json::Object(*members) && v@ == JsonV::Object(
                    object_view(members@),
                ) && hint == Some(members.len()),
                Err(e) => !(v@ is Object) && e.kind() == ErrorKind::DoNotMatch,
            },
    {
        match v {
            Json::Object(members) => {
                let l = members.len();
                Ok((members, Some(l)))
            },
            _ => Err(Error::DoNotMatch(String::from_str("not a map"))),
        }
    }
}

impl TransitDeserializer for JsonDeserializer {
    type Input = Json;

    open spec fn wf(&self) -> bool {
        true
    }

    /// The verbose surface reads what `decode` says, and has no state to change.
    open spec fn deserialized(
        &self,
        shape: Shape,
        input: &Json,
        out: Result<ValueV, ErrorKind>,
        post: &Self,
    ) -> bool {
        out == decode(shape, input@)
    }

    open spec fn key_deserialized(
        &self,
        shape: Shape,
        input: Seq<char>,
        out: Result<ValueV, ErrorKind>,
    ) -> bool {
        out == decode_key(shape, input)
    }

    proof fn lemma_deserialized_admits(&self, shape: Shape, input: &Json, v: ValueV, post: &Self) {
        lemma_decode_admits(shape, input@);
    }

    proof fn lemma_key_deserialized_admits(&self, shape: Shape, input: Seq<char>, v: ValueV) {
        lemma_decode_key_admits(shape, input);
    }

    fn deserialize_string<'a>(&self, v: &'a Json) -> (r: Result<&'a String, Error>) {
        JsonDeserializer::deserialize_string(self, v)
    }

    fn deserialize_bool(&self, v: &Json) -> (r: Result<bool, Error>) {
        JsonDeserializer::deserialize_bool(self, v)
    }

    fn deserialize_int(&self, v: &Json) -> (r: Result<i64, Error>) {
        JsonDeserializer::deserialize_int(self, v)
    }

    fn deserialize_array<'a>(&self, v: &'a Json) -> (r: Result<
        (&'a Vec<Json>, Option<usize>),
        Error,
    >)
        ensures
            r matches Ok((items, hint)) ==> *v == Json::Array(*items) && hint == Some(items.len()),
    {
        let r = JsonDeserializer::deserialize_array(self, v);
        proof {
            if let Ok((items, _)) = r {
                lemma_array_view(items@);
                assert(array_view(items@) =~= Seq::new(items@.len(), |i: int| items@[i]@));
            }
        }
        r
    }

    fn deserialize_map<'a>(&self, v: &'a Json) -> (r: Result<
        (&'a Vec<(String, Json)>, Option<usize>),
        Error,
    >)
        ensures
            r matches Ok((members, hint)) ==> *v == Json::Object(*members) && hint == Some(
                members.len(),
            ),
    {
        let r = JsonDeserializer::deserialize_map(self, v);
        proof {
            if let Ok((members, _)) = r {
                lemma_object_view(members@);
                assert(object_view(members@) =~= Seq::new(
                    members@.len(),
                    |i: int| (members@[i].0@, members@[i].1@),
                ));
            }
        }
        r
    }

    fn deserialize_value(&mut self, shape: &Shape, input: &Json) -> (r: Result<Value, Error>) {
        deserialize(shape, self, input)
    }

    fn deserialize_key(&self, shape: &Shape, input: &str) -> (r: Result<Value, Error>) {
        deserialize_key(shape, input)
    }
}

/// Reads the verbose document `v` as a value of the shape `shape`.
pub fn read_document(shape: &Shape, v: &Json) -> (r: Result<Value, Error>)
    ensures
        outcome(r) == decode_document(*shape, v@),
{
    let deserializer = JsonDeserializer;
    match v {
        Json::Object(members) => {
            proof {
                lemma_object_view(members@);
            }
            if members.len() == 1 && same_text(members[0].0.as_str(), quote_text().as_str())
                && !members[0].1.is_composite() {
                deserialize(shape, &deserializer, &members[0].1)
            } else {
                deserialize(shape, &deserializer, v)
            }
        },
        Json::Array(_) => deserialize(shape, &deserializer, v),
        _ => Err(Error::DoNotMatch(String::from_str("the root of a document is a composite"))),
    }
}

/// Reads the verbose document `v` as a value of the type `T`: it succeeds where the
/// document holds a value of the shape of `T`, and gives what stands for that value.
pub fn from_transit_json<T: TransitDeserialize>(v: &Json) -> (r: Result<T, Error>)
    ensures
        match r {
            Ok(x) => decode_document(T::spec_shape(), v@) == Ok::<ValueV, ErrorKind>(
                x.transit_value(),
            ),
            Err(e) => decode_document(T::spec_shape(), v@) == Err::<ValueV, ErrorKind>(e.kind()),
        },
{
    let shape = T::shape();
    match read_document(&shape, v) {
        Ok(value) => {
            proof {
                lemma_decode_document_admits(shape, v@);
            }
            T::from_value(value)
        },
        Err(e) => Err(e),
    }
}

} // verus!
