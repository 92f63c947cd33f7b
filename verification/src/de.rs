//! Decoding: the errors it reports, the kinds of Transit value and the shapes that a
//! decoder can be told to expect.

pub mod admits;
pub mod impls;
pub mod json;
pub mod json_verbose;

use crate::json::JsonV;
use crate::ser::TransitSerialize;
use crate::value::{Value, ValueV};
use vstd::prelude::*;

verus! {

/// Why a document could not be read, or a key cache could not take one more key.
#[derive(Debug)]
pub enum Error {
    /// The host node does not have the shape that the target asks for.
    DoNotMatch(String),
    /// An integer was read but does not fit the width of the target.
    ItWontFit(String),
    /// A composite target was asked for where a map key stands.
    CannotBeKey(&'static str),
    /// A back-reference names a cache index that was never given out.
    CacheMiss(String),
    /// More distinct strings were offered to the key cache than it has codes for.
    CacheOverflow,
}

/// An error without its message: what contracts speak of.
#[derive(Clone, Copy, Debug, PartialEq, Eq, Structural)]
pub enum ErrorKind {
    DoNotMatch,
    ItWontFit,
    CannotBeKey,
    CacheMiss,
    CacheOverflow,
}

impl Error {
    /// The kind of this error.
    pub open spec fn spec_kind(&self) -> ErrorKind {
        match self {
            Error::DoNotMatch(_) => ErrorKind::DoNotMatch,
            Error::ItWontFit(_) => ErrorKind::ItWontFit,
            Error::CannotBeKey(_) => ErrorKind::CannotBeKey,
            Error::CacheMiss(_) => ErrorKind::CacheMiss,
            Error::CacheOverflow => ErrorKind::CacheOverflow,
        }
    }

    /// The kind of this error.
    #[verifier::when_used_as_spec(spec_kind)]
    pub fn kind(&self) -> (k: ErrorKind)
        ensures
            k == self.spec_kind(),
    {
        match self {
            Error::DoNotMatch(_) => ErrorKind::DoNotMatch,
            Error::ItWontFit(_) => ErrorKind::ItWontFit,
            Error::CannotBeKey(_) => ErrorKind::CannotBeKey,
            Error::CacheMiss(_) => ErrorKind::CacheMiss,
            Error::CacheOverflow => ErrorKind::CacheOverflow,
        }
    }

    /// The message that the error carries; empty for a cache overflow.
    pub fn message(&self) -> (m: String)
        ensures
            self is CacheOverflow ==> m@.len() == 0,
            self matches Error::DoNotMatch(t) ==> m@ == t@,
            self matches Error::ItWontFit(t) ==> m@ == t@,
            self matches Error::CannotBeKey(t) ==> m@ == t@,
            self matches Error::CacheMiss(t) ==> m@ == t@,
    {
        match self {
            Error::DoNotMatch(t) => t.clone(),
            Error::ItWontFit(t) => t.clone(),
            Error::CannotBeKey(t) => String::from_str(t),
            Error::CacheMiss(t) => t.clone(),
            Error::CacheOverflow => String::new(),
        }
    }
}

/// Whether a value can stand as one host string, and so as a key of an object, or needs
/// an envelope of its own.
#[derive(Clone, Copy, Debug, PartialEq, Eq, Structural)]
pub enum TransitType {
    Scalar,
    Composite,
}

/// The shape that a decoder is told to expect: what in a typed program the target type says.
#[derive(Debug, PartialEq, Eq)]
pub enum Shape {
    Null,
    Bool,
    /// An integer of 64 bits.
    Int,
    /// An integer of 32 bits.
    Int32,
    Str,
    Instant,
    /// Null, or a value of the shape inside.
    Optional(Box<Shape>),
    /// A list of values of one shape.
    List(Box<Shape>),
    /// A set of values of one shape.
    SetOf(Box<Shape>),
    /// A map with keys of the first shape and values of the second.
    MapOf(Box<Shape>, Box<Shape>),
    /// An array of values of one shape, under the tag given.
    TaggedArray(String, Box<Shape>),
    /// A map with keys of the first shape and values of the second, under the tag given.
    TaggedMap(String, Box<Shape>, Box<Shape>),
    /// An array under the tag given, with one shape for each of its items: what a tuple
    /// struct, or a variant of one, is written as.
    Tuple(String, Vec<Shape>),
    /// A map under the tag given, with the names of its fields as keys, in this order, and
    /// one shape for the value of each: what a struct, or a variant of one, is written as.
    Record(String, Vec<(String, Shape)>),
    /// One of several tagged shapes, told apart by their tags; of two with one tag the
    /// first counts. What an enum is written as.
    OneOf(Vec<Shape>),
}

/// The first place at or after `from` at which a shape with the tag `tag` stands among
/// `variants`.
pub open spec fn variant_from(variants: Seq<Shape>, tag: Seq<char>, from: int) -> Option<int>
    decreases variants.len() - from,
{
    if from < 0 || from >= variants.len() {
        None
    } else if variants[from].tag() == Some(tag) {
        Some(from)
    } else {
        variant_from(variants, tag, from + 1)
    }
}

/// Where `variant_from` finds a shape, a shape with the tag stands.
pub proof fn lemma_variant_from(variants: Seq<Shape>, tag: Seq<char>, from: int)
    requires
        0 <= from,
    ensures
        variant_from(variants, tag, from) matches Some(at) ==> from <= at < variants.len()
            && variants[at].tag() == Some(tag),
    decreases variants.len() - from,
{
    if from < variants.len() && variants[from].tag() != Some(tag) {
        lemma_variant_from(variants, tag, from + 1);
    }
}

impl Shape {
    /// The tag of a tagged shape.
    pub open spec fn tag(&self) -> Option<Seq<char>> {
        match self {
            Shape::TaggedArray(tag, _) => Some(tag@),
            Shape::TaggedMap(tag, _, _) => Some(tag@),
            Shape::Tuple(tag, _) => Some(tag@),
            Shape::Record(tag, _) => Some(tag@),
            _ => None,
        }
    }

    /// The tag of a tagged shape.
    pub fn tag_text(&self) -> (tag: Option<&String>)
        ensures
            match tag {
                Some(t) => self.tag() == Some(t@),
                None => self.tag() is None,
            },
    {
        match self {
            Shape::TaggedArray(tag, _) => Some(tag),
            Shape::TaggedMap(tag, _, _) => Some(tag),
            Shape::Tuple(tag, _) => Some(tag),
            Shape::Record(tag, _) => Some(tag),
            _ => None,
        }
    }

    /// The kind of the values of this shape; an optional shape has the kind of what is
    /// inside.
    pub open spec fn spec_kind(&self) -> TransitType
        decreases self,
    {
        match self {
            Shape::Null | Shape::Bool | Shape::Int | Shape::Int32 | Shape::Str | Shape::Instant => {
                TransitType::Scalar
            },
            Shape::Optional(inner) => inner.spec_kind(),
            _ => TransitType::Composite,
        }
    }

    /// The kind of the values of this shape.
    #[verifier::when_used_as_spec(spec_kind)]
    pub fn kind(&self) -> (k: TransitType)
        ensures
            k == self.spec_kind(),
        decreases self,
    {
        match self {
            Shape::Null | Shape::Bool | Shape::Int | Shape::Int32 | Shape::Str | Shape::Instant => {
                TransitType::Scalar
            },
            Shape::Optional(inner) => inner.kind(),
            _ => TransitType::Composite,
        }
    }

    /// Whether the value `v` is of this shape.
    pub open spec fn admits(&self, v: ValueV) -> bool
        decreases self,
    {
        match self {
            Shape::Null => v is Null,
            Shape::Bool => v is Bool,
            Shape::Int => v is Int,
            Shape::Int32 => v matches ValueV::Int(n) && i32::MIN <= n <= i32::MAX,
            Shape::Str => v is Str,
            Shape::Instant => v is Instant,
            Shape::Optional(inner) => v is Null || inner.admits(v),
            Shape::List(inner) => v matches ValueV::List(items) && forall|i: int|
                0 <= i < items.len() ==> inner.admits(#[trigger] items[i]),
            Shape::SetOf(inner) => v matches ValueV::SetOf(items) && forall|i: int|
                0 <= i < items.len() ==> inner.admits(#[trigger] items[i]),
            Shape::MapOf(key, value) => v matches ValueV::MapOf(pairs) && forall|i: int|
                0 <= i < pairs.len() ==> key.admits((#[trigger] pairs[i]).0) && value.admits(
                    pairs[i].1,
                ),
            Shape::TaggedArray(tag, inner) => v matches ValueV::TaggedArray(t, items) && t == tag@
                && forall|i: int| 0 <= i < items.len() ==> inner.admits(#[trigger] items[i]),
            Shape::TaggedMap(tag, key, value) => v matches ValueV::TaggedMap(t, pairs) && t
                == tag@ && forall|i: int|
                0 <= i < pairs.len() ==> key.admits((#[trigger] pairs[i]).0) && value.admits(
                    pairs[i].1,
                ),
            Shape::Tuple(tag, shapes) => v matches ValueV::TaggedArray(t, items) && t == tag@
                && items.len() == shapes@.len() && forall|i: int|
                0 <= i < shapes@.len() ==> (#[trigger] shapes@[i]).admits(items[i]),
            Shape::Record(tag, fields) => v matches ValueV::TaggedMap(t, pairs) && t == tag@
                && pairs.len() == fields@.len() && forall|i: int|
                0 <= i < fields@.len() ==> pairs[i].0 == ValueV::Str((#[trigger] fields@[i]).0@)
                    && fields@[i].1.admits(pairs[i].1),
            Shape::OneOf(variants) => match v.tag() {
                Some(tag) => match variant_from(variants@, tag, 0) {
                    Some(at) => 0 <= at < variants@.len() && variants@[at].admits(v),
                    None => false,
                },
                None => false,
            },
        }
    }
}

/// What a decoder gave, without the message of an error: what contracts speak of.
pub open spec fn outcome(r: Result<Value, Error>) -> Result<ValueV, ErrorKind> {
    match r {
        Ok(v) => Ok(v@),
        Err(e) => Err(e.kind()),
    }
}

/// What the decoder of a surface offers: what a host node is taken for, and the value of
/// an expected shape that a node holds.
pub trait TransitDeserializer: Sized {
    type Input: View<V = JsonV>;

    /// The decoder is fit for use.
    spec fn wf(&self) -> bool;

    /// `out` is what the decoder reads from the node `input` as a value of the shape
    /// `shape` when it is in the state `self`, and `post` is the state that it is left in.
    spec fn deserialized(
        &self,
        shape: Shape,
        input: &Self::Input,
        out: Result<ValueV, ErrorKind>,
        post: &Self,
    ) -> bool;

    /// `out` is what the decoder reads from the key text `input` as a value of the shape
    /// `shape`.
    spec fn key_deserialized(
        &self,
        shape: Shape,
        input: Seq<char>,
        out: Result<ValueV, ErrorKind>,
    ) -> bool;

    /// What is read where a value stands is of the shape that was expected.
    proof fn lemma_deserialized_admits(
        &self,
        shape: Shape,
        input: &Self::Input,
        v: ValueV,
        post: &Self,
    )
        requires
            self.deserialized(shape, input, Ok(v), post),
        ensures
            shape.admits(v),
    ;

    /// What is read where a key stands is of the shape that was expected.
    proof fn lemma_key_deserialized_admits(&self, shape: Shape, input: Seq<char>, v: ValueV)
        requires
            self.key_deserialized(shape, input, Ok(v)),
        ensures
            shape.admits(v),
    ;

    /// The text of a string node.
    fn deserialize_string<'a>(&self, v: &'a Self::Input) -> (r: Result<&'a String, Error>)
        ensures
            match r {
                Ok(s) => v@ == JsonV::Str(s@),
                Err(e) => !(v@ is Str) && e.kind() == ErrorKind::DoNotMatch,
            },
    ;

    /// The truth value of a boolean node.
    fn deserialize_bool(&self, v: &Self::Input) -> (r: Result<bool, Error>)
        ensures
            match r {
                Ok(b) => v@ == JsonV::Bool(b),
                Err(e) => !(v@ is Bool) && e.kind() == ErrorKind::DoNotMatch,
            },
    ;

    /// The number of an integer node.
    fn deserialize_int(&self, v: &Self::Input) -> (r: Result<i64, Error>)
        ensures
            match r {
                Ok(n) => v@ == JsonV::Int(n),
                Err(e) => !(v@ is Int) && e.kind() == ErrorKind::DoNotMatch,
            },
    ;

    /// The items of an array node, and how many they are if that is known.
    fn deserialize_array<'a>(&self, v: &'a Self::Input) -> (r: Result<
        (&'a Vec<Self::Input>, Option<usize>),
        Error,
    >)
        ensures
            match r {
                Ok((items, hint)) => v@ == JsonV::Array(Seq::new(items@.len(), |i: int| items@[i]@))
                    && (hint matches Some(n) ==> n == items@.len()),
                Err(e) => !(v@ is Array) && e.kind() == ErrorKind::DoNotMatch,
            },
    ;

    /// The members of a map node, each a key text and a node, and how many they are if
    /// that is known.
    fn deserialize_map<'a>(&self, v: &'a Self::Input) -> (r: Result<
        (&'a Vec<(String, Self::Input)>, Option<usize>),
        Error,
    >)
        ensures
            match r {
                Ok((members, hint)) => v@ == JsonV::Object(
                    Seq::new(members@.len(), |i: int| (members@[i].0@, members@[i].1@)),
                ) && (hint matches Some(n) ==> n == members@.len()),
                Err(e) => !(v@ is Object) && e.kind() == ErrorKind::DoNotMatch,
            },
    ;

    /// Reads the node `input` as a value of the shape `shape`.
    fn deserialize_value(&mut self, shape: &Shape, input: &Self::Input) -> (r: Result<Value, Error>)
        requires
            old(self).wf(),
        ensures
            final(self).wf(),
            old(self).deserialized(*shape, input, outcome(r), final(self)),
    ;

    /// Reads the key text `input` as a value of the shape `shape`.
    fn deserialize_key(&self, shape: &Shape, input: &str) -> (r: Result<Value, Error>)
        ensures
            self.key_deserialized(*shape, input@, outcome(r)),
    ;
}

/// A type that can be read from a Transit document: it tells the shape to expect, and
/// takes itself out of a value of that shape.
pub trait TransitDeserialize: TransitSerialize + Sized {
    /// The shape of the values that stand for this type. A type says which; one that does
    /// not is taken to have some shape that nothing is known of.
    open spec fn spec_shape() -> Shape {
        arbitrary()
    }

    /// The shape of the values that stand for this type.
    fn shape() -> (s: Shape)
        ensures
            s == Self::spec_shape(),
    ;

    /// The kind of the type: whether its values can stand as keys.
    fn transit_type() -> (k: TransitType)
        ensures
            k == Self::spec_shape().kind(),
    {
        Self::shape().kind()
    }

    /// Takes a value of this type out of the logical value `v`: it succeeds on the values
    /// of the shape of this type and on no other, and gives what stands for `v`.
    fn from_value(v: Value) -> (r: Result<Self, Error>)
        ensures
            r is Ok <==> Self::spec_shape().admits(v@),
            r matches Ok(x) ==> x.transit_value() == v@,
    ;

    /// Reads a value of this type from the node `input`, where a value stands, with the
    /// decoder of any surface.
    fn transit_deserialize<D: TransitDeserializer>(deserializer: &mut D, input: &D::Input) -> (r:
        Result<Self, Error>)
        requires
            old(deserializer).wf(),
        ensures
            final(deserializer).wf(),
            match r {
                Ok(x) => old(deserializer).deserialized(
                    Self::spec_shape(),
                    input,
                    Ok(x.transit_value()),
                    final(deserializer),
                ),
                Err(e) => old(deserializer).deserialized(
                    Self::spec_shape(),
                    input,
                    Err(e.kind()),
                    final(deserializer),
                ),
            },
    {
        let shape = Self::shape();
        let ghost before = *deserializer;
        match deserializer.deserialize_value(&shape, input) {
            Ok(v) => {
                proof {
                    before.lemma_deserialized_admits(shape, input, v@, deserializer);
                }
                Self::from_value(v)
            },
            Err(e) => Err(e),
        }
    }

    /// Reads a value of this type from the key text `input`, with the decoder of any
    /// surface.
    fn transit_deserialize_key<D: TransitDeserializer>(deserializer: &D, input: &str) -> (r: Result<
        Self,
        Error,
    >)
        ensures
            match r {
                Ok(x) => deserializer.key_deserialized(
                    Self::spec_shape(),
                    input@,
                    Ok(x.transit_value()),
                ),
                Err(e) => deserializer.key_deserialized(Self::spec_shape(), input@, Err(e.kind())),
            },
    {
        let shape = Self::shape();
        match deserializer.deserialize_key(&shape, input) {
            Ok(v) => {
                proof {
                    deserializer.lemma_key_deserialized_admits(shape, input@, v@);
                }
                Self::from_value(v)
            },
            Err(e) => Err(e),
        }
    }
}

/// A type whose values all stand for well-formed logical values of the shape of the type:
/// what it takes for every value of the type to be read back from what was written for it.
pub trait OwnShape: TransitDeserialize {
    proof fn lemma_own_shape(&self)
        ensures
            Self::spec_shape().admits(self.transit_value()),
            self.transit_value().wf(),
    ;
}

} // verus!
