//! Encoding: from a logical value to a host tree. The traits say what an encoder of a
//! surface offers and what a type has to tell to be encoded; the modules below hold the two
//! JSON surfaces.

pub mod impls;
pub mod json;
pub mod json_verbose;
pub mod key;
pub mod record;

use crate::de::Error;
use crate::json::JsonV;
use crate::ser::key::key_form;
use crate::tilde::escape;
use crate::value::{Value, ValueV};
use vstd::prelude::*;

verus! {

/// A type that has a Transit form: it stands for one logical value, whatever the surface.
pub trait TransitSerialize {
    /// The logical value that `self` stands for. A type says which; one that does not is
    /// taken to stand for some value that nothing is known of.
    open spec fn transit_value(&self) -> ValueV {
        arbitrary()
    }

    /// The logical value that `self` stands for.
    fn to_value(&self) -> (v: Value)
        ensures
            v@ == self.transit_value(),
    ;

    /// Writes `self` where a value stands, with the encoder of any surface.
    fn transit_serialize<S: TransitSerializer>(&self, serializer: &mut S) -> (out: Result<
        S::Output,
        Error,
    >)
        requires
            old(serializer).wf(),
        ensures
            final(serializer).wf(),
            old(serializer).serialized(self.transit_value(), out, final(serializer)),
    {
        let v = self.to_value();
        serializer.serialize_value(&v)
    }

    /// Writes `self` where a key stands, with the encoder of any surface; `None` where
    /// `self` has no key form, which sends the map that holds the key into the `~#cmap`
    /// envelope.
    fn transit_serialize_key<KS: TransitKeySerializer>(&self, serializer: &mut KS) -> (out: Option<
        Result<KS::Output, Error>,
    >)
        requires
            old(serializer).ready(),
        ensures
            final(serializer).ready(),
            match out {
                Some(r) => key_form(self.transit_value()) is Some && old(serializer).key_written(
                    key_form(self.transit_value())->0,
                    r,
                    final(serializer),
                ),
                None => key_form(self.transit_value()) is None && *final(serializer) == *old(
                    serializer,
                ),
            },
    {
        let v = self.to_value();
        match v.key() {
            Some(text) => Some(serializer.serialize_key(text.as_str())),
            None => None,
        }
    }
}

/// What the encoder of a surface offers: the nodes of the scalars, the writers of the
/// composites, and the node of a whole value. What it gives out stands for a host tree.
pub trait TransitSerializer: Sized {
    type Output: View<V = JsonV>;

    type MapSerializer: TransitMapSerializer<Output = Self::Output, Encoder = Self>;

    type ArraySerializer: TransitArraySerializer<Output = Self::Output>;

    type TaggedMapSerializer: TransitTaggedMapSerializer<Output = Self::Output, Encoder = Self>;

    type TaggedArraySerializer: TransitTaggedArraySerializer<Output = Self::Output>;

    /// The encoder is fit for use.
    spec fn wf(&self) -> bool;

    /// The node `v` as this encoder gives it out: in the quoting envelope of the surface
    /// at the root of a document, else as it is.
    spec fn quoted(&self, v: JsonV) -> JsonV;

    /// `w` is what the encoder gives when it is asked, in the state `self`, for the writer
    /// of an array under the tag `tag`; `post` is the state that it is left in.
    spec fn tagged_array_opened(
        &self,
        tag: Seq<char>,
        w: Result<Self::TaggedArraySerializer, Error>,
        post: &Self,
    ) -> bool;

    /// `w` is what the encoder gives when it is asked, in the state `self`, for the writer
    /// of a map under the tag `tag`; `post` is the state that it is left in.
    spec fn tagged_map_opened(
        &self,
        tag: Seq<char>,
        w: Result<Self::TaggedMapSerializer, Error>,
        post: &Self,
    ) -> bool;

    /// `out` is what the encoder gives for the value `v` when it is in the state `self`,
    /// and `post` is the state that it is left in.
    spec fn serialized(&self, v: ValueV, out: Result<Self::Output, Error>, post: &Self) -> bool;

    /// The node of null.
    fn serialize_null(&self) -> (out: Self::Output)
        ensures
            out@ == self.quoted(JsonV::Null),
    ;

    /// Plain text, escaped where it would be taken for a code.
    fn serialize_string(&self, v: &str) -> (out: Self::Output)
        ensures
            out@ == self.quoted(JsonV::Str(escape(v@))),
    ;

    /// The node of a truth value.
    fn serialize_bool(&self, v: bool) -> (out: Self::Output)
        ensures
            out@ == self.quoted(JsonV::Bool(v)),
    ;

    /// The node of an integer.
    fn serialize_int(&self, v: i64) -> (out: Self::Output)
        ensures
            out@ == self.quoted(JsonV::Int(v)),
    ;

    /// Opens the writer of an array; `len` says how many items to make room for.
    fn serialize_array(&self, len: Option<usize>) -> (w: Self::ArraySerializer)
        ensures
            w.items() == Seq::<JsonV>::empty(),
    ;

    /// Opens the writer of a map; `len` says how many pairs to make room for. The writer
    /// picks the envelope of the map at its end, from the keys that it was given.
    fn serialize_map(&self, len: Option<usize>) -> (w: Self::MapSerializer)
        ensures
            w.pairs() == Seq::<(ValueV, ValueV)>::empty(),
    ;

    /// Opens the writer of an array under the tag `tag`.
    fn serialize_tagged_array(&mut self, tag: &str, len: Option<usize>) -> (w: Result<
        Self::TaggedArraySerializer,
        Error,
    >)
        requires
            old(self).wf(),
        ensures
            final(self).wf(),
            old(self).tagged_array_opened(tag@, w, final(self)),
            w matches Ok(x) ==> x.items() == Seq::<JsonV>::empty(),
    ;

    /// Opens the writer of a map under the tag `tag`. The writer picks the envelope of the
    /// map at its end, from the keys that it was given.
    fn serialize_tagged_map(&mut self, tag: &str, len: Option<usize>) -> (w: Result<
        Self::TaggedMapSerializer,
        Error,
    >)
        requires
            old(self).wf(),
        ensures
            final(self).wf(),
            old(self).tagged_map_opened(tag@, w, final(self)),
            w matches Ok(x) ==> x.pairs() == Seq::<(ValueV, ValueV)>::empty(),
    ;

    /// The node of the value `v`.
    fn serialize_value(&mut self, v: &Value) -> (out: Result<Self::Output, Error>)
        requires
            old(self).wf(),
        ensures
            final(self).wf(),
            old(self).serialized(v@, out, final(self)),
    ;
}

/// What an encoder offers for the text of a key. What it gives out stands for a text.
pub trait TransitKeySerializer: Sized {
    type Output: View<V = Seq<char>>;

    /// The encoder is fit for use.
    spec fn ready(&self) -> bool;

    /// `out` is what the encoder gives for the key text `v` when it is in the state
    /// `self`, and `post` is the state that it is left in.
    spec fn key_written(&self, v: Seq<char>, out: Result<Self::Output, Error>, post: &Self) -> bool;

    /// The text to write for the key text `v`.
    fn serialize_key(&mut self, v: &str) -> (out: Result<Self::Output, Error>)
        requires
            old(self).ready(),
        ensures
            final(self).ready(),
            old(self).key_written(v@, out, final(self)),
    ;
}

/// The writer of an array: it takes the nodes of the items and gives the array.
pub trait TransitArraySerializer: Sized {
    type Output: View<V = JsonV>;

    /// The nodes taken so far.
    spec fn items(&self) -> Seq<JsonV>;

    /// Takes the node of the next item.
    fn serialize_item(&mut self, v: Self::Output)
        ensures
            final(self).items() == old(self).items().push(v@),
    ;

    /// The array of the nodes taken.
    fn end(self) -> (out: Self::Output)
        ensures
            out@ == JsonV::Array(self.items()),
    ;
}

/// The writer of a map: it takes keys and values, pair by pair, and at its end picks the
/// envelope and gives the map: the envelope of key forms if and only if every key that it
/// took has a key form, else the `~#cmap` envelope. The encoder that opened the writer
/// writes the keys and values at the end, so that what it does to its state is done in the
/// order of the document.
pub trait TransitMapSerializer: Sized {
    type Output: View<V = JsonV>;

    /// The encoder that opened the writer.
    type Encoder;

    /// The pairs taken so far, keys first.
    spec fn pairs(&self) -> Seq<(ValueV, ValueV)>;

    /// The encoder is fit for use.
    spec fn fit(encoder: &Self::Encoder) -> bool;

    /// `out` is the map of the pairs taken, as the encoder writes it when it is in the
    /// state `encoder`, and `post` is the state that the encoder is left in.
    spec fn finished(
        &self,
        encoder: &Self::Encoder,
        out: Result<Self::Output, Error>,
        post: &Self::Encoder,
    ) -> bool;

    /// Takes the next pair.
    fn serialize_pair(&mut self, k: Value, v: Value)
        ensures
            final(self).pairs() == old(self).pairs().push((k@, v@)),
    ;

    /// The map of the pairs taken, in the envelope that their keys call for.
    fn end(self, encoder: &mut Self::Encoder) -> (out: Result<Self::Output, Error>)
        requires
            Self::fit(old(encoder)),
        ensures
            Self::fit(final(encoder)),
            self.finished(old(encoder), out, final(encoder)),
    ;
}

/// The writer of an array under a tag.
pub trait TransitTaggedArraySerializer: Sized {
    type Output: View<V = JsonV>;

    /// The text that stands for the tag.
    spec fn tag(&self) -> Seq<char>;

    /// The nodes taken so far.
    spec fn items(&self) -> Seq<JsonV>;

    /// The array of the items taken so far, under its tag.
    spec fn node(&self) -> JsonV;

    /// Takes the node of the next item.
    fn serialize_item(&mut self, v: Self::Output)
        ensures
            final(self).tag() == old(self).tag(),
            final(self).items() == old(self).items().push(v@),
    ;

    /// The array of the nodes taken, under its tag.
    fn end(self) -> (out: Self::Output)
        ensures
            out@ == self.node(),
    ;
}

/// The writer of a map under a tag: as the writer of a map, with the tag around the map.
pub trait TransitTaggedMapSerializer: Sized {
    type Output: View<V = JsonV>;

    /// The encoder that opened the writer.
    type Encoder;

    /// The text that stands for the tag.
    spec fn tag(&self) -> Seq<char>;

    /// The pairs taken so far, keys first.
    spec fn pairs(&self) -> Seq<(ValueV, ValueV)>;

    /// The encoder is fit for use.
    spec fn fit(encoder: &Self::Encoder) -> bool;

    /// `out` is the map of the pairs taken under its tag, as the encoder writes it when it
    /// is in the state `encoder`, and `post` is the state that the encoder is left in.
    spec fn finished(
        &self,
        encoder: &Self::Encoder,
        out: Result<Self::Output, Error>,
        post: &Self::Encoder,
    ) -> bool;

    /// Takes the next pair.
    fn serialize_pair(&mut self, k: Value, v: Value)
        ensures
            final(self).tag() == old(self).tag(),
            final(self).pairs() == old(self).pairs().push((k@, v@)),
    ;

    /// The map of the pairs taken, in the envelope that their keys call for and under its
    /// tag.
    fn end(self, encoder: &mut Self::Encoder) -> (out: Result<Self::Output, Error>)
        requires
            Self::fit(old(encoder)),
        ensures
            Self::fit(final(encoder)),
            self.finished(old(encoder), out, final(encoder)),
    ;
}

} // verus!
