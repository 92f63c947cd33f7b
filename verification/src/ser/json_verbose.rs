//! The verbose JSON surface: maps become objects, tagged composites become objects with
//! the tag as their one key, and nothing is cached.

use crate::de::{Error, TransitType};
use crate::envelope::lemma_encode_document_wf;
use crate::json::{
    array_view, insert, insert_member, lemma_array_view, lemma_array_view_push, object_view, Json,
    JsonV,
};
use crate::ser::{
    TransitArraySerializer, TransitKeySerializer, TransitMapSerializer, TransitSerialize,
    TransitSerializer, TransitTaggedArraySerializer, TransitTaggedMapSerializer,
};
use crate::ser::key::key_form;
use crate::tilde::{
    cmap_tag, cmap_text, escape, escaped, instant_prefix, instant_text, quote_tag, quote_text,
    set_tag,
};
use crate::value::{
    items_view, lemma_items_view, lemma_pairs_view, lemma_pairs_view_push, pairs_view, Value,
    ValueV,
};
use vstd::prelude::*;

verus! {

/// The object with the one member `tag`: the envelope of a tagged composite.
pub open spec fn tagged(tag: Seq<char>, payload: JsonV) -> JsonV {
    JsonV::Object(seq![(tag, payload)])
}

/// The node of a scalar where a value stands.
pub open spec fn scalar_json(v: ValueV) -> JsonV {
    match v {
        ValueV::Bool(b) => JsonV::Bool(b),
        ValueV::Int(n) => JsonV::Int(n),
        ValueV::Str(s) => JsonV::Str(escape(s)),
        ValueV::Instant(t) => JsonV::Str(instant_prefix() + t),
        _ => JsonV::Null,
    }
}

/// Whether every key of `pairs` has a key form.
pub open spec fn all_scalar_keys(pairs: Seq<(ValueV, ValueV)>) -> bool {
    forall|i: int| 0 <= i < pairs.len() ==> key_form((#[trigger] pairs[i]).0) is Some
}

/// The key forms of the keys of `pairs`, in order.
pub open spec fn key_texts(pairs: Seq<(ValueV, ValueV)>) -> Seq<Seq<char>> {
    Seq::new(pairs.len(), |i: int| key_form(pairs[i].0)->0)
}

/// The members of the object that holds `values[i]` under `keys[i]`, the pairs inserted
/// in order.
pub open spec fn object_of(keys: Seq<Seq<char>>, values: Seq<JsonV>) -> Seq<(Seq<char>, JsonV)>
    decreases keys.len(),
{
    if keys.len() == 0 || values.len() != keys.len() {
        Seq::empty()
    } else {
        insert_member(object_of(keys.drop_last(), values.drop_last()), keys.last(), values.last())
    }
}

/// `a[0], b[0], a[1], b[1], ...` for two sequences of one length.
pub open spec fn alternate<T>(a: Seq<T>, b: Seq<T>) -> Seq<T> {
    Seq::new(
        2 * a.len(),
        |i: int|
            if i % 2 == 0 {
                a[i / 2]
            } else {
                b[i / 2]
            },
    )
}

/// The verbose node of a value that is not the root of a document.
pub open spec fn encode(v: ValueV) -> JsonV
    decreases v,
{
    match v {
        ValueV::List(items) => JsonV::Array(encode_items(items)),
        ValueV::SetOf(items) => tagged(set_tag(), JsonV::Array(encode_items(items))),
        ValueV::MapOf(pairs) => map_envelope(
            all_scalar_keys(pairs),
            key_texts(pairs),
            encode_keys(pairs),
            encode_values(pairs),
        ),
        ValueV::TaggedArray(tag, items) => tagged(tag, JsonV::Array(encode_items(items))),
        ValueV::TaggedMap(tag, pairs) => tagged(
            tag,
            map_envelope(
                all_scalar_keys(pairs),
                key_texts(pairs),
                encode_keys(pairs),
                encode_values(pairs),
            ),
        ),
        _ => scalar_json(v),
    }
}

/// The envelope of a map: an object of key forms where every key has one, else the
/// `~#cmap` envelope around keys and values in turn, the keys as values.
pub open spec fn map_envelope(
    scalar_keys: bool,
    texts: Seq<Seq<char>>,
    keys: Seq<JsonV>,
    values: Seq<JsonV>,
) -> JsonV {
    if scalar_keys {
        JsonV::Object(object_of(texts, values))
    } else {
        tagged(cmap_tag(), JsonV::Array(alternate(keys, values)))
    }
}

/// The verbose nodes of `items`, in order.
pub open spec fn encode_items(items: Seq<ValueV>) -> Seq<JsonV>
    decreases items,
{
    if items.len() == 0 {
        Seq::empty()
    } else {
        encode_items(items.drop_last()).push(encode(items.last()))
    }
}

/// The verbose nodes of the keys of `pairs`, each as a value, in order.
pub open spec fn encode_keys(pairs: Seq<(ValueV, ValueV)>) -> Seq<JsonV>
    decreases pairs,
{
    if pairs.len() == 0 {
        Seq::empty()
    } else {
        encode_keys(pairs.drop_last()).push(encode(pairs.last().0))
    }
}

/// The verbose nodes of the values of `pairs`, in order.
pub open spec fn encode_values(pairs: Seq<(ValueV, ValueV)>) -> Seq<JsonV>
    decreases pairs,
{
    if pairs.len() == 0 {
        Seq::empty()
    } else {
        encode_values(pairs.drop_last()).push(encode(pairs.last().1))
    }
}

/// The verbose document of a value: a scalar is quoted, so that the root is a composite.
pub open spec fn encode_document(v: ValueV) -> JsonV {
    if v.kind() == TransitType::Scalar {
        tagged(quote_tag(), scalar_json(v))
    } else {
        encode(v)
    }
}

/// The nodes of a sequence stand at the places of its values.
pub proof fn lemma_encode_items(items: Seq<ValueV>)
    ensures
        encode_items(items).len() == items.len(),
        forall|i: int|
            0 <= i < items.len() ==> (#[trigger] encode_items(items)[i]) == encode(items[i]),
    decreases items.len(),
{
    if items.len() > 0 {
        lemma_encode_items(items.drop_last());
        assert(encode_items(items) == encode_items(items.drop_last()).push(encode(items.last())));
    } else {
        assert(encode_items(items).len() == 0);
    }
}

/// The nodes of the keys of a map stand at the places of its pairs.
pub proof fn lemma_encode_keys(pairs: Seq<(ValueV, ValueV)>)
    ensures
        encode_keys(pairs).len() == pairs.len(),
        forall|i: int|
            0 <= i < pairs.len() ==> (#[trigger] encode_keys(pairs)[i]) == encode(pairs[i].0),
    decreases pairs.len(),
{
    if pairs.len() > 0 {
        lemma_encode_keys(pairs.drop_last());
        assert(encode_keys(pairs) == encode_keys(pairs.drop_last()).push(encode(pairs.last().0)));
    } else {
        assert(encode_keys(pairs).len() == 0);
    }
}

/// The nodes of the values of a map stand at the places of its pairs.
pub proof fn lemma_encode_values(pairs: Seq<(ValueV, ValueV)>)
    ensures
        encode_values(pairs).len() == pairs.len(),
        forall|i: int|
            0 <= i < pairs.len() ==> (#[trigger] encode_values(pairs)[i]) == encode(pairs[i].1),
    decreases pairs.len(),
{
    if pairs.len() > 0 {
        lemma_encode_values(pairs.drop_last());
        assert(encode_values(pairs) == encode_values(pairs.drop_last()).push(
            encode(pairs.last().1),
        ));
    } else {
        assert(encode_values(pairs).len() == 0);
    }
}

/// What alternating between two iterators gives: the first of `a`, the first of `b`, the
/// second of `a`, and so on; where one of them has run out, what is left of the other.
pub open spec fn interleaved<T>(a: Seq<T>, b: Seq<T>) -> Seq<T>
    decreases a.len() + b.len(),
{
    if a.len() == 0 {
        b
    } else {
        seq![a[0]] + interleaved(b, a.drop_first())
    }
}

/// Of two sequences of one length, alternating between them gives each pair in turn.
pub proof fn lemma_interleaved<T>(a: Seq<T>, b: Seq<T>)
    requires
        a.len() == b.len(),
    ensures
        interleaved(a, b) == alternate(a, b),
    decreases a.len(),
{
    if a.len() == 0 {
        assert(interleaved(a, b) =~= alternate(a, b));
    } else {
        let a1 = a.drop_first();
        let b1 = b.drop_first();
        lemma_interleaved(a1, b1);
        assert(interleaved(a, b) == seq![a[0]] + interleaved(b, a1));
        assert(interleaved(b, a1) == seq![b[0]] + interleaved(a1, b1));
        assert forall|i: int| 0 <= i < 2 * a.len() implies interleaved(a, b)[i] == alternate(
            a,
            b,
        )[i] by {
            if i >= 2 {
                assert(interleaved(a, b)[i] == alternate(a1, b1)[i - 2]);
                assert((i - 2) / 2 + 1 == i / 2);
            }
        }
        assert(interleaved(a, b) =~= alternate(a, b));
    }
}

/// Alternates between the nodes of `keys` and of `values`.
///
/// Trusted: calls `itertools::interleave` and collects what it yields. That iterator
/// takes its items from its two sources in turn, starting with the first, and goes on with
/// the other source alone once one has run out.
#[verifier::external_body]
fn interleave(keys: Vec<Json>, values: Vec<Json>) -> (r: Vec<Json>)
    ensures
        r@ == interleaved(keys@, values@),
{
    itertools::interleave(keys, values).collect()
}

/// The texts of `keys`, where each of them is a string.
pub open spec fn texts_of(keys: Seq<JsonV>) -> Seq<Seq<char>> {
    Seq::new(keys.len(), |i: int| keys[i]->Str_0)
}

/// The writer of an array: it takes the nodes of the items and gives the array.
pub struct JsonArraySerializer {
    buf: Vec<Json>,
}

impl TransitArraySerializer for JsonArraySerializer {
    type Output = Json;

    closed spec fn items(&self) -> Seq<JsonV> {
        array_view(self.buf@)
    }

    fn serialize_item(&mut self, v: Json) {
        proof {
            lemma_array_view_push(self.buf@, v);
        }
        self.buf.push(v);
    }

    fn end(self) -> (out: Json) {
        Json::Array(self.buf)
    }
}

/// The nodes of a map that is being written: the nodes of keys and values, pair by pair,
/// for the envelope that the keys of the map call for.
struct MapNodes {
    buf_keys: Vec<Json>,
    buf_vals: Vec<Json>,
    cmap: bool,
}

impl MapNodes {
    /// Whether the map goes into the `~#cmap` envelope.
    spec fn is_cmap(&self) -> bool {
        self.cmap
    }

    /// The nodes of the keys taken so far.
    spec fn keys(&self) -> Seq<JsonV> {
        array_view(self.buf_keys@)
    }

    /// The nodes of the values taken so far.
    spec fn values(&self) -> Seq<JsonV> {
        array_view(self.buf_vals@)
    }

    /// The object of the keys and values where the writer was opened for one, else the
    /// `~#cmap` envelope around them.
    spec fn node(&self) -> JsonV {
        map_envelope(!self.is_cmap(), texts_of(self.keys()), self.keys(), self.values())
    }

    /// As many keys as values were taken; for the object envelope every key is a string.
    spec fn wf(&self) -> bool {
        &&& self.buf_keys@.len() == self.buf_vals@.len()
        &&& !self.cmap ==> forall|i: int|
            0 <= i < self.buf_keys@.len() ==> (#[trigger] self.buf_keys@[i]) is Str
    }

    /// For the object envelope the next key has to be a string.
    spec fn takes(&self, k: &Json) -> bool {
        !self.is_cmap() ==> k is Str
    }

    /// No nodes yet, for the `~#cmap` envelope where `cmap`; `len` says how many pairs to
    /// make room for.
    fn open(len: Option<usize>, cmap: bool) -> (w: MapNodes)
        ensures
            w.wf(),
            w.is_cmap() == cmap,
            w.keys() == Seq::<JsonV>::empty(),
            w.values() == Seq::<JsonV>::empty(),
    {
        let w = if let Some(len) = len {
            MapNodes { buf_keys: Vec::with_capacity(len), buf_vals: Vec::with_capacity(len), cmap }
        } else {
            MapNodes { buf_keys: Vec::new(), buf_vals: Vec::new(), cmap }
        };
        assert(array_view(w.buf_keys@) =~= Seq::empty());
        assert(array_view(w.buf_vals@) =~= Seq::empty());
        w
    }

    /// Takes the nodes of the next pair.
    fn push(&mut self, k: Json, v: Json)
        requires
            old(self).wf(),
            old(self).takes(&k),
        ensures
            final(self).wf(),
            final(self).is_cmap() == old(self).is_cmap(),
            final(self).keys() == old(self).keys().push(k@),
            final(self).values() == old(self).values().push(v@),
    {
        proof {
            lemma_array_view_push(self.buf_keys@, k);
            lemma_array_view_push(self.buf_vals@, v);
        }
        self.buf_keys.push(k);
        self.buf_vals.push(v);
    }

    /// The map of the pairs taken, in its envelope.
    fn finish(self) -> (out: Json)
        requires
            self.wf(),
        ensures
            out@ == self.node(),
    {
        let ghost keys = self.keys();
        let ghost values = self.values();
        proof {
            lemma_array_view(self.buf_keys@);
            lemma_array_view(self.buf_vals@);
        }
        if self.cmap {
            let interleaved = interleave(self.buf_keys, self.buf_vals);
            proof {
                lemma_interleaved(self.buf_keys@, self.buf_vals@);
                lemma_array_view(interleaved@);
                assert(array_view(interleaved@) =~= alternate(keys, values));
            }
            let mut m: Vec<(String, Json)> = Vec::with_capacity(1);
            insert(&mut m, cmap_text(), Json::Array(interleaved));
            let out = Json::Object(m);
            assert(object_view(Seq::<(String, Json)>::empty()) =~= Seq::empty());
            assert(out@->Object_0 =~= seq![(cmap_tag(), JsonV::Array(alternate(keys, values)))]);
            out
        } else {
            let mut buf_keys = self.buf_keys;
            let mut buf_vals = self.buf_vals;
            let mut m: Vec<(String, Json)> = Vec::with_capacity(buf_keys.len());
            assert(object_view(m@) =~= object_of(texts_of(keys).take(0), values.take(0)));
            let mut i: usize = 0;
            while i < buf_keys.len()
                invariant
                    i <= buf_keys@.len(),
                    buf_keys@.len() == keys.len(),
                    buf_vals@.len() == keys.len(),
                    values.len() == keys.len(),
                    forall|j: int| i <= j < keys.len() ==> (#[trigger] buf_keys@[j]) is Str,
                    forall|j: int| i <= j < keys.len() ==> (#[trigger] buf_keys@[j])@ == keys[j],
                    forall|j: int| i <= j < keys.len() ==> (#[trigger] buf_vals@[j])@ == values[j],
                    object_view(m@) == object_of(
                        texts_of(keys).take(i as int),
                        values.take(i as int),
                    ),
                decreases buf_keys@.len() - i,
            {
                let mut key = Json::Null;
                let mut value = Json::Null;
                core::mem::swap(&mut buf_keys[i], &mut key);
                core::mem::swap(&mut buf_vals[i], &mut value);
                let text = match key {
                    Json::Str(text) => text,
                    _ => String::new(),
                };
                insert(&mut m, text, value);
                proof {
                    let texts = texts_of(keys);
                    assert(texts.take(i + 1).drop_last() =~= texts.take(i as int));
                    assert(values.take(i + 1).drop_last() =~= values.take(i as int));
                    assert(texts.take(i + 1).last() == keys[i as int]->Str_0);
                    assert(values.take(i + 1).last() == values[i as int]);
                }
                i += 1;
            }
            assert(texts_of(keys).take(keys.len() as int) =~= texts_of(keys));
            assert(values.take(keys.len() as int) =~= values);
            Json::Object(m)
        }
    }
}

/// The writer of a map: it takes keys and values, pair by pair, and at its end gives the
/// map in the envelope that the keys call for.
pub struct JsonMapSerializer {
    pairs: Vec<(Value, Value)>,
}

impl TransitMapSerializer for JsonMapSerializer {
    type Output = Json;

    type Encoder = JsonSerializer;

    closed spec fn pairs(&self) -> Seq<(ValueV, ValueV)> {
        pairs_view(self.pairs@)
    }

    open spec fn fit(encoder: &JsonSerializer) -> bool {
        true
    }

    /// The verbose surface gives the object of the key forms where every key taken has a
    /// key form, else the `~#cmap` envelope around keys and values in turn; it never fails
    /// and has no state to change.
    open spec fn finished(
        &self,
        encoder: &JsonSerializer,
        out: Result<Json, Error>,
        post: &JsonSerializer,
    ) -> bool {
        &&& out matches Ok(j) && j@ == map_envelope(
            all_scalar_keys(self.pairs()),
            key_texts(self.pairs()),
            encode_keys(self.pairs()),
            encode_values(self.pairs()),
        )
        &&& *post == *encoder
    }

    fn serialize_pair(&mut self, k: Value, v: Value) {
        proof {
            lemma_pairs_view_push(self.pairs@, (k, v));
        }
        self.pairs.push((k, v));
    }

    fn end(self, encoder: &mut JsonSerializer) -> (out: Result<Json, Error>) {
        Ok(JsonSerializer::serialize_map_iter(encoder, &self.pairs))
    }
}

/// The writer of a tagged array.
pub struct JsonTaggedArraySerializer {
    tag: String,
    array_serializer: JsonArraySerializer,
}

impl TransitTaggedArraySerializer for JsonTaggedArraySerializer {
    type Output = Json;

    closed spec fn tag(&self) -> Seq<char> {
        self.tag@
    }

    closed spec fn items(&self) -> Seq<JsonV> {
        self.array_serializer.items()
    }

    /// The object with the tag as its one key and the array of the items under it.
    open spec fn node(&self) -> JsonV {
        tagged(self.tag(), JsonV::Array(self.items()))
    }

    fn serialize_item(&mut self, v: Json) {
        self.array_serializer.serialize_item(v);
    }

    fn end(self) -> (out: Json) {
        let val = self.array_serializer.end();
        tagged_node(self.tag, val)
    }
}

/// The writer of a tagged map.
pub struct JsonTaggedMapSerializer {
    tag: String,
    map_serializer: JsonMapSerializer,
}

impl TransitTaggedMapSerializer for JsonTaggedMapSerializer {
    type Output = Json;

    type Encoder = JsonSerializer;

    closed spec fn tag(&self) -> Seq<char> {
        self.tag@
    }

    closed spec fn pairs(&self) -> Seq<(ValueV, ValueV)> {
        self.map_serializer.pairs()
    }

    open spec fn fit(encoder: &JsonSerializer) -> bool {
        true
    }

    /// The verbose surface gives the object with the tag as its one key and, under it, the
    /// map in the envelope that the keys taken call for.
    open spec fn finished(
        &self,
        encoder: &JsonSerializer,
        out: Result<Json, Error>,
        post: &JsonSerializer,
    ) -> bool {
        &&& out matches Ok(j) && j@ == tagged(
            self.tag(),
            map_envelope(
                all_scalar_keys(self.pairs()),
                key_texts(self.pairs()),
                encode_keys(self.pairs()),
                encode_values(self.pairs()),
            ),
        )
        &&& *post == *encoder
    }

    fn serialize_pair(&mut self, k: Value, v: Value) {
        self.map_serializer.serialize_pair(k, v);
    }

    fn end(self, encoder: &mut JsonSerializer) -> (out: Result<Json, Error>) {
        match self.map_serializer.end(encoder) {
            Ok(val) => Ok(tagged_node(self.tag, val)),
            Err(e) => Err(e),
        }
    }
}

/// The object with the one member `tag`.
pub fn tagged_node(tag: String, payload: Json) -> (out: Json)
    ensures
        out@ == tagged(tag@, payload@),
{
    let mut m: Vec<(String, Json)> = Vec::with_capacity(1);
    assert(object_view(m@) =~= Seq::empty());
    insert(&mut m, tag, payload);
    let out = Json::Object(m);
    assert(out@->Object_0 =~= seq![(tag@, payload@)]);
    out
}

/// The verbose encoder. The one at the root of a document quotes a scalar; the encoders
/// of what lies inside do not.
pub struct JsonSerializer {
    top_level: bool,
}

impl Default for JsonSerializer {
    fn default() -> (s: Self)
        ensures
            !s.is_top(),
    {
        JsonSerializer { top_level: false }
    }
}

impl JsonSerializer {
    /// Whether this is the encoder of the root of a document.
    pub closed spec fn is_top(&self) -> bool {
        self.top_level
    }

    /// The node `v` as this encoder gives it out: quoted at the root, else as it is.
    pub open spec fn quoted_node(&self, v: JsonV) -> JsonV {
        if self.is_top() {
            tagged(quote_tag(), v)
        } else {
            v
        }
    }

    /// The encoder of the root of a document.
    pub fn top() -> (s: Self)
        ensures
            s.is_top(),
    {
        JsonSerializer { top_level: true }
    }

    fn quote_check(&self, v: Json) -> (out: Json)
        ensures
            out@ == self.quoted(v@),
    {
        if self.top_level {
            tagged_node(quote_text(), v)
        } else {
            v
        }
    }

    /// The node of null.
    pub fn serialize_null(&self) -> (out: Json)
        ensures
            out@ == self.quoted(JsonV::Null),
    {
        self.quote_check(Json::Null)
    }

    /// Plain text, escaped where it would be taken for a code.
    pub fn serialize_string(&self, v: &str) -> (out: Json)
        ensures
            out@ == self.quoted(JsonV::Str(escape(v@))),
    {
        self.quote_check(Json::Str(escaped(v)))
    }

    /// The node of a truth value.
    pub fn serialize_bool(&self, v: bool) -> (out: Json)
        ensures
            out@ == self.quoted(JsonV::Bool(v)),
    {
        self.quote_check(Json::Bool(v))
    }

    /// The node of an integer.
    pub fn serialize_int(&self, v: i64) -> (out: Json)
        ensures
            out@ == self.quoted(JsonV::Int(v)),
    {
        self.quote_check(Json::Int(v))
    }

    /// An instant, given as its text.
    pub fn serialize_instant(&self, v: &str) -> (out: Json)
        ensures
            out@ == self.quoted(JsonV::Str(instant_prefix() + v@)),
    {
        self.quote_check(Json::Str(instant_text(v)))
    }

    /// Opens the writer of an array; `len` says how many items to make room for.
    pub fn serialize_array(&self, len: Option<usize>) -> (w: JsonArraySerializer)
        ensures
            w.items() == Seq::<JsonV>::empty(),
    {
        let buf: Vec<Json> = if let Some(len) = len {
            Vec::with_capacity(len)
        } else {
            Vec::new()
        };
        assert(array_view(buf@) =~= Seq::empty());
        JsonArraySerializer { buf }
    }

    /// Opens the writer of a map; `len` says how many pairs to make room for.
    pub fn serialize_map(&self, len: Option<usize>) -> (w: JsonMapSerializer)
        ensures
            w.pairs() == Seq::<(ValueV, ValueV)>::empty(),
    {
        let pairs: Vec<(Value, Value)> = if let Some(len) = len {
            Vec::with_capacity(len)
        } else {
            Vec::new()
        };
        assert(pairs_view(pairs@) =~= Seq::empty());
        JsonMapSerializer { pairs }
    }

    /// Opens the writer of an array under the tag `tag`.
    pub fn serialize_tagged_array(&self, tag: &str, len: Option<usize>) -> (w:
        JsonTaggedArraySerializer)
        ensures
            w.tag() == tag@,
            w.items() == Seq::<JsonV>::empty(),
    {
        JsonTaggedArraySerializer {
            tag: tag.to_owned(),
            array_serializer: self.serialize_array(len),
        }
    }

    /// Opens the writer of a map under the tag `tag`.
    pub fn serialize_tagged_map(&self, tag: &str, len: Option<usize>) -> (w:
        JsonTaggedMapSerializer)
        ensures
            w.tag() == tag@,
            w.pairs() == Seq::<(ValueV, ValueV)>::empty(),
    {
        JsonTaggedMapSerializer { tag: tag.to_owned(), map_serializer: self.serialize_map(len) }
    }

    /// The key as the verbose surface writes it: the text itself.
    pub fn serialize_key(&self, v: &str) -> (out: String)
        ensures
            out@ == v@,
    {
        v.to_owned()
    }

    /// The array of `items`.
    pub fn serialize_array_iter(&self, items: &Vec<Value>) -> (out: Json)
        ensures
            out@ == JsonV::Array(encode_items(items_view(items@))),
        decreases items, 0nat,
    {
        let inner = JsonSerializer::default();
        let mut w = self.serialize_array(Some(items.len()));
        let mut i: usize = 0;
        while i < items.len()
            invariant
                i <= items.len(),
                !inner.is_top(),
                w.items().len() == i,
                forall|j: int| 0 <= j < i ==> (#[trigger] w.items()[j]) == encode(items@[j]@),
            decreases items.len() - i,
        {
            let node = inner.serialize_value(&items[i]);
            w.serialize_item(node);
            i += 1;
        }
        proof {
            lemma_items_view(items@);
            lemma_encode_items(items_view(items@));
            assert(w.items() =~= encode_items(items_view(items@)));
        }
        w.end()
    }

    /// Fills the writer of a map with `pairs`: each key as its key form where the map goes
    /// into an object, as a value where it goes into the `~#cmap` envelope.
    fn map_pairs(&self, w: &mut MapNodes, pairs: &Vec<(Value, Value)>)
        requires
            old(w).wf(),
            old(w).keys().len() == 0,
            old(w).values().len() == 0,
            old(w).is_cmap() == !all_scalar_keys(pairs_view(pairs@)),
        ensures
            final(w).wf(),
            final(w).is_cmap() == old(w).is_cmap(),
            map_envelope(
                !final(w).is_cmap(),
                texts_of(final(w).keys()),
                final(w).keys(),
                final(w).values(),
            ) == encode(ValueV::MapOf(pairs_view(pairs@))),
        decreases pairs, 0nat,
    {
        let inner = JsonSerializer::default();
        let ghost pv = pairs_view(pairs@);
        let cmap = !scalar_keys(pairs);
        proof {
            lemma_pairs_view(pairs@);
        }
        let mut i: usize = 0;
        while i < pairs.len()
            invariant
                i <= pairs.len(),
                !inner.is_top(),
                pv == pairs_view(pairs@),
                pv.len() == pairs@.len(),
                forall|j: int|
                    0 <= j < pairs@.len() ==> (#[trigger] pv[j]) == (pairs@[j].0@, pairs@[j].1@),
                cmap == !all_scalar_keys(pv),
                w.wf(),
                w.is_cmap() == cmap,
                w.keys().len() == i,
                w.values().len() == i,
                forall|j: int| 0 <= j < i ==> (#[trigger] w.values()[j]) == encode(pv[j].1),
                cmap ==> forall|j: int| 0 <= j < i ==> (#[trigger] w.keys()[j]) == encode(pv[j].0),
                !cmap ==> forall|j: int|
                    0 <= j < i ==> (#[trigger] w.keys()[j]) == JsonV::Str(key_form(pv[j].0)->0),
            decreases pairs.len() - i,
        {
            let k = if cmap {
                inner.serialize_value(&pairs[i].0)
            } else {
                assert(key_form(pv[i as int].0) is Some);
                let text = pairs[i].0.key().unwrap();
                Json::Str(self.serialize_key(text.as_str()))
            };
            let v = inner.serialize_value(&pairs[i].1);
            w.push(k, v);
            i += 1;
        }
        proof {
            lemma_encode_keys(pv);
            lemma_encode_values(pv);
            assert(w.values() =~= encode_values(pv));
            if cmap {
                assert(w.keys() =~= encode_keys(pv));
            } else {
                assert(texts_of(w.keys()) =~= key_texts(pv));
            }
        }
    }

    /// The map of `pairs`.
    pub fn serialize_map_iter(&self, pairs: &Vec<(Value, Value)>) -> (out: Json)
        ensures
            out@ == encode(ValueV::MapOf(pairs_view(pairs@))),
        decreases pairs, 1nat,
    {
        let cmap = !scalar_keys(pairs);
        let mut w = MapNodes::open(Some(pairs.len()), cmap);
        self.map_pairs(&mut w, pairs);
        w.finish()
    }

    /// The array of `items` under the tag `tag`.
    pub fn serialize_tagged_array_iter(&self, tag: &str, items: &Vec<Value>) -> (out: Json)
        ensures
            out@ == tagged(tag@, JsonV::Array(encode_items(items_view(items@)))),
        decreases items, 1nat,
    {
        let payload = self.serialize_array_iter(items);
        tagged_node(tag.to_owned(), payload)
    }

    /// The map of `pairs` under the tag `tag`.
    pub fn serialize_tagged_map_iter(&self, tag: &str, pairs: &Vec<(Value, Value)>) -> (out: Json)
        ensures
            out@ == tagged(tag@, encode(ValueV::MapOf(pairs_view(pairs@)))),
        decreases pairs, 2nat,
    {
        let payload = self.serialize_map_iter(pairs);
        tagged_node(tag.to_owned(), payload)
    }

    /// The node of `v`: the document of `v` from the encoder of the root, else the node of
    /// `v` as it stands inside a document.
    pub fn serialize_value(&self, v: &Value) -> (out: Json)
        ensures
            out@ == if self.is_top() {
                encode_document(v@)
            } else {
                encode(v@)
            },
        decreases v, 0nat,
    {
        match v {
            Value::Null => self.serialize_null(),
            Value::Bool(b) => self.serialize_bool(*b),
            Value::Int(n) => self.serialize_int(*n),
            Value::Str(s) => self.serialize_string(s.as_str()),
            Value::Instant(t) => self.serialize_instant(t.as_str()),
            Value::List(items) => self.serialize_array_iter(items),
            Value::SetOf(items) => {
                proof {
                    reveal_strlit("~#set");
                    assert("~#set"@ =~= set_tag());
                }
                self.serialize_tagged_array_iter("~#set", items)
            },
            Value::MapOf(pairs) => self.serialize_map_iter(pairs),
            Value::TaggedArray(tag, items) => self.serialize_tagged_array_iter(tag.as_str(), items),
            Value::TaggedMap(tag, pairs) => self.serialize_tagged_map_iter(tag.as_str(), pairs),
        }
    }
}

impl TransitKeySerializer for JsonSerializer {
    type Output = String;

    open spec fn ready(&self) -> bool {
        true
    }

    /// The verbose surface writes a key as the text itself, and has no state to change.
    open spec fn key_written(&self, v: Seq<char>, out: Result<String, Error>, post: &Self) -> bool {
        out matches Ok(text) && text@ == v && *post == *self
    }

    fn serialize_key(&mut self, v: &str) -> (out: Result<String, Error>) {
        Ok(v.to_owned())
    }
}

impl TransitSerializer for JsonSerializer {
    type Output = Json;

    type ArraySerializer = JsonArraySerializer;

    type MapSerializer = JsonMapSerializer;

    type TaggedArraySerializer = JsonTaggedArraySerializer;

    type TaggedMapSerializer = JsonTaggedMapSerializer;

    open spec fn wf(&self) -> bool {
        true
    }

    /// At the root a node goes into the object with the one key `~#`.
    open spec fn quoted(&self, v: JsonV) -> JsonV {
        self.quoted_node(v)
    }

    /// The verbose surface writes a tag as it is.
    open spec fn tagged_array_opened(
        &self,
        tag: Seq<char>,
        w: Result<JsonTaggedArraySerializer, Error>,
        post: &Self,
    ) -> bool {
        w matches Ok(x) && x.tag() == tag && *post == *self
    }

    /// The verbose surface writes a tag as it is.
    open spec fn tagged_map_opened(
        &self,
        tag: Seq<char>,
        w: Result<JsonTaggedMapSerializer, Error>,
        post: &Self,
    ) -> bool {
        w matches Ok(x) && x.tag() == tag && *post == *self
    }

    /// The verbose surface gives the document of the value at the root and the node of
    /// the value elsewhere, never fails, and has no state to change.
    open spec fn serialized(&self, v: ValueV, out: Result<Json, Error>, post: &Self) -> bool {
        &&& out matches Ok(j) && j@ == if self.is_top() {
            encode_document(v)
        } else {
            encode(v)
        }
        &&& *post == *self
    }

    fn serialize_null(&self) -> (out: Json) {
        JsonSerializer::serialize_null(self)
    }

    fn serialize_string(&self, v: &str) -> (out: Json) {
        JsonSerializer::serialize_string(self, v)
    }

    fn serialize_bool(&self, v: bool) -> (out: Json) {
        JsonSerializer::serialize_bool(self, v)
    }

    fn serialize_int(&self, v: i64) -> (out: Json) {
        JsonSerializer::serialize_int(self, v)
    }

    fn serialize_array(&self, len: Option<usize>) -> (w: JsonArraySerializer) {
        JsonSerializer::serialize_array(self, len)
    }

    fn serialize_map(&self, len: Option<usize>) -> (w: JsonMapSerializer) {
        JsonSerializer::serialize_map(self, len)
    }

    fn serialize_tagged_array(&mut self, tag: &str, len: Option<usize>) -> (w: Result<
        JsonTaggedArraySerializer,
        Error,
    >) {
        Ok(JsonSerializer::serialize_tagged_array(self, tag, len))
    }

    fn serialize_tagged_map(&mut self, tag: &str, len: Option<usize>) -> (w: Result<
        JsonTaggedMapSerializer,
        Error,
    >) {
        Ok(JsonSerializer::serialize_tagged_map(self, tag, len))
    }

    fn serialize_value(&mut self, v: &Value) -> (out: Result<Json, Error>) {
        Ok(JsonSerializer::serialize_value(self, v))
    }
}

/// Whether every key of `pairs` is a scalar.
pub fn scalar_keys(pairs: &Vec<(Value, Value)>) -> (r: bool)
    ensures
        r == all_scalar_keys(pairs_view(pairs@)),
{
    proof {
        lemma_pairs_view(pairs@);
    }
    let mut i: usize = 0;
    while i < pairs.len()
        invariant
            i <= pairs.len(),
            pairs_view(pairs@).len() == pairs@.len(),
            forall|j: int|
                0 <= j < pairs@.len() ==> (#[trigger] pairs_view(pairs@)[j]) == (
                    pairs@[j].0@,
                    pairs@[j].1@,
                ),
            forall|j: int| 0 <= j < i ==> key_form((#[trigger] pairs_view(pairs@)[j]).0) is Some,
        decreases pairs.len() - i,
    {
        match pairs[i].0.kind() {
            TransitType::Scalar => {},
            TransitType::Composite => {
                assert(key_form(pairs_view(pairs@)[i as int].0) is None);
                return false;
            },
        }
        i += 1;
    }
    true
}

/// The verbose document of `v`, written by `v` itself with the encoder of the root: a
/// composite node at its root, and a well-formed host tree.
pub fn to_transit_json<T: TransitSerialize>(v: T) -> (out: Json)
    ensures
        out@ == encode_document(v.transit_value()),
        out@.is_composite(),
        out@.wf(),
{
    let mut serializer = JsonSerializer::top();
    proof {
        lemma_encode_document_wf(v.transit_value());
    }
    match v.transit_serialize(&mut serializer) {
        Ok(out) => out,
        Err(_) => vstd::pervasive::unreached(),
    }
}

} // verus!
