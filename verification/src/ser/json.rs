//! The cached JSON surface: maps become arrays that begin with `^`, tagged composites
//! become arrays of the tag and the payload, and a key or a tag that was written before is
//! written as a short reference to the key cache of the session.
//!
//! The cache is filled in the order of the document: a tag before its payload, a key
//! before its value, the items of an array from first to last.

use crate::cache_codes::{emit, KeyCacher, Passed};
use crate::de::{Error, ErrorKind, TransitType};
use crate::json::{array_view, lemma_array_view, lemma_array_view_push, Json, JsonV};
use crate::ser::{
    TransitArraySerializer, TransitKeySerializer, TransitMapSerializer, TransitSerialize,
    TransitSerializer, TransitTaggedArraySerializer, TransitTaggedMapSerializer,
};
use crate::ser::json_verbose::{all_scalar_keys, alternate, scalar_json, scalar_keys};
use crate::ser::key::key_form;
use crate::tilde::{
    cmap_tag, cmap_text, escape, escaped, instant_prefix, instant_text, map_marker, marker_text,
    quote_tag, quote_text, set_tag,
};
use crate::value::{
    items_view, lemma_items_view, lemma_pairs_view, lemma_pairs_view_push, pairs_view, Value,
    ValueV,
};
use vstd::prelude::*;

verus! {

/// A node and the table of the cache after the node was written or read.
pub struct Coded {
    pub node: JsonV,
    pub table: Seq<Seq<char>>,
}

/// Some nodes and the table of the cache after they were written or read.
pub struct CodedSeq {
    pub nodes: Seq<JsonV>,
    pub table: Seq<Seq<char>>,
}

/// The array of a tag and its payload: the envelope of a tagged composite.
pub open spec fn tagged_array(tag: Seq<char>, payload: JsonV) -> JsonV {
    JsonV::Array(seq![JsonV::Str(tag), payload])
}

/// The cached node of a value that is not the root of a document, written with the table
/// `table`, and the table afterwards; `None` where the cache would overflow.
pub open spec fn encode_cached(v: ValueV, table: Seq<Seq<char>>) -> Option<Coded>
    decreases v, 0nat,
{
    match v {
        ValueV::List(items) => match encode_items_cached(items, table) {
            Some(r) => Some(Coded { node: JsonV::Array(r.nodes), table: r.table }),
            None => None,
        },
        ValueV::SetOf(items) => match emit(table, set_tag()) {
            Some(p) => match encode_items_cached(items, p.table) {
                Some(r) => Some(
                    Coded { node: tagged_array(p.text, JsonV::Array(r.nodes)), table: r.table },
                ),
                None => None,
            },
            None => None,
        },
        ValueV::MapOf(pairs) => encode_map_cached(pairs, table),
        ValueV::TaggedArray(tag, items) => match emit(table, tag) {
            Some(p) => match encode_items_cached(items, p.table) {
                Some(r) => Some(
                    Coded { node: tagged_array(p.text, JsonV::Array(r.nodes)), table: r.table },
                ),
                None => None,
            },
            None => None,
        },
        ValueV::TaggedMap(tag, pairs) => match emit(table, tag) {
            Some(p) => match encode_map_cached(pairs, p.table) {
                Some(c) => Some(Coded { node: tagged_array(p.text, c.node), table: c.table }),
                None => None,
            },
            None => None,
        },
        _ => Some(Coded { node: scalar_json(v), table }),
    }
}

/// The cached node of a map: the array of `^`, keys and values where every key has a key
/// form, each key passed through the cache; else the `~#cmap` envelope around keys and
/// values in turn, the keys as values.
pub open spec fn encode_map_cached(pairs: Seq<(ValueV, ValueV)>, table: Seq<Seq<char>>) -> Option<
    Coded,
>
    decreases pairs, 1nat,
{
    if all_scalar_keys(pairs) {
        match encode_entries_cached(pairs, table) {
            Some(r) => Some(
                Coded {
                    node: JsonV::Array(seq![JsonV::Str(map_marker())] + r.nodes),
                    table: r.table,
                },
            ),
            None => None,
        }
    } else {
        match emit(table, cmap_tag()) {
            Some(p) => match encode_flat_cached(pairs, p.table) {
                Some(r) => Some(
                    Coded { node: tagged_array(p.text, JsonV::Array(r.nodes)), table: r.table },
                ),
                None => None,
            },
            None => None,
        }
    }
}

/// The cached nodes of `items`, written one after the other.
pub open spec fn encode_items_cached(items: Seq<ValueV>, table: Seq<Seq<char>>) -> Option<CodedSeq>
    decreases items, 0nat,
{
    if items.len() == 0 {
        Some(CodedSeq { nodes: Seq::empty(), table })
    } else {
        match encode_items_cached(items.drop_last(), table) {
            Some(r) => match encode_cached(items.last(), r.table) {
                Some(c) => Some(CodedSeq { nodes: r.nodes.push(c.node), table: c.table }),
                None => None,
            },
            None => None,
        }
    }
}

/// The cached nodes of the pairs of a map whose keys all have key forms: each key form,
/// passed through the cache, and then the node of its value.
pub open spec fn encode_entries_cached(
    pairs: Seq<(ValueV, ValueV)>,
    table: Seq<Seq<char>>,
) -> Option<CodedSeq>
    decreases pairs, 0nat,
{
    if pairs.len() == 0 {
        Some(CodedSeq { nodes: Seq::empty(), table })
    } else {
        match encode_entries_cached(pairs.drop_last(), table) {
            Some(r) => match key_form(pairs.last().0) {
                Some(text) => match emit(r.table, text) {
                    Some(p) => match encode_cached(pairs.last().1, p.table) {
                        Some(c) => Some(
                            CodedSeq {
                                nodes: r.nodes.push(JsonV::Str(p.text)).push(c.node),
                                table: c.table,
                            },
                        ),
                        None => None,
                    },
                    None => None,
                },
                None => None,
            },
            None => None,
        }
    }
}

/// The cached nodes of the pairs of a map under `~#cmap`: the node of each key as a
/// value, and then the node of its value.
pub open spec fn encode_flat_cached(pairs: Seq<(ValueV, ValueV)>, table: Seq<Seq<char>>) -> Option<
    CodedSeq,
>
    decreases pairs, 0nat,
{
    if pairs.len() == 0 {
        Some(CodedSeq { nodes: Seq::empty(), table })
    } else {
        match encode_flat_cached(pairs.drop_last(), table) {
            Some(r) => match encode_cached(pairs.last().0, r.table) {
                Some(k) => match encode_cached(pairs.last().1, k.table) {
                    Some(c) => Some(
                        CodedSeq { nodes: r.nodes.push(k.node).push(c.node), table: c.table },
                    ),
                    None => None,
                },
                None => None,
            },
            None => None,
        }
    }
}

/// The cached document of a value, written with a fresh cache: a scalar is quoted, so
/// that the root is a composite.
pub open spec fn encode_document_cached(v: ValueV) -> Option<Coded> {
    if v.kind() == TransitType::Scalar {
        Some(Coded { node: tagged_array(quote_tag(), scalar_json(v)), table: Seq::empty() })
    } else {
        encode_cached(v, Seq::empty())
    }
}

/// The cached root of a document written with the table `table`.
pub open spec fn encode_root_cached(v: ValueV, table: Seq<Seq<char>>) -> Option<Coded> {
    if v.kind() == TransitType::Scalar {
        Some(Coded { node: tagged_array(quote_tag(), scalar_json(v)), table })
    } else {
        encode_cached(v, table)
    }
}

/// Once a prefix of the items overflows the cache, the items do.
pub proof fn lemma_encode_items_cached_prefix(items: Seq<ValueV>, table: Seq<Seq<char>>, n: int)
    requires
        0 <= n <= items.len(),
        encode_items_cached(items.take(n), table) is None,
    ensures
        encode_items_cached(items, table) is None,
    decreases items.len() - n,
{
    if n < items.len() {
        assert(items.take(n + 1).drop_last() =~= items.take(n));
        lemma_encode_items_cached_prefix(items, table, n + 1);
    } else {
        assert(items.take(n) =~= items);
    }
}

/// Once a prefix of the pairs overflows the cache, the pairs do.
pub proof fn lemma_encode_entries_cached_prefix(
    pairs: Seq<(ValueV, ValueV)>,
    table: Seq<Seq<char>>,
    n: int,
)
    requires
        0 <= n <= pairs.len(),
        encode_entries_cached(pairs.take(n), table) is None,
    ensures
        encode_entries_cached(pairs, table) is None,
    decreases pairs.len() - n,
{
    if n < pairs.len() {
        assert(pairs.take(n + 1).drop_last() =~= pairs.take(n));
        lemma_encode_entries_cached_prefix(pairs, table, n + 1);
    } else {
        assert(pairs.take(n) =~= pairs);
    }
}

/// Once a prefix of the pairs overflows the cache, the pairs do.
pub proof fn lemma_encode_flat_cached_prefix(
    pairs: Seq<(ValueV, ValueV)>,
    table: Seq<Seq<char>>,
    n: int,
)
    requires
        0 <= n <= pairs.len(),
        encode_flat_cached(pairs.take(n), table) is None,
    ensures
        encode_flat_cached(pairs, table) is None,
    decreases pairs.len() - n,
{
    if n < pairs.len() {
        assert(pairs.take(n + 1).drop_last() =~= pairs.take(n));
        lemma_encode_flat_cached_prefix(pairs, table, n + 1);
    } else {
        assert(pairs.take(n) =~= pairs);
    }
}

/// Alternating with one more pair adds the pair at the end.
pub proof fn lemma_alternate_push<T>(a: Seq<T>, b: Seq<T>, x: T, y: T)
    requires
        a.len() == b.len(),
    ensures
        alternate(a.push(x), b.push(y)) == alternate(a, b).push(x).push(y),
{
    assert(alternate(a.push(x), b.push(y)) =~= alternate(a, b).push(x).push(y));
}

/// The writer of an array: it takes the nodes of the items and gives the array.
pub struct JsonArraySerializer {
    buf: Vec<Json>,
}

impl TransitArraySerializer for JsonArraySerializer {
    type Output = Json;

    closed spec fn items(&self) -> Seq<JsonV> {
        array_view(self.buf@)
    }

    fn serialize_item(&mut self, v: Json) {
        proof {
            lemma_array_view_push(self.buf@, v);
        }
        self.buf.push(v);
    }

    fn end(self) -> (out: Json) {
        Json::Array(self.buf)
    }
}

/// The nodes of a map that is being written: the nodes of keys and values, pair by pair,
/// for the envelope that the keys of the map call for.
struct MapNodes {
    buf_keys: Vec<Json>,
    buf_vals: Vec<Json>,
    /// The text that stands for `~#cmap`, where the map goes into that envelope.
    cmap: Option<String>,
}

impl MapNodes {
    /// The text that stands for `~#cmap`, where the map goes into that envelope.
    spec fn cmap(&self) -> Option<Seq<char>> {
        match self.cmap {
            Some(tag) => Some(tag@),
            None => None,
        }
    }

    /// The nodes of the keys taken so far.
    spec fn keys(&self) -> Seq<JsonV> {
        array_view(self.buf_keys@)
    }

    /// The nodes of the values taken so far.
    spec fn values(&self) -> Seq<JsonV> {
        array_view(self.buf_vals@)
    }

    /// The array of `^`, keys and values in turn where the writer was opened for it, else
    /// the array of the text for `~#cmap` and of the array of keys and values in turn.
    spec fn node(&self) -> JsonV {
        match self.cmap() {
            Some(tag) => tagged_array(tag, JsonV::Array(alternate(self.keys(), self.values()))),
            None => JsonV::Array(
                seq![JsonV::Str(map_marker())] + alternate(self.keys(), self.values()),
            ),
        }
    }

    /// As many keys as values were taken.
    spec fn wf(&self) -> bool {
        self.buf_keys@.len() == self.buf_vals@.len()
    }

    /// Where the map goes into the array that begins with `^`, a key is a string: the
    /// text that the cache gave for its key form.
    spec fn takes(&self, k: &Json) -> bool {
        self.cmap() is None ==> k is Str
    }

    /// Takes the nodes of the next pair.
    fn push(&mut self, k: Json, v: Json)
        requires
            old(self).wf(),
            old(self).takes(&k),
        ensures
            final(self).wf(),
            final(self).cmap() == old(self).cmap(),
            final(self).keys() == old(self).keys().push(k@),
            final(self).values() == old(self).values().push(v@),
            alternate(final(self).keys(), final(self).values()) == alternate(
                old(self).keys(),
                old(self).values(),
            ).push(k@).push(v@),
    {
        proof {
            lemma_array_view(self.buf_keys@);
            lemma_array_view(self.buf_vals@);
            lemma_array_view_push(self.buf_keys@, k);
            lemma_array_view_push(self.buf_vals@, v);
            lemma_alternate_push(self.keys(), self.values(), k@, v@);
        }
        self.buf_keys.push(k);
        self.buf_vals.push(v);
    }

    /// The map of the pairs taken, in its envelope.
    fn finish(self) -> (out: Json)
        requires
            self.wf(),
        ensures
            out@ == self.node(),
    {
        let ghost keys = self.keys();
        let ghost values = self.values();
        proof {
            lemma_array_view(self.buf_keys@);
            lemma_array_view(self.buf_vals@);
        }
        let mut buf_keys = self.buf_keys;
        let mut buf_vals = self.buf_vals;
        let n = buf_keys.len();
        let mut val: Vec<Json> = Vec::new();
        if self.cmap.is_none() {
            val.push(Json::Str(marker_text()));
        }
        let ghost head = array_view(val@);
        proof {
            lemma_array_view(val@);
            assert(self.cmap is None ==> head =~= seq![JsonV::Str(map_marker())]);
            assert(self.cmap is Some ==> head =~= Seq::<JsonV>::empty());
            assert(head + alternate(keys, values).take(0) =~= head);
        }
        let mut i: usize = 0;
        while i < n
            invariant
                i <= n,
                n == keys.len(),
                buf_keys@.len() == n,
                buf_vals@.len() == n,
                values.len() == n,
                forall|j: int| i <= j < n ==> (#[trigger] buf_keys@[j])@ == keys[j],
                forall|j: int| i <= j < n ==> (#[trigger] buf_vals@[j])@ == values[j],
                array_view(val@) == head + alternate(keys, values).take(2 * (i as int)),
            decreases n - i,
        {
            let mut key = Json::Null;
            let mut value = Json::Null;
            core::mem::swap(&mut buf_keys[i], &mut key);
            core::mem::swap(&mut buf_vals[i], &mut value);
            proof {
                lemma_array_view_push(val@, key);
                lemma_array_view_push(val@.push(key), value);
                let flat = alternate(keys, values);
                assert(flat[2 * (i as int)] == keys[i as int]);
                assert(flat[2 * (i as int) + 1] == values[i as int]);
                assert(head + flat.take(2 * (i as int) + 2) =~= (head + flat.take(
                    2 * (i as int),
                )).push(key@).push(value@));
            }
            val.push(key);
            val.push(value);
            i += 1;
        }
        proof {
            assert(alternate(keys, values).take(2 * (n as int)) =~= alternate(keys, values));
        }
        match self.cmap {
            Some(tag) => {
                assert(head + alternate(keys, values) =~= alternate(keys, values));
                tagged_node(tag, Json::Array(val))
            },
            None => Json::Array(val),
        }
    }
}

/// The writer of a map: it takes keys and values, pair by pair, and at its end gives the
/// map in the envelope that the keys call for. Nothing passes through the cache of the
/// session before the end, where tag, keys and values pass in the order of the document.
pub struct JsonMapSerializer {
    pairs: Vec<(Value, Value)>,
}

impl TransitMapSerializer for JsonMapSerializer {
    type Output = Json;

    type Encoder = JsonSerializer;

    closed spec fn pairs(&self) -> Seq<(ValueV, ValueV)> {
        pairs_view(self.pairs@)
    }

    open spec fn fit(encoder: &JsonSerializer) -> bool {
        encoder.cache_wf()
    }

    /// The cached surface gives the array of `^`, key forms and values in turn where
    /// every key taken has a key form, each key form passed through the cache of the
    /// session; else the array of the text for `~#cmap` and of the array of keys and values
    /// in turn, the keys as values. It fails where the cache would overflow.
    open spec fn finished(
        &self,
        encoder: &JsonSerializer,
        out: Result<Json, Error>,
        post: &JsonSerializer,
    ) -> bool {
        &&& post.is_top() == encoder.is_top()
        &&& encoder.table().is_prefix_of(post.table())
        &&& match out {
            Ok(j) => encode_map_cached(self.pairs(), encoder.table()) == Some(
                Coded { node: j@, table: post.table() },
            ),
            Err(e) => encode_map_cached(self.pairs(), encoder.table()) is None && e.kind()
                == ErrorKind::CacheOverflow,
        }
    }

    fn serialize_pair(&mut self, k: Value, v: Value) {
        proof {
            lemma_pairs_view_push(self.pairs@, (k, v));
        }
        self.pairs.push((k, v));
    }

    fn end(self, encoder: &mut JsonSerializer) -> (out: Result<Json, Error>) {
        JsonSerializer::serialize_map_iter(encoder, &self.pairs)
    }
}

/// The array of the tag text `tag` and the payload.
pub fn tagged_node(tag: String, payload: Json) -> (out: Json)
    ensures
        out@ == tagged_array(tag@, payload@),
{
    let mut vec: Vec<Json> = Vec::with_capacity(2);
    let tag_node = Json::Str(tag);
    proof {
        lemma_array_view_push(vec@, tag_node);
        lemma_array_view_push(vec@.push(tag_node), payload);
        assert(array_view(vec@) =~= Seq::<JsonV>::empty());
    }
    vec.push(tag_node);
    vec.push(payload);
    let out = Json::Array(vec);
    assert(out@->Array_0 =~= seq![JsonV::Str(tag@), payload@]);
    out
}

/// The writer of a tagged array.
pub struct JsonTagArraySerializer {
    tag: String,
    array_serializer: JsonArraySerializer,
}

impl TransitTaggedArraySerializer for JsonTagArraySerializer {
    type Output = Json;

    closed spec fn tag(&self) -> Seq<char> {
        self.tag@
    }

    closed spec fn items(&self) -> Seq<JsonV> {
        self.array_serializer.items()
    }

    /// The array of the text for the tag and of the array of the items.
    open spec fn node(&self) -> JsonV {
        tagged_array(self.tag(), JsonV::Array(self.items()))
    }

    fn serialize_item(&mut self, v: Json) {
        self.array_serializer.serialize_item(v);
    }

    fn end(self) -> (out: Json) {
        let val = self.array_serializer.end();
        tagged_node(self.tag, val)
    }
}

/// The writer of a tagged map. The tag passed through the cache of the session when the
/// writer was opened; the map follows at the end.
pub struct JsonTagMapSerializer {
    tag: String,
    map_serializer: JsonMapSerializer,
}

impl TransitTaggedMapSerializer for JsonTagMapSerializer {
    type Output = Json;

    type Encoder = JsonSerializer;

    closed spec fn tag(&self) -> Seq<char> {
        self.tag@
    }

    closed spec fn pairs(&self) -> Seq<(ValueV, ValueV)> {
        self.map_serializer.pairs()
    }

    open spec fn fit(encoder: &JsonSerializer) -> bool {
        encoder.cache_wf()
    }

    /// The cached surface gives the array of the text for the tag and of the map, in the
    /// envelope that the keys taken call for. It fails where the cache would overflow.
    open spec fn finished(
        &self,
        encoder: &JsonSerializer,
        out: Result<Json, Error>,
        post: &JsonSerializer,
    ) -> bool {
        &&& post.is_top() == encoder.is_top()
        &&& encoder.table().is_prefix_of(post.table())
        &&& match out {
            Ok(j) => encode_map_cached(self.pairs(), encoder.table()) is Some && j@
                == tagged_array(
                self.tag(),
                encode_map_cached(self.pairs(), encoder.table())->0.node,
            ) && post.table() == encode_map_cached(self.pairs(), encoder.table())->0.table,
            Err(e) => encode_map_cached(self.pairs(), encoder.table()) is None && e.kind()
                == ErrorKind::CacheOverflow,
        }
    }

    fn serialize_pair(&mut self, k: Value, v: Value) {
        self.map_serializer.serialize_pair(k, v);
    }

    fn end(self, encoder: &mut JsonSerializer) -> (out: Result<Json, Error>) {
        match self.map_serializer.end(encoder) {
            Ok(val) => Ok(tagged_node(self.tag, val)),
            Err(e) => Err(e),
        }
    }
}

/// The cached encoder of one session, with the key cache of the session. The one made by
/// `top` stands at the root of a document and quotes a scalar.
pub struct JsonSerializer {
    top_level: bool,
    cache: KeyCacher,
}

impl JsonSerializer {
    /// Whether this is the encoder of the root of a document.
    pub closed spec fn is_top(&self) -> bool {
        self.top_level
    }

    /// The strings that the cache of the session holds, in the order of admission.
    pub closed spec fn table(&self) -> Seq<Seq<char>> {
        self.cache@
    }

    /// The cache of the session is well-formed.
    pub closed spec fn cache_wf(&self) -> bool {
        self.cache.wf()
    }

    /// The node `v` as this encoder gives it out: quoted at the root, else as it is.
    pub open spec fn quoted_node(&self, v: JsonV) -> JsonV {
        if self.is_top() {
            tagged_array(quote_tag(), v)
        } else {
            v
        }
    }

    /// The encoder of the root of a document, with an empty cache.
    pub fn top() -> (s: Self)
        ensures
            s.is_top(),
            s.wf(),
            s.table() == Seq::<Seq<char>>::empty(),
    {
        JsonSerializer { top_level: true, cache: KeyCacher::new() }
    }

    fn quote_check(&self, v: Json) -> (out: Json)
        ensures
            out@ == self.quoted(v@),
    {
        if self.top_level {
            tagged_node(quote_text(), v)
        } else {
            v
        }
    }

    /// The node of null.
    pub fn serialize_null(&self) -> (out: Json)
        ensures
            out@ == self.quoted(JsonV::Null),
    {
        self.quote_check(Json::Null)
    }

    /// Plain text, escaped where it would be taken for a code.
    pub fn serialize_string(&self, v: &str) -> (out: Json)
        ensures
            out@ == self.quoted(JsonV::Str(escape(v@))),
    {
        self.quote_check(Json::Str(escaped(v)))
    }

    /// The node of a truth value.
    pub fn serialize_bool(&self, v: bool) -> (out: Json)
        ensures
            out@ == self.quoted(JsonV::Bool(v)),
    {
        self.quote_check(Json::Bool(v))
    }

    /// The node of an integer.
    pub fn serialize_int(&self, v: i64) -> (out: Json)
        ensures
            out@ == self.quoted(JsonV::Int(v)),
    {
        self.quote_check(Json::Int(v))
    }

    /// An instant, given as its text.
    pub fn serialize_instant(&self, v: &str) -> (out: Json)
        ensures
            out@ == self.quoted(JsonV::Str(instant_prefix() + v@)),
    {
        self.quote_check(Json::Str(instant_text(v)))
    }

    /// The text to write for the key or tag `v`: `v` passes through the cache, and comes
    /// out as a reference where it was written before.
    pub fn serialize_key(&mut self, v: &str) -> (out: Result<String, Error>)
        requires
            old(self).wf(),
        ensures
            final(self).wf(),
            final(self).is_top() == old(self).is_top(),
            old(self).table().is_prefix_of(final(self).table()),
            match out {
                Ok(text) => emit(old(self).table(), v@) == Some(
                    Passed { text: text@, table: final(self).table() },
                ),
                Err(e) => emit(old(self).table(), v@) is None && e.kind()
                    == ErrorKind::CacheOverflow && final(self).table() == old(self).table(),
            },
    {
        match self.cache.try_cache(v.to_owned()) {
            Ok(Some(code)) => Ok(code),
            Ok(None) => Ok(v.to_owned()),
            Err(e) => Err(e),
        }
    }

    /// Opens the writer of an array; `len` says how many items to make room for.
    pub fn serialize_array(&self, len: Option<usize>) -> (w: JsonArraySerializer)
        ensures
            w.items() == Seq::<JsonV>::empty(),
    {
        let buf: Vec<Json> = if let Some(len) = len {
            Vec::with_capacity(len)
        } else {
            Vec::new()
        };
        assert(array_view(buf@) =~= Seq::empty());
        JsonArraySerializer { buf }
    }

    /// Opens the writer of a map; `len` says how many pairs to make room for.
    pub fn serialize_map(&self, len: Option<usize>) -> (w: JsonMapSerializer)
        ensures
            w.pairs() == Seq::<(ValueV, ValueV)>::empty(),
    {
        let pairs: Vec<(Value, Value)> = if let Some(len) = len {
            Vec::with_capacity(len)
        } else {
            Vec::new()
        };
        assert(pairs_view(pairs@) =~= Seq::empty());
        JsonMapSerializer { pairs }
    }

    /// Makes room for the nodes of a map. Where `cmap`, the map goes into the `~#cmap`
    /// envelope, and the tag passes through the cache now, before any pair.
    fn open_nodes(&mut self, len: Option<usize>, cmap: bool) -> (w: Result<MapNodes, Error>)
        requires
            old(self).wf(),
        ensures
            final(self).wf(),
            final(self).is_top() == old(self).is_top(),
            old(self).table().is_prefix_of(final(self).table()),
            match w {
                Ok(w) => w.wf() && w.keys() == Seq::<JsonV>::empty() && w.values() == Seq::<
                    JsonV,
                >::empty() && if cmap {
                    w.cmap() is Some && emit(old(self).table(), cmap_tag()) == Some(
                        Passed { text: w.cmap()->0, table: final(self).table() },
                    )
                } else {
                    w.cmap() is None && final(self).table() == old(self).table()
                },
                Err(e) => cmap && emit(old(self).table(), cmap_tag()) is None && e.kind()
                    == ErrorKind::CacheOverflow,
            },
    {
        let tag = if cmap {
            match self.serialize_key(cmap_text().as_str()) {
                Ok(text) => Some(text),
                Err(e) => {
                    return Err(e);
                },
            }
        } else {
            None
        };
        let w = if let Some(len) = len {
            MapNodes {
                buf_keys: Vec::with_capacity(len),
                buf_vals: Vec::with_capacity(len),
                cmap: tag,
            }
        } else {
            MapNodes { buf_keys: Vec::new(), buf_vals: Vec::new(), cmap: tag }
        };
        assert(array_view(w.buf_keys@) =~= Seq::empty());
        assert(array_view(w.buf_vals@) =~= Seq::empty());
        Ok(w)
    }

    /// Opens the writer of an array under the tag `tag`, which passes through the cache
    /// now, before any item.
    pub fn serialize_tagged_array(&mut self, tag: &str, len: Option<usize>) -> (w: Result<
        JsonTagArraySerializer,
        Error,
    >)
        requires
            old(self).wf(),
        ensures
            final(self).wf(),
            final(self).is_top() == old(self).is_top(),
            old(self).table().is_prefix_of(final(self).table()),
            match w {
                Ok(w) => w.items() == Seq::<JsonV>::empty() && emit(old(self).table(), tag@)
                    == Some(Passed { text: w.tag(), table: final(self).table() }),
                Err(e) => emit(old(self).table(), tag@) is None && e.kind()
                    == ErrorKind::CacheOverflow,
            },
    {
        match self.serialize_key(tag) {
            Ok(text) => Ok(
                JsonTagArraySerializer { tag: text, array_serializer: self.serialize_array(len) },
            ),
            Err(e) => Err(e),
        }
    }

    /// Opens the writer of a map under the tag `tag`, which passes through the cache now,
    /// before the map.
    pub fn serialize_tagged_map(&mut self, tag: &str, len: Option<usize>) -> (w: Result<
        JsonTagMapSerializer,
        Error,
    >)
        requires
            old(self).wf(),
        ensures
            final(self).wf(),
            final(self).is_top() == old(self).is_top(),
            old(self).table().is_prefix_of(final(self).table()),
            match w {
                Ok(w) => w.pairs() == Seq::<(ValueV, ValueV)>::empty() && emit(
                    old(self).table(),
                    tag@,
                ) == Some(Passed { text: w.tag(), table: final(self).table() }),
                Err(e) => emit(old(self).table(), tag@) is None && e.kind()
                    == ErrorKind::CacheOverflow,
            },
    {
        match self.serialize_key(tag) {
            Ok(text) => Ok(
                JsonTagMapSerializer { tag: text, map_serializer: self.serialize_map(len) },
            ),
            Err(e) => Err(e),
        }
    }

    /// The array of `items`.
    pub fn serialize_array_iter(&mut self, items: &Vec<Value>) -> (out: Result<Json, Error>)
        requires
            old(self).wf(),
        ensures
            final(self).wf(),
            final(self).is_top() == old(self).is_top(),
            old(self).table().is_prefix_of(final(self).table()),
            match out {
                Ok(j) => j@ is Array && encode_items_cached(items_view(items@), old(self).table())
                    == Some(CodedSeq { nodes: j@->Array_0, table: final(self).table() }),
                Err(e) => encode_items_cached(items_view(items@), old(self).table()) is None
                    && e.kind() == ErrorKind::CacheOverflow,
            },
        decreases items, 0nat,
    {
        let ghost iv = items_view(items@);
        let ghost start = self.table();
        let mut w = self.serialize_array(Some(items.len()));
        proof {
            lemma_items_view(items@);
            assert(iv.take(0) =~= Seq::<ValueV>::empty());
        }
        let mut i: usize = 0;
        while i < items.len()
            invariant
                i <= items.len(),
                self.wf(),
                self.is_top() == old(self).is_top(),
                start == old(self).table(),
                start.is_prefix_of(self.table()),
                iv == items_view(items@),
                iv.len() == items@.len(),
                forall|j: int| 0 <= j < items@.len() ==> (#[trigger] iv[j]) == items@[j]@,
                encode_items_cached(iv.take(i as int), start) == Some(
                    CodedSeq { nodes: w.items(), table: self.table() },
                ),
            decreases items.len() - i,
        {
            proof {
                assert(iv.take(i + 1).drop_last() =~= iv.take(i as int));
            }
            match self.serialize_inner(&items[i]) {
                Ok(node) => {
                    w.serialize_item(node);
                },
                Err(e) => {
                    proof {
                        lemma_encode_items_cached_prefix(iv, start, i + 1);
                    }
                    return Err(e);
                },
            }
            i += 1;
        }
        assert(iv.take(items.len() as int) =~= iv);
        Ok(w.end())
    }

    /// Fills the writer of a map with `pairs`: each key as its key form, passed through
    /// the cache, where the map goes into the array that begins with `^`; as a value
    /// where it goes into the `~#cmap` envelope.
    fn map_pairs(&mut self, w: &mut MapNodes, pairs: &Vec<(Value, Value)>) -> (out: Result<
        (),
        Error,
    >)
        requires
            old(self).wf(),
            old(w).wf(),
            old(w).keys().len() == 0,
            old(w).values().len() == 0,
            old(w).cmap() is None <==> all_scalar_keys(pairs_view(pairs@)),
        ensures
            final(self).wf(),
            final(self).is_top() == old(self).is_top(),
            old(self).table().is_prefix_of(final(self).table()),
            final(w).wf(),
            final(w).cmap() == old(w).cmap(),
            match out {
                Ok(_) => (if old(w).cmap() is None {
                    encode_entries_cached(pairs_view(pairs@), old(self).table())
                } else {
                    encode_flat_cached(pairs_view(pairs@), old(self).table())
                }) == Some(
                    CodedSeq {
                        nodes: alternate(final(w).keys(), final(w).values()),
                        table: final(self).table(),
                    },
                ),
                Err(e) => (if old(w).cmap() is None {
                    encode_entries_cached(pairs_view(pairs@), old(self).table())
                } else {
                    encode_flat_cached(pairs_view(pairs@), old(self).table())
                }) is None && e.kind() == ErrorKind::CacheOverflow,
            },
        decreases pairs, 0nat,
    {
        let ghost pv = pairs_view(pairs@);
        let ghost start = self.table();
        let scalar = w.cmap.is_none();
        proof {
            lemma_pairs_view(pairs@);
            assert(pv.take(0) =~= Seq::<(ValueV, ValueV)>::empty());
            assert(alternate(w.keys(), w.values()) =~= Seq::<JsonV>::empty());
        }
        let mut i: usize = 0;
        while i < pairs.len()
            invariant
                i <= pairs.len(),
                self.wf(),
                self.is_top() == old(self).is_top(),
                start == old(self).table(),
                start.is_prefix_of(self.table()),
                pv == pairs_view(pairs@),
                pv.len() == pairs@.len(),
                forall|j: int|
                    0 <= j < pairs@.len() ==> (#[trigger] pv[j]) == (pairs@[j].0@, pairs@[j].1@),
                scalar == all_scalar_keys(pv),
                scalar == (old(w).cmap() is None),
                w.wf(),
                w.cmap() == old(w).cmap(),
                (if scalar {
                    encode_entries_cached(pv.take(i as int), start)
                } else {
                    encode_flat_cached(pv.take(i as int), start)
                }) == Some(
                    CodedSeq { nodes: alternate(w.keys(), w.values()), table: self.table() },
                ),
            decreases pairs.len() - i,
        {
            proof {
                assert(pv.take(i + 1).drop_last() =~= pv.take(i as int));
                assert(pv.take(i + 1).last() == pv[i as int]);
            }
            let k = if scalar {
                assert(key_form(pv[i as int].0) is Some);
                let text = pairs[i].0.key().unwrap();
                match self.serialize_key(text.as_str()) {
                    Ok(text) => Json::Str(text),
                    Err(e) => {
                        proof {
                            lemma_encode_entries_cached_prefix(pv, start, i + 1);
                        }
                        return Err(e);
                    },
                }
            } else {
                match self.serialize_inner(&pairs[i].0) {
                    Ok(node) => node,
                    Err(e) => {
                        proof {
                            lemma_encode_flat_cached_prefix(pv, start, i + 1);
                        }
                        return Err(e);
                    },
                }
            };
            let v = match self.serialize_inner(&pairs[i].1) {
                Ok(node) => node,
                Err(e) => {
                    proof {
                        if scalar {
                            lemma_encode_entries_cached_prefix(pv, start, i + 1);
                        } else {
                            lemma_encode_flat_cached_prefix(pv, start, i + 1);
                        }
                    }
                    return Err(e);
                },
            };
            w.push(k, v);
            i += 1;
        }
        assert(pv.take(pairs.len() as int) =~= pv);
        Ok(())
    }

    /// The map of `pairs`.
    pub fn serialize_map_iter(&mut self, pairs: &Vec<(Value, Value)>) -> (out: Result<Json, Error>)
        requires
            old(self).wf(),
        ensures
            final(self).wf(),
            final(self).is_top() == old(self).is_top(),
            old(self).table().is_prefix_of(final(self).table()),
            match out {
                Ok(j) => encode_map_cached(pairs_view(pairs@), old(self).table()) == Some(
                    Coded { node: j@, table: final(self).table() },
                ),
                Err(e) => encode_map_cached(pairs_view(pairs@), old(self).table()) is None
                    && e.kind() == ErrorKind::CacheOverflow,
            },
        decreases pairs, 1nat,
    {
        let cmap = !scalar_keys(pairs);
        let mut w = match self.open_nodes(Some(pairs.len()), cmap) {
            Ok(w) => w,
            Err(e) => {
                return Err(e);
            },
        };
        match self.map_pairs(&mut w, pairs) {
            Ok(_) => Ok(w.finish()),
            Err(e) => Err(e),
        }
    }

    /// The array of `items` under the tag `tag`.
    pub fn serialize_tagged_array_iter(&mut self, tag: &str, items: &Vec<Value>) -> (out: Result<
        Json,
        Error,
    >)
        requires
            old(self).wf(),
        ensures
            final(self).wf(),
            final(self).is_top() == old(self).is_top(),
            old(self).table().is_prefix_of(final(self).table()),
            match out {
                Ok(j) => encode_cached(
                    ValueV::TaggedArray(tag@, items_view(items@)),
                    old(self).table(),
                ) == Some(Coded { node: j@, table: final(self).table() }),
                Err(e) => encode_cached(
                    ValueV::TaggedArray(tag@, items_view(items@)),
                    old(self).table(),
                ) is None && e.kind() == ErrorKind::CacheOverflow,
            },
        decreases items, 1nat,
    {
        let text = match self.serialize_key(tag) {
            Ok(text) => text,
            Err(e) => {
                return Err(e);
            },
        };
        match self.serialize_array_iter(items) {
            Ok(payload) => Ok(tagged_node(text, payload)),
            Err(e) => Err(e),
        }
    }

    /// The map of `pairs` under the tag `tag`.
    pub fn serialize_tagged_map_iter(&mut self, tag: &str, pairs: &Vec<(Value, Value)>) -> (out:
        Result<Json, Error>)
        requires
            old(self).wf(),
        ensures
            final(self).wf(),
            final(self).is_top() == old(self).is_top(),
            old(self).table().is_prefix_of(final(self).table()),
            match out {
                Ok(j) => encode_cached(
                    ValueV::TaggedMap(tag@, pairs_view(pairs@)),
                    old(self).table(),
                ) == Some(Coded { node: j@, table: final(self).table() }),
                Err(e) => encode_cached(
                    ValueV::TaggedMap(tag@, pairs_view(pairs@)),
                    old(self).table(),
                ) is None && e.kind() == ErrorKind::CacheOverflow,
            },
        decreases pairs, 2nat,
    {
        let text = match self.serialize_key(tag) {
            Ok(text) => text,
            Err(e) => {
                return Err(e);
            },
        };
        match self.serialize_map_iter(pairs) {
            Ok(payload) => Ok(tagged_node(text, payload)),
            Err(e) => Err(e),
        }
    }

    /// The node of `v` as it stands inside a document.
    pub fn serialize_inner(&mut self, v: &Value) -> (out: Result<Json, Error>)
        requires
            old(self).wf(),
        ensures
            final(self).wf(),
            final(self).is_top() == old(self).is_top(),
            old(self).table().is_prefix_of(final(self).table()),
            match out {
                Ok(j) => encode_cached(v@, old(self).table()) == Some(
                    Coded { node: j@, table: final(self).table() },
                ),
                Err(e) => encode_cached(v@, old(self).table()) is None && e.kind()
                    == ErrorKind::CacheOverflow,
            },
        decreases v, 0nat,
    {
        match v {
            Value::Null => Ok(Json::Null),
            Value::Bool(b) => Ok(Json::Bool(*b)),
            Value::Int(n) => Ok(Json::Int(*n)),
            Value::Str(s) => Ok(Json::Str(escaped(s.as_str()))),
            Value::Instant(t) => Ok(Json::Str(instant_text(t.as_str()))),
            Value::List(items) => self.serialize_array_iter(items),
            Value::SetOf(items) => {
                proof {
                    reveal_strlit("~#set");
                    assert("~#set"@ =~= set_tag());
                }
                self.serialize_tagged_array_iter("~#set", items)
            },
            Value::MapOf(pairs) => self.serialize_map_iter(pairs),
            Value::TaggedArray(tag, items) => self.serialize_tagged_array_iter(tag.as_str(), items),
            Value::TaggedMap(tag, pairs) => self.serialize_tagged_map_iter(tag.as_str(), pairs),
        }
    }

    /// The node of `v`: from the encoder of the root, the root of the document of `v`.
    pub fn serialize_value(&mut self, v: &Value) -> (out: Result<Json, Error>)
        requires
            old(self).wf(),
        ensures
            final(self).wf(),
            final(self).is_top() == old(self).is_top(),
            old(self).table().is_prefix_of(final(self).table()),
            match out {
                Ok(j) => (if old(self).is_top() {
                    encode_root_cached(v@, old(self).table())
                } else {
                    encode_cached(v@, old(self).table())
                }) == Some(Coded { node: j@, table: final(self).table() }),
                Err(e) => (if old(self).is_top() {
                    encode_root_cached(v@, old(self).table())
                } else {
                    encode_cached(v@, old(self).table())
                }) is None && e.kind() == ErrorKind::CacheOverflow,
            },
    {
        match v {
            Value::Null => Ok(self.serialize_null()),
            Value::Bool(b) => Ok(self.serialize_bool(*b)),
            Value::Int(n) => Ok(self.serialize_int(*n)),
            Value::Str(s) => Ok(self.serialize_string(s.as_str())),
            Value::Instant(t) => Ok(self.serialize_instant(t.as_str())),
            _ => self.serialize_inner(v),
        }
    }
}

impl TransitKeySerializer for JsonSerializer {
    type Output = String;

    open spec fn ready(&self) -> bool {
        self.cache_wf()
    }

    /// The cached surface passes a key through the cache of the session: it gives the
    /// text that the emit rule gives, and fails where the cache would overflow.
    open spec fn key_written(&self, v: Seq<char>, out: Result<String, Error>, post: &Self) -> bool {
        &&& post.is_top() == self.is_top()
        &&& self.table().is_prefix_of(post.table())
        &&& match out {
            Ok(text) => emit(self.table(), v) == Some(Passed { text: text@, table: post.table() }),
            Err(e) => emit(self.table(), v) is None && e.kind() == ErrorKind::CacheOverflow
                && post.table() == self.table(),
        }
    }

    fn serialize_key(&mut self, v: &str) -> (out: Result<String, Error>) {
        JsonSerializer::serialize_key(self, v)
    }
}

impl TransitSerializer for JsonSerializer {
    type Output = Json;

    type ArraySerializer = JsonArraySerializer;

    type MapSerializer = JsonMapSerializer;

    type TaggedArraySerializer = JsonTagArraySerializer;

    type TaggedMapSerializer = JsonTagMapSerializer;

    open spec fn wf(&self) -> bool {
        self.cache_wf()
    }

    /// At the root a node goes into the array that begins with `~#`.
    open spec fn quoted(&self, v: JsonV) -> JsonV {
        self.quoted_node(v)
    }

    /// The cached surface passes the tag through the cache of the session, which fails
    /// where the cache would overflow.
    open spec fn tagged_array_opened(
        &self,
        tag: Seq<char>,
        w: Result<JsonTagArraySerializer, Error>,
        post: &Self,
    ) -> bool {
        &&& post.is_top() == self.is_top()
        &&& self.table().is_prefix_of(post.table())
        &&& match w {
            Ok(w) => emit(self.table(), tag) == Some(
                Passed { text: w.tag(), table: post.table() },
            ),
            Err(e) => emit(self.table(), tag) is None && e.kind() == ErrorKind::CacheOverflow,
        }
    }

    /// The cached surface passes the tag through the cache of the session, which fails
    /// where the cache would overflow.
    open spec fn tagged_map_opened(
        &self,
        tag: Seq<char>,
        w: Result<JsonTagMapSerializer, Error>,
        post: &Self,
    ) -> bool {
        &&& post.is_top() == self.is_top()
        &&& self.table().is_prefix_of(post.table())
        &&& match w {
            Ok(w) => emit(self.table(), tag) == Some(
                Passed { text: w.tag(), table: post.table() },
            ),
            Err(e) => emit(self.table(), tag) is None && e.kind() == ErrorKind::CacheOverflow,
        }
    }

    /// The cached surface gives the root of the document of the value at the root and the
    /// node of the value elsewhere, written with the table of the session, which only
    /// grows; it fails where the cache would overflow.
    open spec fn serialized(&self, v: ValueV, out: Result<Json, Error>, post: &Self) -> bool {
        &&& post.is_top() == self.is_top()
        &&& self.table().is_prefix_of(post.table())
        &&& match out {
            Ok(j) => (if self.is_top() {
                encode_root_cached(v, self.table())
            } else {
                encode_cached(v, self.table())
            }) == Some(Coded { node: j@, table: post.table() }),
            Err(e) => (if self.is_top() {
                encode_root_cached(v, self.table())
            } else {
                encode_cached(v, self.table())
            }) is None && e.kind() == ErrorKind::CacheOverflow,
        }
    }

    fn serialize_null(&self) -> (out: Json) {
        JsonSerializer::serialize_null(self)
    }

    fn serialize_string(&self, v: &str) -> (out: Json) {
        JsonSerializer::serialize_string(self, v)
    }

    fn serialize_bool(&self, v: bool) -> (out: Json) {
        JsonSerializer::serialize_bool(self, v)
    }

    fn serialize_int(&self, v: i64) -> (out: Json) {
        JsonSerializer::serialize_int(self, v)
    }

    fn serialize_array(&self, len: Option<usize>) -> (w: JsonArraySerializer) {
        JsonSerializer::serialize_array(self, len)
    }

    fn serialize_map(&self, len: Option<usize>) -> (w: JsonMapSerializer) {
        JsonSerializer::serialize_map(self, len)
    }

    fn serialize_tagged_array(&mut self, tag: &str, len: Option<usize>) -> (w: Result<
        JsonTagArraySerializer,
        Error,
    >) {
        JsonSerializer::serialize_tagged_array(self, tag, len)
    }

    fn serialize_tagged_map(&mut self, tag: &str, len: Option<usize>) -> (w: Result<
        JsonTagMapSerializer,
        Error,
    >) {
        JsonSerializer::serialize_tagged_map(self, tag, len)
    }

    fn serialize_value(&mut self, v: &Value) -> (out: Result<Json, Error>) {
        JsonSerializer::serialize_value(self, v)
    }
}

/// The cached document of `v`, written by `v` itself with the encoder of the root and a
/// fresh cache, with a composite node at its root; the error where `v` holds more distinct
/// keys and tags than the cache has codes for.
pub fn to_transit_json<T: TransitSerialize>(v: T) -> (out: Result<Json, Error>)
    ensures
        match out {
            Ok(j) => encode_document_cached(v.transit_value()) is Some && encode_document_cached(
                v.transit_value(),
            )->0.node == j@ && j@.is_composite(),
            Err(e) => encode_document_cached(v.transit_value()) is None && e.kind()
                == ErrorKind::CacheOverflow,
        },
{
    let mut serializer = JsonSerializer::top();
    let out = v.transit_serialize(&mut serializer);
    proof {
        if out is Ok {
            lemma_root_is_composite(v.transit_value());
        }
    }
    out
}

/// The root of a cached document is an array.
pub proof fn lemma_root_is_composite(v: ValueV)
    requires
        encode_document_cached(v) is Some,
    ensures
        encode_document_cached(v)->0.node is Array,
{
    match v {
        ValueV::MapOf(pairs) => {
            assert(encode_map_cached(pairs, Seq::empty())->0.node is Array);
        },
        _ => {},
    }
}

} // verus!
