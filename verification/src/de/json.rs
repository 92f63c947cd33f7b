//! The cached JSON surface, read: a cached document is turned into the verbose document
//! of the same value, the key cache rebuilt on the way, and then read as a verbose one.
//!
//! The cache is rebuilt in the order of the document, as the encoder filled it: a tag
//! before its payload, a key before its value, the items of an array from first to last.

use crate::cache_codes::{is_reference, resolve, KeyCacher};
use crate::de::admits::{lemma_decode_admits, lemma_decode_document_admits, lemma_decode_key_admits};
use crate::de::impls::{decode, decode_key, deserialize, deserialize_key};
use crate::de::json_verbose::{
    decode_document, read_document as read_verbose_document,
    JsonDeserializer as VerboseDeserializer,
};
use crate::de::{outcome, Error, ErrorKind, Shape, TransitDeserialize, TransitDeserializer};
use crate::envelope::lemma_transcode_wf;
use crate::json::{
    array_view, insert, insert_member, lemma_array_view, lemma_array_view_push, object_view, Json,
    JsonV,
};
use crate::ser::json::{Coded, CodedSeq};
use crate::ser::json_verbose::{tagged, tagged_node};
use crate::ser::TransitSerialize;
use crate::text::chars_vec;
use crate::tilde::{is_tag, map_marker};
use crate::value::{Value, ValueV};
use vstd::prelude::*;

verus! {

/// The members of an object and the table of the cache after they were read.
pub struct CodedMembers {
    pub members: Seq<(Seq<char>, JsonV)>,
    pub table: Seq<Seq<char>>,
}

/// The text of the first of `items`, if there is one and it is a string.
pub open spec fn head_text(items: Seq<JsonV>) -> Option<Seq<char>> {
    if items.len() > 0 {
        match items[0] {
            JsonV::Str(w) => Some(w),
            _ => None,
        }
    } else {
        None
    }
}

/// The verbose node of what the cached node `j` holds, read with the table `table`, and
/// the table afterwards. An array that begins with `^` is a map; one that begins with a
/// tag, or with a reference in place of a tag, is a tagged composite; any other array is a
/// list.
pub open spec fn transcode(j: JsonV, table: Seq<Seq<char>>) -> Result<Coded, ErrorKind>
    decreases j,
{
    match j {
        JsonV::Array(items) => {
            let head = head_text(items);
            if head == Some(map_marker()) {
                if items.len() % 2 != 1 {
                    Err(ErrorKind::DoNotMatch)
                } else {
                    match transcode_entries(items.skip(1), table) {
                        Ok(r) => Ok(Coded { node: JsonV::Object(r.members), table: r.table }),
                        Err(e) => Err(e),
                    }
                }
            } else if head is Some && (is_reference(head->0) || is_tag(head->0)) {
                if items.len() != 2 {
                    Err(ErrorKind::DoNotMatch)
                } else {
                    match resolve(table, head->0) {
                        Ok(p) => match transcode(items[1], p.table) {
                            Ok(c) => Ok(Coded { node: tagged(p.text, c.node), table: c.table }),
                            Err(e) => Err(e),
                        },
                        Err(e) => Err(e),
                    }
                }
            } else {
                match transcode_items(items, table) {
                    Ok(r) => Ok(Coded { node: JsonV::Array(r.nodes), table: r.table }),
                    Err(e) => Err(e),
                }
            }
        },
        JsonV::Object(_) => Err(ErrorKind::DoNotMatch),
        _ => Ok(Coded { node: j, table }),
    }
}

/// The verbose nodes of the cached nodes `items`, read one after the other. The first
/// that cannot be read decides the error.
pub open spec fn transcode_items(items: Seq<JsonV>, table: Seq<Seq<char>>) -> Result<
    CodedSeq,
    ErrorKind,
>
    decreases items,
{
    if items.len() == 0 {
        Ok(CodedSeq { nodes: Seq::empty(), table })
    } else {
        match transcode_items(items.drop_last(), table) {
            Ok(r) => match transcode(items.last(), r.table) {
                Ok(c) => Ok(CodedSeq { nodes: r.nodes.push(c.node), table: c.table }),
                Err(e) => Err(e),
            },
            Err(e) => Err(e),
        }
    }
}

/// The members of the object whose keys and values `flat` holds in turn: each key a
/// string that passes through the cache, each pair inserted in order.
pub open spec fn transcode_entries(flat: Seq<JsonV>, table: Seq<Seq<char>>) -> Result<
    CodedMembers,
    ErrorKind,
>
    decreases flat,
{
    if flat.len() < 2 {
        Ok(CodedMembers { members: Seq::empty(), table })
    } else {
        match transcode_entries(flat.take(flat.len() - 2), table) {
            Ok(r) => match flat[flat.len() - 2] {
                JsonV::Str(w) => match resolve(r.table, w) {
                    Ok(p) => match transcode(flat[flat.len() - 1], p.table) {
                        Ok(c) => Ok(
                            CodedMembers {
                                members: insert_member(r.members, p.text, c.node),
                                table: c.table,
                            },
                        ),
                        Err(e) => Err(e),
                    },
                    Err(e) => Err(e),
                },
                _ => Err(ErrorKind::DoNotMatch),
            },
            Err(e) => Err(e),
        }
    }
}

/// The verbose document of what the cached document `j` holds.
pub open spec fn transcode_document(j: JsonV) -> Result<JsonV, ErrorKind> {
    match transcode(j, Seq::empty()) {
        Ok(c) => Ok(c.node),
        Err(e) => Err(e),
    }
}

/// What a cached document of the shape `shape` holds.
pub open spec fn decode_document_cached(shape: Shape, j: JsonV) -> Result<ValueV, ErrorKind> {
    match transcode_document(j) {
        Ok(verbose) => decode_document(shape, verbose),
        Err(e) => Err(e),
    }
}

/// Once a prefix of the nodes cannot be read, the nodes cannot, and for the same reason.
pub proof fn lemma_transcode_items_prefix(items: Seq<JsonV>, table: Seq<Seq<char>>, n: int)
    requires
        0 <= n <= items.len(),
        transcode_items(items.take(n), table) is Err,
    ensures
        transcode_items(items, table) is Err,
        transcode_items(items, table)->Err_0 == transcode_items(items.take(n), table)->Err_0,
    decreases items.len() - n,
{
    if n < items.len() {
        assert(items.take(n + 1).drop_last() =~= items.take(n));
        lemma_transcode_items_prefix(items, table, n + 1);
    } else {
        assert(items.take(n) =~= items);
    }
}

/// Once a prefix of whole pairs cannot be read, the nodes cannot, and for the same reason.
pub proof fn lemma_transcode_entries_prefix(flat: Seq<JsonV>, table: Seq<Seq<char>>, n: int)
    requires
        0 <= n,
        2 * n <= flat.len(),
        flat.len() % 2 == 0,
        transcode_entries(flat.take(2 * n), table) is Err,
    ensures
        transcode_entries(flat, table) is Err,
        transcode_entries(flat, table)->Err_0 == transcode_entries(flat.take(2 * n), table)->Err_0,
    decreases flat.len() - 2 * n,
{
    if 2 * n < flat.len() {
        let longer = flat.take(2 * n + 2);
        assert(longer.take(longer.len() - 2) =~= flat.take(2 * n));
        lemma_transcode_entries_prefix(flat, table, n + 1);
    } else {
        assert(flat.take(2 * n) =~= flat);
    }
}

/// Turns the cached node `input` into the verbose node of what it holds, with the cache
/// `cache` of the session.
pub fn to_verbose(input: &Json, cache: &mut KeyCacher) -> (out: Result<Json, Error>)
    requires
        old(cache).wf(),
    ensures
        final(cache).wf(),
        old(cache)@.is_prefix_of(final(cache)@),
        match out {
            Ok(j) => transcode(input@, old(cache)@) == Ok::<Coded, ErrorKind>(
                Coded { node: j@, table: final(cache)@ },
            ),
            Err(e) => transcode(input@, old(cache)@) is Err && transcode(input@, old(cache)@)->Err_0
                == e.kind(),
        },
    decreases input, 1nat,
{
    match input {
        Json::Null => Ok(Json::Null),
        Json::Bool(b) => Ok(Json::Bool(*b)),
        Json::Int(n) => Ok(Json::Int(*n)),
        Json::Str(s) => Ok(Json::Str(s.clone())),
        Json::Object(_) => Err(
            Error::DoNotMatch(String::from_str("an object has no place in a cached document")),
        ),
        Json::Array(items) => {
            proof {
                lemma_array_view(items@);
            }
            let head: Option<&String> = if items.len() > 0 {
                match &items[0] {
                    Json::Str(w) => Some(w),
                    _ => None,
                }
            } else {
                None
            };
            assert(match head {
                Some(w) => head_text(array_view(items@)) == Some(w@),
                None => head_text(array_view(items@)) is None,
            });
            match head {
                Some(w) => {
                    let chars = chars_vec(w.as_str());
                    if chars.len() == 1 && chars[0] == '^' {
                        assert(w@ =~= map_marker());
                        if items.len() % 2 != 1 {
                            return Err(
                                Error::DoNotMatch(String::from_str("a key of a map has no value")),
                            );
                        }
                        match entries_to_verbose(items, cache) {
                            Ok(members) => Ok(Json::Object(members)),
                            Err(e) => Err(e),
                        }
                    } else if chars.len() > 0 && chars[0] == '^' || chars.len() >= 2 && chars[0]
                        == '~' && chars[1] == '#' {
                        assert(w@ != map_marker());
                        if items.len() != 2 {
                            return Err(
                                Error::DoNotMatch(
                                    String::from_str("a tag stands before one payload"),
                                ),
                            );
                        }
                        let tag = match cache.resolve(w.clone()) {
                            Ok(tag) => tag,
                            Err(e) => {
                                return Err(e);
                            },
                        };
                        match to_verbose(&items[1], cache) {
                            Ok(payload) => Ok(tagged_node(tag, payload)),
                            Err(e) => Err(e),
                        }
                    } else {
                        assert(w@ != map_marker()) by {
                            if w@ == map_marker() {
                                assert(chars@.len() == 1 && chars@[0] == '^');
                            }
                        }
                        match items_to_verbose(items, cache) {
                            Ok(nodes) => Ok(Json::Array(nodes)),
                            Err(e) => Err(e),
                        }
                    }
                },
                None => match items_to_verbose(items, cache) {
                    Ok(nodes) => Ok(Json::Array(nodes)),
                    Err(e) => Err(e),
                },
            }
        },
    }
}

/// Turns the cached nodes `items` into verbose nodes, one after the other.
pub fn items_to_verbose(items: &Vec<Json>, cache: &mut KeyCacher) -> (out: Result<Vec<Json>, Error>)
    requires
        old(cache).wf(),
    ensures
        final(cache).wf(),
        old(cache)@.is_prefix_of(final(cache)@),
        match out {
            Ok(nodes) => transcode_items(array_view(items@), old(cache)@) == Ok::<
                CodedSeq,
                ErrorKind,
            >(CodedSeq { nodes: array_view(nodes@), table: final(cache)@ }),
            Err(e) => transcode_items(array_view(items@), old(cache)@) is Err && transcode_items(
                array_view(items@),
                old(cache)@,
            )->Err_0 == e.kind(),
        },
    decreases items, 0nat,
{
    let ghost cached = array_view(items@);
    let ghost start = cache@;
    let mut nodes: Vec<Json> = Vec::with_capacity(items.len());
    proof {
        lemma_array_view(items@);
        assert(cached.take(0) =~= Seq::<JsonV>::empty());
        assert(array_view(nodes@) =~= Seq::<JsonV>::empty());
    }
    let mut i: usize = 0;
    while i < items.len()
        invariant
            i <= items.len(),
            cache.wf(),
            start == old(cache)@,
            start.is_prefix_of(cache@),
            cached == array_view(items@),
            cached.len() == items@.len(),
            forall|j: int| 0 <= j < items@.len() ==> (#[trigger] cached[j]) == items@[j]@,
            transcode_items(cached.take(i as int), start) == Ok::<CodedSeq, ErrorKind>(
                CodedSeq { nodes: array_view(nodes@), table: cache@ },
            ),
        decreases items.len() - i,
    {
        proof {
            assert(cached.take(i + 1).drop_last() =~= cached.take(i as int));
        }
        match to_verbose(&items[i], cache) {
            Ok(node) => {
                proof {
                    lemma_array_view_push(nodes@, node);
                }
                nodes.push(node);
            },
            Err(e) => {
                proof {
                    lemma_transcode_items_prefix(cached, start, i + 1);
                }
                return Err(e);
            },
        }
        i += 1;
    }
    assert(cached.take(items.len() as int) =~= cached);
    Ok(nodes)
}

/// Turns the keys and values that follow the `^` at the head of `items` into the members
/// of an object.
fn entries_to_verbose(items: &Vec<Json>, cache: &mut KeyCacher) -> (out: Result<
    Vec<(String, Json)>,
    Error,
>)
    requires
        old(cache).wf(),
        items.len() % 2 == 1,
    ensures
        final(cache).wf(),
        old(cache)@.is_prefix_of(final(cache)@),
        match out {
            Ok(members) => transcode_entries(array_view(items@).skip(1), old(cache)@) == Ok::<
                CodedMembers,
                ErrorKind,
            >(CodedMembers { members: object_view(members@), table: final(cache)@ }),
            Err(e) => transcode_entries(array_view(items@).skip(1), old(cache)@) is Err
                && transcode_entries(array_view(items@).skip(1), old(cache)@)->Err_0 == e.kind(),
        },
    decreases items, 0nat,
{
    let ghost flat = array_view(items@).skip(1);
    let ghost start = cache@;
    let mut members: Vec<(String, Json)> = Vec::with_capacity(items.len() / 2);
    proof {
        lemma_array_view(items@);
        assert(flat.take(0) =~= Seq::<JsonV>::empty());
        assert(object_view(members@) =~= Seq::<(Seq<char>, JsonV)>::empty());
    }
    let mut i: usize = 1;
    while i < items.len()
        invariant
            1 <= i <= items.len(),
            i % 2 == 1,
            items.len() % 2 == 1,
            cache.wf(),
            start == old(cache)@,
            start.is_prefix_of(cache@),
            flat == array_view(items@).skip(1),
            flat.len() == items@.len() - 1,
            forall|j: int| 0 <= j < flat.len() ==> (#[trigger] flat[j]) == items@[j + 1]@,
            transcode_entries(flat.take(i - 1), start) == Ok::<CodedMembers, ErrorKind>(
                CodedMembers { members: object_view(members@), table: cache@ },
            ),
        decreases items.len() - i,
    {
        proof {
            let longer = flat.take(i + 1);
            assert(longer.take(longer.len() - 2) =~= flat.take(i - 1));
            assert(longer[longer.len() - 2] == items@[i as int]@);
            assert(longer[longer.len() - 1] == items@[i + 1]@);
        }
        let text = match &items[i] {
            Json::Str(w) => match cache.resolve(w.clone()) {
                Ok(text) => text,
                Err(e) => {
                    proof {
                        lemma_transcode_entries_prefix(flat, start, (i + 1) / 2);
                    }
                    return Err(e);
                },
            },
            _ => {
                proof {
                    lemma_transcode_entries_prefix(flat, start, (i + 1) / 2);
                }
                return Err(Error::DoNotMatch(String::from_str("a key is not a string")));
            },
        };
        let value = match to_verbose(&items[i + 1], cache) {
            Ok(value) => value,
            Err(e) => {
                proof {
                    lemma_transcode_entries_prefix(flat, start, (i + 1) / 2);
                }
                return Err(e);
            },
        };
        insert(&mut members, text, value);
        i += 2;
    }
    assert(flat.take(items.len() - 1) =~= flat);
    Ok(members)
}

/// Turns the cached document `v` into the verbose document of the same value, which is a
/// well-formed host tree.
pub fn transcode_to_verbose(v: &Json) -> (out: Result<Json, Error>)
    ensures
        match out {
            Ok(j) => transcode_document(v@) == Ok::<JsonV, ErrorKind>(j@) && j@.wf(),
            Err(e) => transcode_document(v@) == Err::<JsonV, ErrorKind>(e.kind()),
        },
{
    let mut cache = KeyCacher::new();
    let out = to_verbose(v, &mut cache);
    proof {
        if out is Ok {
            lemma_transcode_wf(v@, Seq::empty());
        }
    }
    out
}

/// The decoder of the cached surface for one session, with the key cache that it
/// rebuilds.
pub struct JsonDeserializer {
    cache: KeyCacher,
}

impl JsonDeserializer {
    /// The strings that the cache of the session holds, in the order of admission.
    pub closed spec fn table(&self) -> Seq<Seq<char>> {
        self.cache@
    }

    /// The cache of the session is well-formed.
    pub closed spec fn cache_wf(&self) -> bool {
        self.cache.wf()
    }

    /// The decoder of a new session, with an empty cache.
    pub fn new() -> (d: Self)
        ensures
            d.cache_wf(),
            d.table() == Seq::<Seq<char>>::empty(),
    {
        JsonDeserializer { cache: KeyCacher::new() }
    }
}

impl TransitDeserializer for JsonDeserializer {
    type Input = Json;

    open spec fn wf(&self) -> bool {
        self.cache_wf()
    }

    /// The cached surface turns the node into a verbose one, with the table of the
    /// session, which only grows, and reads that as the verbose surface does.
    open spec fn deserialized(
        &self,
        shape: Shape,
        input: &Json,
        out: Result<ValueV, ErrorKind>,
        post: &Self,
    ) -> bool {
        &&& self.table().is_prefix_of(post.table())
        &&& match transcode(input@, self.table()) {
            Ok(c) => out == decode(shape, c.node) && post.table() == c.table,
            Err(e) => out == Err::<ValueV, ErrorKind>(e),
        }
    }

    /// A key text is read as on the verbose surface; a key that is a reference to the
    /// cache is resolved before, when the map that holds it is read.
    open spec fn key_deserialized(
        &self,
        shape: Shape,
        input: Seq<char>,
        out: Result<ValueV, ErrorKind>,
    ) -> bool {
        out == decode_key(shape, input)
    }

    proof fn lemma_deserialized_admits(&self, shape: Shape, input: &Json, v: ValueV, post: &Self) {
        lemma_decode_admits(shape, transcode(input@, self.table())->Ok_0.node);
    }

    proof fn lemma_key_deserialized_admits(&self, shape: Shape, input: Seq<char>, v: ValueV) {
        lemma_decode_key_admits(shape, input);
    }

    fn deserialize_string<'a>(&self, v: &'a Json) -> (r: Result<&'a String, Error>) {
        VerboseDeserializer.deserialize_string(v)
    }

    fn deserialize_bool(&self, v: &Json) -> (r: Result<bool, Error>) {
        VerboseDeserializer.deserialize_bool(v)
    }

    fn deserialize_int(&self, v: &Json) -> (r: Result<i64, Error>) {
        VerboseDeserializer.deserialize_int(v)
    }

    fn deserialize_array<'a>(&self, v: &'a Json) -> (r: Result<
        (&'a Vec<Json>, Option<usize>),
        Error,
    >)
        ensures
            r matches Ok((items, hint)) ==> *v == Json::Array(*items) && hint == Some(items.len()),
    {
        let r = VerboseDeserializer.deserialize_array(v);
        proof {
            if let Ok((items, _)) = r {
                lemma_array_view(items@);
                assert(array_view(items@) =~= Seq::new(items@.len(), |i: int| items@[i]@));
            }
        }
        r
    }

    fn deserialize_map<'a>(&self, v: &'a Json) -> (r: Result<
        (&'a Vec<(String, Json)>, Option<usize>),
        Error,
    >)
        ensures
            r matches Ok((members, hint)) ==> *v == Json::Object(*members) && hint == Some(
                members.len(),
            ),
    {
        let r = VerboseDeserializer.deserialize_map(v);
        proof {
            if let Ok((members, _)) = r {
                crate::json::lemma_object_view(members@);
                assert(object_view(members@) =~= Seq::new(
                    members@.len(),
                    |i: int| (members@[i].0@, members@[i].1@),
                ));
            }
        }
        r
    }

    fn deserialize_value(&mut self, shape: &Shape, input: &Json) -> (r: Result<Value, Error>) {
        match to_verbose(input, &mut self.cache) {
            Ok(verbose) => deserialize(shape, &VerboseDeserializer, &verbose),
            Err(e) => Err(e),
        }
    }

    fn deserialize_key(&self, shape: &Shape, input: &str) -> (r: Result<Value, Error>) {
        deserialize_key(shape, input)
    }
}

/// Reads the cached document `v` as a value of the shape `shape`.
pub fn read_document(shape: &Shape, v: &Json) -> (r: Result<Value, Error>)
    ensures
        outcome(r) == decode_document_cached(*shape, v@),
{
    match transcode_to_verbose(v) {
        Ok(verbose) => read_verbose_document(shape, &verbose),
        Err(e) => Err(e),
    }
}

/// Reads the cached document `v` as a value of the type `T`: it succeeds where the
/// document holds a value of the shape of `T`, and gives what stands for that value.
pub fn from_transit_json<T: TransitDeserialize>(v: &Json) -> (r: Result<T, Error>)
    ensures
        match r {
            Ok(x) => decode_document_cached(T::spec_shape(), v@) == Ok::<ValueV, ErrorKind>(
                x.transit_value(),
            ),
            Err(e) => decode_document_cached(T::spec_shape(), v@) == Err::<ValueV, ErrorKind>(
                e.kind(),
            ),
        },
{
    let shape = T::shape();
    match read_document(&shape, v) {
        Ok(value) => {
            proof {
                lemma_decode_document_admits(shape, transcode_document(v@)->Ok_0);
            }
            T::from_value(value)
        },
        Err(e) => Err(e),
    }
}

} // verus!
