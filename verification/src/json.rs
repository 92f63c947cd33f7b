//! The host JSON tree that the codec writes and reads.
//!
//! An object keeps its members in the order in which they were inserted and holds each
//! key once; a float has no place in this tree.

use crate::text::same_text;
use vstd::prelude::*;

verus! {

/// The mathematical model of a host JSON node.
pub enum JsonV {
    Null,
    Bool(bool),
    Int(i64),
    Str(Seq<char>),
    Array(Seq<JsonV>),
    Object(Seq<(Seq<char>, JsonV)>),
}

/// A host JSON node. Two nodes are equal where they hold the same, whatever the order of
/// the members of their objects.
#[derive(Debug)]
pub enum Json {
    Null,
    Bool(bool),
    Int(i64),
    Str(String),
    Array(Vec<Json>),
    Object(Vec<(String, Json)>),
}

impl View for Json {
    type V = JsonV;

    open spec fn view(&self) -> JsonV
        decreases self,
    {
        match self {
            Json::Null => JsonV::Null,
            Json::Bool(b) => JsonV::Bool(*b),
            Json::Int(n) => JsonV::Int(*n),
            Json::Str(s) => JsonV::Str(s@),
            Json::Array(items) => JsonV::Array(array_view(items@)),
            Json::Object(members) => JsonV::Object(object_view(members@)),
        }
    }
}

/// The models of the nodes of `items`, in order.
pub open spec fn array_view(items: Seq<Json>) -> Seq<JsonV>
    decreases items,
{
    if items.len() == 0 {
        Seq::empty()
    } else {
        array_view(items.drop_last()).push(items.last().view())
    }
}

/// The models of the members of `members`, in order.
pub open spec fn object_view(members: Seq<(String, Json)>) -> Seq<(Seq<char>, JsonV)>
    decreases members,
{
    if members.len() == 0 {
        Seq::empty()
    } else {
        object_view(members.drop_last()).push((members.last().0@, members.last().1.view()))
    }
}

/// The model of an array has the model of each item at the item's place.
pub proof fn lemma_array_view(items: Seq<Json>)
    ensures
        array_view(items).len() == items.len(),
        forall|i: int| 0 <= i < items.len() ==> (#[trigger] array_view(items)[i]) == items[i]@,
    decreases items.len(),
{
    if items.len() > 0 {
        lemma_array_view(items.drop_last());
        assert(array_view(items) == array_view(items.drop_last()).push(items.last()@));
    } else {
        assert(array_view(items).len() == 0);
    }
}

/// The model of an object has the model of each member at the member's place.
pub proof fn lemma_object_view(members: Seq<(String, Json)>)
    ensures
        object_view(members).len() == members.len(),
        forall|i: int|
            0 <= i < members.len() ==> (#[trigger] object_view(members)[i]) == (
                members[i].0@,
                members[i].1@,
            ),
    decreases members.len(),
{
    if members.len() > 0 {
        lemma_object_view(members.drop_last());
        assert(object_view(members) == object_view(members.drop_last()).push(
            (members.last().0@, members.last().1@),
        ));
    } else {
        assert(object_view(members).len() == 0);
    }
}

/// The model of an array that got one more item.
pub proof fn lemma_array_view_push(items: Seq<Json>, item: Json)
    ensures
        array_view(items.push(item)) == array_view(items).push(item@),
{
    assert(items.push(item).drop_last() =~= items);
}

/// The first position at or after `from` at which a member with key `key` stands.
pub open spec fn member_from(members: Seq<(Seq<char>, JsonV)>, key: Seq<char>, from: int) -> Option<
    int,
>
    decreases members.len() - from,
{
    if from < 0 || from >= members.len() {
        None
    } else if members[from].0 == key {
        Some(from)
    } else {
        member_from(members, key, from + 1)
    }
}

/// Where the member with key `key` stands, if there is one.
pub open spec fn member_index(members: Seq<(Seq<char>, JsonV)>, key: Seq<char>) -> Option<int> {
    member_from(members, key, 0)
}

/// The members of an object after `key` was given `value`: a key that the object holds
/// keeps its place and gets the new value, a new key goes to the end.
pub open spec fn insert_member(
    members: Seq<(Seq<char>, JsonV)>,
    key: Seq<char>,
    value: JsonV,
) -> Seq<(Seq<char>, JsonV)> {
    match member_index(members, key) {
        Some(i) => members.update(i, (key, value)),
        None => members.push((key, value)),
    }
}

/// No key stands twice among `members`.
pub open spec fn distinct_keys(members: Seq<(Seq<char>, JsonV)>) -> bool {
    forall|i: int, j: int|
        0 <= i < j < members.len() ==> (#[trigger] members[i]).0 != (#[trigger] members[j]).0
}

/// Where `member_from` finds a key, the key stands; where it finds none, there is none.
pub proof fn lemma_member_from(members: Seq<(Seq<char>, JsonV)>, key: Seq<char>, from: int)
    requires
        0 <= from,
    ensures
        match member_from(members, key, from) {
            Some(i) => from <= i < members.len() && members[i].0 == key,
            None => forall|i: int| from <= i < members.len() ==> (#[trigger] members[i]).0 != key,
        },
    decreases members.len() - from,
{
    if from < members.len() && members[from].0 != key {
        lemma_member_from(members, key, from + 1);
    }
}

/// Inserting a member keeps the keys of an object distinct.
pub proof fn lemma_insert_member_distinct(
    members: Seq<(Seq<char>, JsonV)>,
    key: Seq<char>,
    value: JsonV,
)
    requires
        distinct_keys(members),
    ensures
        distinct_keys(insert_member(members, key, value)),
{
    lemma_member_from(members, key, 0);
    let after = insert_member(members, key, value);
    assert forall|i: int, j: int| 0 <= i < j < after.len() implies (#[trigger] after[i]).0 != (
    #[trigger] after[j]).0 by {
        match member_index(members, key) {
            Some(at) => {
                assert(after[i].0 == members[i].0);
                assert(after[j].0 == members[j].0);
            },
            None => {
                if j < members.len() {
                    assert(after[i] == members[i] && after[j] == members[j]);
                } else {
                    assert(after[i] == members[i]);
                }
            },
        }
    }
}

/// Every one of the values of `members` is well-formed.
pub open spec fn all_members_wf(members: Seq<(Seq<char>, JsonV)>) -> bool {
    forall|i: int| 0 <= i < members.len() ==> (#[trigger] members[i]).1.wf()
}

/// Inserting a well-formed node among well-formed members leaves well-formed members
/// with distinct keys.
pub proof fn lemma_insert_member_wf(members: Seq<(Seq<char>, JsonV)>, key: Seq<char>, value: JsonV)
    requires
        distinct_keys(members),
        all_members_wf(members),
        value.wf(),
    ensures
        distinct_keys(insert_member(members, key, value)),
        all_members_wf(insert_member(members, key, value)),
{
    lemma_insert_member_distinct(members, key, value);
    lemma_member_from(members, key, 0);
    let after = insert_member(members, key, value);
    assert forall|i: int| 0 <= i < after.len() implies (#[trigger] after[i]).1.wf() by {
        match member_index(members, key) {
            Some(at) => {
                if i != at {
                    assert(after[i] == members[i]);
                }
            },
            None => {
                if i < members.len() {
                    assert(after[i] == members[i]);
                }
            },
        }
    }
}

impl JsonV {
    /// Every object in the node holds each of its keys once.
    pub open spec fn wf(self) -> bool
        decreases self,
    {
        match self {
            JsonV::Array(items) => forall|i: int|
                0 <= i < items.len() ==> (#[trigger] items[i]).wf(),
            JsonV::Object(members) => distinct_keys(members) && forall|i: int|
                0 <= i < members.len() ==> (#[trigger] members[i]).1.wf(),
            _ => true,
        }
    }

    /// An array or an object: what the root of a document has to be.
    pub open spec fn is_composite(self) -> bool {
        self is Array || self is Object
    }
}

/// Gives `key` the value `value` among the members of an object.
pub fn insert(members: &mut Vec<(String, Json)>, key: String, value: Json)
    ensures
        object_view(final(members)@) == insert_member(object_view(old(members)@), key@, value@),
{
    let ghost before = object_view(members@);
    proof {
        lemma_object_view(members@);
    }
    let mut i: usize = 0;
    while i < members.len()
        invariant
            i <= members.len(),
            *members == *old(members),
            before == object_view(members@),
            member_index(before, key@) == member_from(before, key@, i as int),
        decreases members.len() - i,
    {
        proof {
            lemma_object_view(members@);
        }
        if same_text(members[i].0.as_str(), key.as_str()) {
            members[i] = (key, value);
            proof {
                lemma_object_view(members@);
            }
            assert(object_view(members@) =~= insert_member(before, key@, value@));
            return ;
        }
        i += 1;
    }
    members.push((key, value));
    proof {
        lemma_object_view(members@);
    }
    assert(object_view(members@) =~= insert_member(before, key@, value@));
}

impl Json {
    /// An array or an object.
    pub fn is_composite(&self) -> (r: bool)
        ensures
            r == self@.is_composite(),
    {
        match self {
            Json::Array(_) => true,
            Json::Object(_) => true,
            _ => false,
        }
    }
}

/// Whether two nodes hold the same: scalars that are equal, arrays with the same items in
/// the same order, objects of one size in which each member of the first has its like under
/// the same key in the second.
pub open spec fn same_json(a: JsonV, b: JsonV) -> bool
    decreases a, 0nat,
{
    match a {
        JsonV::Array(xs) => b is Array && xs.len() == b->Array_0.len() && same_items(
            xs,
            b->Array_0,
            xs.len() as int,
        ),
        JsonV::Object(ms) => b is Object && ms.len() == b->Object_0.len() && same_members(
            ms,
            b->Object_0,
            ms.len() as int,
        ),
        _ => a == b,
    }
}

/// Whether the first `n` of `xs` and of `ys` hold the same, item by item.
pub open spec fn same_items(xs: Seq<JsonV>, ys: Seq<JsonV>, n: int) -> bool
    decreases xs, n,
{
    if n <= 0 || n > xs.len() {
        true
    } else {
        same_items(xs, ys, n - 1) && same_json(xs[n - 1], ys[n - 1])
    }
}

/// Whether each of the first `n` members of `ms` has its like under the same key in `os`.
pub open spec fn same_members(
    ms: Seq<(Seq<char>, JsonV)>,
    os: Seq<(Seq<char>, JsonV)>,
    n: int,
) -> bool
    decreases ms, n,
{
    if n <= 0 || n > ms.len() {
        true
    } else {
        same_members(ms, os, n - 1) && match member_index(os, ms[n - 1].0) {
            Some(at) => same_json(ms[n - 1].1, os[at].1),
            None => false,
        }
    }
}

/// Where the member with the key `key` stands among `members`, if there is one.
pub fn find_member(members: &Vec<(String, Json)>, key: &str) -> (at: Option<usize>)
    ensures
        match at {
            Some(at) => member_index(object_view(members@), key@) == Some(at as int) && at
                < members.len(),
            None => member_index(object_view(members@), key@) is None,
        },
{
    proof {
        lemma_object_view(members@);
    }
    let mut i: usize = 0;
    while i < members.len()
        invariant
            i <= members.len(),
            object_view(members@).len() == members@.len(),
            forall|j: int|
                0 <= j < members@.len() ==> (#[trigger] object_view(members@)[j]) == (
                    members@[j].0@,
                    members@[j].1@,
                ),
            member_index(object_view(members@), key@) == member_from(
                object_view(members@),
                key@,
                i as int,
            ),
        decreases members.len() - i,
    {
        if same_text(members[i].0.as_str(), key) {
            return Some(i);
        }
        i += 1;
    }
    None
}

impl Json {
    /// Whether `self` and `other` hold the same.
    pub fn same(&self, other: &Json) -> (r: bool)
        ensures
            r == same_json(self@, other@),
        decreases self,
    {
        match self {
            Json::Null => match other {
                Json::Null => true,
                _ => false,
            },
            Json::Bool(a) => match other {
                Json::Bool(b) => *a == *b,
                _ => false,
            },
            Json::Int(a) => match other {
                Json::Int(b) => *a == *b,
                _ => false,
            },
            Json::Str(a) => match other {
                Json::Str(b) => same_text(a.as_str(), b.as_str()),
                _ => false,
            },
            Json::Array(xs) => match other {
                Json::Array(ys) => {
                    proof {
                        lemma_array_view(xs@);
                        lemma_array_view(ys@);
                    }
                    if xs.len() != ys.len() {
                        return false;
                    }
                    let mut i: usize = 0;
                    while i < xs.len()
                        invariant
                            i <= xs.len(),
                            xs.len() == ys.len(),
                            self == Json::Array(*xs),
                            other == Json::Array(*ys),
                            array_view(xs@).len() == xs@.len(),
                            array_view(ys@).len() == ys@.len(),
                            forall|j: int|
                                0 <= j < xs@.len() ==> (#[trigger] array_view(xs@)[j]) == xs@[j]@,
                            forall|j: int|
                                0 <= j < ys@.len() ==> (#[trigger] array_view(ys@)[j]) == ys@[j]@,
                            same_items(array_view(xs@), array_view(ys@), i as int),
                        decreases xs.len() - i,
                    {
                        assert(decreases_to!(self => self->Array_0@[i as int]));
                        if !xs[i].same(&ys[i]) {
                            proof {
                                assert(!same_items(array_view(xs@), array_view(ys@), i + 1));
                                lemma_same_items_fails(
                                    array_view(xs@),
                                    array_view(ys@),
                                    i + 1,
                                    xs.len() as int,
                                );
                            }
                            return false;
                        }
                        i += 1;
                    }
                    true
                },
                _ => false,
            },
            Json::Object(ms) => match other {
                Json::Object(os) => {
                    proof {
                        lemma_object_view(ms@);
                        lemma_object_view(os@);
                    }
                    if ms.len() != os.len() {
                        return false;
                    }
                    let mut i: usize = 0;
                    while i < ms.len()
                        invariant
                            i <= ms.len(),
                            ms.len() == os.len(),
                            self == Json::Object(*ms),
                            other == Json::Object(*os),
                            object_view(ms@).len() == ms@.len(),
                            object_view(os@).len() == os@.len(),
                            forall|j: int|
                                0 <= j < ms@.len() ==> (#[trigger] object_view(ms@)[j]) == (
                                    ms@[j].0@,
                                    ms@[j].1@,
                                ),
                            forall|j: int|
                                0 <= j < os@.len() ==> (#[trigger] object_view(os@)[j]) == (
                                    os@[j].0@,
                                    os@[j].1@,
                                ),
                            same_members(object_view(ms@), object_view(os@), i as int),
                        decreases ms.len() - i,
                    {
                        assert(decreases_to!(self => self->Object_0@[i as int].1));
                        let like = match find_member(os, ms[i].0.as_str()) {
                            Some(at) => ms[i].1.same(&os[at].1),
                            None => false,
                        };
                        if !like {
                            proof {
                                assert(!same_members(object_view(ms@), object_view(os@), i + 1));
                                lemma_same_members_fails(
                                    object_view(ms@),
                                    object_view(os@),
                                    i + 1,
                                    ms.len() as int,
                                );
                            }
                            return false;
                        }
                        i += 1;
                    }
                    true
                },
                _ => false,
            },
        }
    }
}

/// Once the first `n` items do not hold the same, no longer run of them does.
pub proof fn lemma_same_items_fails(xs: Seq<JsonV>, ys: Seq<JsonV>, n: int, m: int)
    requires
        0 <= n <= m <= xs.len(),
        !same_items(xs, ys, n),
    ensures
        !same_items(xs, ys, m),
    decreases m - n,
{
    if n < m {
        lemma_same_items_fails(xs, ys, n, m - 1);
    }
}

/// Once one of the first `n` members has no like, none of the longer runs has all.
pub proof fn lemma_same_members_fails(
    ms: Seq<(Seq<char>, JsonV)>,
    os: Seq<(Seq<char>, JsonV)>,
    n: int,
    m: int,
)
    requires
        0 <= n <= m <= ms.len(),
        !same_members(ms, os, n),
    ensures
        !same_members(ms, os, m),
    decreases m - n,
{
    if n < m {
        lemma_same_members_fails(ms, os, n, m - 1);
    }
}

impl PartialEq for Json {
    fn eq(&self, other: &Json) -> (r: bool) {
        self.same(other)
    }
}

impl vstd::std_specs::cmp::PartialEqSpecImpl for Json {
    open spec fn obeys_eq_spec() -> bool {
        true
    }

    open spec fn eq_spec(&self, other: &Json) -> bool {
        same_json(self@, other@)
    }
}

} // verus!
