//! The logical Transit value, independent of any surface.

use crate::de::TransitType;
use crate::text::same_text;
use crate::tilde::{has_tag_prefix, is_tag};
use vstd::prelude::*;

verus! {

/// The mathematical model of a Transit value.
pub enum ValueV {
    Null,
    Bool(bool),
    Int(i64),
    Str(Seq<char>),
    /// A point in time, held as its text.
    Instant(Seq<char>),
    List(Seq<ValueV>),
    SetOf(Seq<ValueV>),
    /// The pairs of a map, keys first.
    MapOf(Seq<(ValueV, ValueV)>),
    /// A tag and the items of its array.
    TaggedArray(Seq<char>, Seq<ValueV>),
    /// A tag and the pairs of its map.
    TaggedMap(Seq<char>, Seq<(ValueV, ValueV)>),
}

/// A Transit value.
#[derive(Debug, PartialEq, Eq)]
pub enum Value {
    Null,
    Bool(bool),
    Int(i64),
    Str(String),
    /// A point in time, held as its text.
    Instant(String),
    List(Vec<Value>),
    SetOf(Vec<Value>),
    /// The pairs of a map, keys first.
    MapOf(Vec<(Value, Value)>),
    /// A tag, which begins with `~#`, and the items of its array.
    TaggedArray(String, Vec<Value>),
    /// A tag, which begins with `~#`, and the pairs of its map.
    TaggedMap(String, Vec<(Value, Value)>),
}

impl View for Value {
    type V = ValueV;

    open spec fn view(&self) -> ValueV
        decreases self,
    {
        match self {
            Value::Null => ValueV::Null,
            Value::Bool(b) => ValueV::Bool(*b),
            Value::Int(n) => ValueV::Int(*n),
            Value::Str(s) => ValueV::Str(s@),
            Value::Instant(t) => ValueV::Instant(t@),
            Value::List(items) => ValueV::List(items_view(items@)),
            Value::SetOf(items) => ValueV::SetOf(items_view(items@)),
            Value::MapOf(pairs) => ValueV::MapOf(pairs_view(pairs@)),
            Value::TaggedArray(tag, items) => ValueV::TaggedArray(tag@, items_view(items@)),
            Value::TaggedMap(tag, pairs) => ValueV::TaggedMap(tag@, pairs_view(pairs@)),
        }
    }
}

/// The models of `items`, in order.
pub open spec fn items_view(items: Seq<Value>) -> Seq<ValueV>
    decreases items,
{
    if items.len() == 0 {
        Seq::empty()
    } else {
        items_view(items.drop_last()).push(items.last().view())
    }
}

/// The models of `pairs`, in order.
pub open spec fn pairs_view(pairs: Seq<(Value, Value)>) -> Seq<(ValueV, ValueV)>
    decreases pairs,
{
    if pairs.len() == 0 {
        Seq::empty()
    } else {
        pairs_view(pairs.drop_last()).push((pairs.last().0.view(), pairs.last().1.view()))
    }
}

/// The model of a sequence of values has the model of each value at the value's place.
pub proof fn lemma_items_view(items: Seq<Value>)
    ensures
        items_view(items).len() == items.len(),
        forall|i: int| 0 <= i < items.len() ==> (#[trigger] items_view(items)[i]) == items[i]@,
        forall|i: int|
            0 <= i <= items.len() ==> (#[trigger] items_view(items).take(i)) == items_view(
                items.take(i),
            ),
    decreases items.len(),
{
    if items.len() > 0 {
        lemma_items_view(items.drop_last());
        assert(items_view(items) == items_view(items.drop_last()).push(items.last()@));
        assert forall|i: int| 0 <= i <= items.len() implies (#[trigger] items_view(items).take(i))
            == items_view(items.take(i)) by {
            if i == items.len() {
                assert(items.take(i) =~= items);
                assert(items_view(items).take(i) =~= items_view(items));
            } else {
                assert(items.take(i) =~= items.drop_last().take(i));
                assert(items_view(items).take(i) =~= items_view(items.drop_last()).take(i));
            }
        }
    } else {
        assert(items_view(items).len() == 0);
        assert forall|i: int| 0 <= i <= items.len() implies (#[trigger] items_view(items).take(i))
            == items_view(items.take(i)) by {
            assert(items.take(i) =~= items);
            assert(items_view(items).take(i) =~= items_view(items));
        }
    }
}

/// The model of a sequence of pairs has the model of each pair at the pair's place.
pub proof fn lemma_pairs_view(pairs: Seq<(Value, Value)>)
    ensures
        pairs_view(pairs).len() == pairs.len(),
        forall|i: int|
            0 <= i < pairs.len() ==> (#[trigger] pairs_view(pairs)[i]) == (
                pairs[i].0@,
                pairs[i].1@,
            ),
        forall|i: int|
            0 <= i <= pairs.len() ==> (#[trigger] pairs_view(pairs).take(i)) == pairs_view(
                pairs.take(i),
            ),
    decreases pairs.len(),
{
    if pairs.len() > 0 {
        lemma_pairs_view(pairs.drop_last());
        assert(pairs_view(pairs) == pairs_view(pairs.drop_last()).push(
            (pairs.last().0@, pairs.last().1@),
        ));
        assert forall|i: int| 0 <= i <= pairs.len() implies (#[trigger] pairs_view(pairs).take(i))
            == pairs_view(pairs.take(i)) by {
            if i == pairs.len() {
                assert(pairs.take(i) =~= pairs);
                assert(pairs_view(pairs).take(i) =~= pairs_view(pairs));
            } else {
                assert(pairs.take(i) =~= pairs.drop_last().take(i));
                assert(pairs_view(pairs).take(i) =~= pairs_view(pairs.drop_last()).take(i));
            }
        }
    } else {
        assert(pairs_view(pairs).len() == 0);
        assert forall|i: int| 0 <= i <= pairs.len() implies (#[trigger] pairs_view(pairs).take(i))
            == pairs_view(pairs.take(i)) by {
            assert(pairs.take(i) =~= pairs);
            assert(pairs_view(pairs).take(i) =~= pairs_view(pairs));
        }
    }
}

/// The model of a sequence of values that got one more value.
pub proof fn lemma_items_view_push(items: Seq<Value>, item: Value)
    ensures
        items_view(items.push(item)) == items_view(items).push(item@),
{
    assert(items.push(item).drop_last() =~= items);
}

/// The model of a sequence of pairs that got one more pair.
pub proof fn lemma_pairs_view_push(pairs: Seq<(Value, Value)>, pair: (Value, Value))
    ensures
        pairs_view(pairs.push(pair)) == pairs_view(pairs).push((pair.0@, pair.1@)),
{
    assert(pairs.push(pair).drop_last() =~= pairs);
}

/// No value stands twice among `items`.
pub open spec fn distinct_items(items: Seq<ValueV>) -> bool {
    forall|i: int, j: int| 0 <= i < j < items.len() ==> #[trigger] items[i] != #[trigger] items[j]
}

/// No key stands twice among `pairs`.
pub open spec fn distinct_keys(pairs: Seq<(ValueV, ValueV)>) -> bool {
    forall|i: int, j: int|
        0 <= i < j < pairs.len() ==> (#[trigger] pairs[i]).0 != (#[trigger] pairs[j]).0
}

impl ValueV {
    /// The kind of the value: a scalar can stand as one host string, a composite cannot.
    pub open spec fn kind(self) -> TransitType {
        match self {
            ValueV::Null | ValueV::Bool(_) | ValueV::Int(_) | ValueV::Str(_) | ValueV::Instant(
                _,
            ) => TransitType::Scalar,
            _ => TransitType::Composite,
        }
    }

    /// The tag of a tagged composite.
    pub open spec fn tag(self) -> Option<Seq<char>> {
        match self {
            ValueV::TaggedArray(tag, _) => Some(tag),
            ValueV::TaggedMap(tag, _) => Some(tag),
            _ => None,
        }
    }

    /// Every map in the value holds each of its keys once, every set holds each of its items
    /// once, and every tag begins with `~#`.
    pub open spec fn wf(self) -> bool
        decreases self,
    {
        match self {
            ValueV::List(items) => forall|i: int|
                0 <= i < items.len() ==> (#[trigger] items[i]).wf(),
            ValueV::SetOf(items) => distinct_items(items) && forall|i: int|
                0 <= i < items.len() ==> (#[trigger] items[i]).wf(),
            ValueV::MapOf(pairs) => distinct_keys(pairs) && forall|i: int|
                0 <= i < pairs.len() ==> (#[trigger] pairs[i]).0.wf() && pairs[i].1.wf(),
            ValueV::TaggedArray(tag, items) => is_tag(tag) && forall|i: int|
                0 <= i < items.len() ==> (#[trigger] items[i]).wf(),
            ValueV::TaggedMap(tag, pairs) => is_tag(tag) && distinct_keys(pairs) && forall|i: int|
                0 <= i < pairs.len() ==> (#[trigger] pairs[i]).0.wf() && pairs[i].1.wf(),
            _ => true,
        }
    }
}

/// The text of the point in time `secs` seconds and `nanos` nanoseconds after the start of
/// 1970 in UTC, or `None` where the calendar that writes it has no such point.
pub uninterp spec fn instant_form(secs: i64, nanos: u32) -> Option<Seq<char>>;

/// Writes a point in time as text.
///
/// Trusted: calls `chrono::DateTime::from_timestamp` and writes what it gives in the
/// `Debug` form of `chrono::DateTime<Utc>`, which is a date, `T`, a time of day and `Z`.
/// The result depends on the two numbers alone; it is `None` where the number of seconds
/// is out of the range of the calendar or the number of nanoseconds is no valid one.
#[verifier::external_body]
fn format_instant(secs: i64, nanos: u32) -> (text: Option<String>)
    ensures
        match text {
            Some(t) => instant_form(secs, nanos) == Some(t@),
            None => instant_form(secs, nanos) is None,
        },
{
    match chrono::DateTime::from_timestamp(secs, nanos) {
        Some(t) => Some(format!("{:?}", t)),
        None => None,
    }
}

impl Value {
    /// The instant `secs` seconds and `nanos` nanoseconds after the start of 1970 in UTC,
    /// or `None` where there is no such instant.
    pub fn instant(secs: i64, nanos: u32) -> (v: Option<Value>)
        ensures
            match v {
                Some(v) => instant_form(secs, nanos) == Some(v@->Instant_0) && v@ is Instant,
                None => instant_form(secs, nanos) is None,
            },
    {
        match format_instant(secs, nanos) {
            Some(text) => Some(Value::Instant(text)),
            None => None,
        }
    }

    /// The kind of the value.
    pub fn kind(&self) -> (k: TransitType)
        ensures
            k == self@.kind(),
    {
        match self {
            Value::Null | Value::Bool(_) | Value::Int(_) | Value::Str(_) | Value::Instant(_) => {
                TransitType::Scalar
            },
            _ => TransitType::Composite,
        }
    }
}

impl Value {
    /// Whether `self` and `other` are the same value.
    pub fn same(&self, other: &Value) -> (r: bool)
        ensures
            r == (self@ == other@),
        decreases self, 0nat,
    {
        match self {
            Value::Null => match other {
                Value::Null => true,
                _ => false,
            },
            Value::Bool(a) => match other {
                Value::Bool(b) => *a == *b,
                _ => false,
            },
            Value::Int(a) => match other {
                Value::Int(b) => *a == *b,
                _ => false,
            },
            Value::Str(a) => match other {
                Value::Str(b) => same_text(a.as_str(), b.as_str()),
                _ => false,
            },
            Value::Instant(a) => match other {
                Value::Instant(b) => same_text(a.as_str(), b.as_str()),
                _ => false,
            },
            Value::List(a) => match other {
                Value::List(b) => same_items(a, b),
                _ => false,
            },
            Value::SetOf(a) => match other {
                Value::SetOf(b) => same_items(a, b),
                _ => false,
            },
            Value::MapOf(a) => match other {
                Value::MapOf(b) => same_pairs(a, b),
                _ => false,
            },
            Value::TaggedArray(s, a) => match other {
                Value::TaggedArray(t, b) => same_text(s.as_str(), t.as_str()) && same_items(a, b),
                _ => false,
            },
            Value::TaggedMap(s, a) => match other {
                Value::TaggedMap(t, b) => same_text(s.as_str(), t.as_str()) && same_pairs(a, b),
                _ => false,
            },
        }
    }

    /// Whether every map in the value holds each of its keys once, every set each of its
    /// items once, and every tag begins with `~#`: what it takes for the value to be read
    /// back from what is written for it.
    pub fn is_well_formed(&self) -> (r: bool)
        ensures
            r == self@.wf(),
        decreases self, 0nat,
    {
        match self {
            Value::List(items) => {
                assert(self@->List_0 == items_view(items@));
                all_well_formed(items)
            },
            Value::SetOf(items) => {
                assert(self@->SetOf_0 == items_view(items@));
                all_well_formed(items) && all_distinct(items)
            },
            Value::MapOf(pairs) => {
                assert(self@->MapOf_0 == pairs_view(pairs@));
                pairs_well_formed(pairs)
            },
            Value::TaggedArray(tag, items) => {
                assert(self@->TaggedArray_1 == items_view(items@));
                has_tag_prefix(tag.as_str()) && all_well_formed(items)
            },
            Value::TaggedMap(tag, pairs) => {
                assert(self@->TaggedMap_1 == pairs_view(pairs@));
                has_tag_prefix(tag.as_str()) && pairs_well_formed(pairs)
            },
            _ => true,
        }
    }
}

/// All the values of `items` are well-formed.
pub open spec fn all_wf(items: Seq<ValueV>) -> bool {
    forall|i: int| 0 <= i < items.len() ==> (#[trigger] items[i]).wf()
}

/// All the keys and values of `pairs` are well-formed.
pub open spec fn all_pairs_wf(pairs: Seq<(ValueV, ValueV)>) -> bool {
    forall|i: int| 0 <= i < pairs.len() ==> (#[trigger] pairs[i]).0.wf() && pairs[i].1.wf()
}

/// Whether `a` and `b` hold the same values in the same order.
pub fn same_items(a: &Vec<Value>, b: &Vec<Value>) -> (r: bool)
    ensures
        r == (items_view(a@) == items_view(b@)),
    decreases a, 1nat,
{
    proof {
        lemma_items_view(a@);
        lemma_items_view(b@);
    }
    if a.len() != b.len() {
        return false;
    }
    let mut i: usize = 0;
    while i < a.len()
        invariant
            i <= a.len(),
            a.len() == b.len(),
            items_view(a@).len() == a@.len(),
            items_view(b@).len() == b@.len(),
            forall|j: int| 0 <= j < a@.len() ==> (#[trigger] items_view(a@)[j]) == a@[j]@,
            forall|j: int| 0 <= j < b@.len() ==> (#[trigger] items_view(b@)[j]) == b@[j]@,
            forall|j: int| 0 <= j < i ==> (#[trigger] a@[j])@ == b@[j]@,
        decreases a.len() - i,
    {
        if !a[i].same(&b[i]) {
            assert(items_view(a@)[i as int] != items_view(b@)[i as int]);
            return false;
        }
        i += 1;
    }
    assert(items_view(a@) =~= items_view(b@));
    true
}

/// Whether `a` and `b` hold the same pairs in the same order.
pub fn same_pairs(a: &Vec<(Value, Value)>, b: &Vec<(Value, Value)>) -> (r: bool)
    ensures
        r == (pairs_view(a@) == pairs_view(b@)),
    decreases a, 1nat,
{
    proof {
        lemma_pairs_view(a@);
        lemma_pairs_view(b@);
    }
    if a.len() != b.len() {
        return false;
    }
    let mut i: usize = 0;
    while i < a.len()
        invariant
            i <= a.len(),
            a.len() == b.len(),
            pairs_view(a@).len() == a@.len(),
            pairs_view(b@).len() == b@.len(),
            forall|j: int|
                0 <= j < a@.len() ==> (#[trigger] pairs_view(a@)[j]) == (a@[j].0@, a@[j].1@),
            forall|j: int|
                0 <= j < b@.len() ==> (#[trigger] pairs_view(b@)[j]) == (b@[j].0@, b@[j].1@),
            forall|j: int|
                0 <= j < i ==> (#[trigger] a@[j]).0@ == b@[j].0@ && a@[j].1@ == b@[j].1@,
        decreases a.len() - i,
    {
        if !a[i].0.same(&b[i].0) || !a[i].1.same(&b[i].1) {
            assert(pairs_view(a@)[i as int] != pairs_view(b@)[i as int]);
            return false;
        }
        i += 1;
    }
    assert(pairs_view(a@) =~= pairs_view(b@));
    true
}

/// Whether every one of `items` is well-formed.
pub fn all_well_formed(items: &Vec<Value>) -> (r: bool)
    ensures
        r == all_wf(items_view(items@)),
    decreases items, 1nat,
{
    proof {
        lemma_items_view(items@);
    }
    let mut i: usize = 0;
    while i < items.len()
        invariant
            i <= items.len(),
            items_view(items@).len() == items@.len(),
            forall|j: int|
                0 <= j < items@.len() ==> (#[trigger] items_view(items@)[j]) == items@[j]@,
            forall|j: int| 0 <= j < i ==> (#[trigger] items_view(items@)[j]).wf(),
        decreases items.len() - i,
    {
        if !items[i].is_well_formed() {
            assert(!items_view(items@)[i as int].wf());
            return false;
        }
        i += 1;
    }
    true
}

/// Whether no value stands twice among `items`.
pub fn all_distinct(items: &Vec<Value>) -> (r: bool)
    ensures
        r == distinct_items(items_view(items@)),
{
    let ghost iv = items_view(items@);
    proof {
        lemma_items_view(items@);
    }
    let mut j: usize = 0;
    while j < items.len()
        invariant
            j <= items.len(),
            iv == items_view(items@),
            iv.len() == items@.len(),
            forall|k: int| 0 <= k < items@.len() ==> (#[trigger] iv[k]) == items@[k]@,
            forall|i: int, k: int| 0 <= i < k < j ==> #[trigger] iv[i] != #[trigger] iv[k],
        decreases items.len() - j,
    {
        let mut i: usize = 0;
        while i < j
            invariant
                i <= j < items.len(),
                iv == items_view(items@),
                iv.len() == items@.len(),
                forall|k: int| 0 <= k < items@.len() ==> (#[trigger] iv[k]) == items@[k]@,
                forall|k: int| 0 <= k < i ==> (#[trigger] iv[k]) != iv[j as int],
            decreases j - i,
        {
            if items[i].same(&items[j]) {
                assert(iv[i as int] == iv[j as int]);
                return false;
            }
            i += 1;
        }
        j += 1;
    }
    true
}

/// Whether no key stands twice among `pairs` and every key and value is well-formed.
pub fn pairs_well_formed(pairs: &Vec<(Value, Value)>) -> (r: bool)
    ensures
        r == (distinct_keys(pairs_view(pairs@)) && all_pairs_wf(pairs_view(pairs@))),
    decreases pairs, 1nat,
{
    let ghost pv = pairs_view(pairs@);
    proof {
        lemma_pairs_view(pairs@);
    }
    let mut j: usize = 0;
    while j < pairs.len()
        invariant
            j <= pairs.len(),
            pv == pairs_view(pairs@),
            pv.len() == pairs@.len(),
            forall|k: int|
                0 <= k < pairs@.len() ==> (#[trigger] pv[k]) == (pairs@[k].0@, pairs@[k].1@),
            forall|k: int| 0 <= k < j ==> (#[trigger] pv[k]).0.wf() && pv[k].1.wf(),
            forall|i: int, k: int| 0 <= i < k < j ==> (#[trigger] pv[i]).0 != (#[trigger] pv[k]).0,
        decreases pairs.len() - j,
    {
        if !pairs[j].0.is_well_formed() || !pairs[j].1.is_well_formed() {
            assert(!(pv[j as int].0.wf() && pv[j as int].1.wf()));
            return false;
        }
        let mut i: usize = 0;
        while i < j
            invariant
                i <= j < pairs.len(),
                pv == pairs_view(pairs@),
                pv.len() == pairs@.len(),
                forall|k: int|
                    0 <= k < pairs@.len() ==> (#[trigger] pv[k]) == (pairs@[k].0@, pairs@[k].1@),
                forall|k: int| 0 <= k < i ==> (#[trigger] pv[k]).0 != pv[j as int].0,
            decreases j - i,
        {
            if pairs[i].0.same(&pairs[j].0) {
                assert(pv[i as int].0 == pv[j as int].0);
                return false;
            }
            i += 1;
        }
        j += 1;
    }
    true
}

} // verus!
