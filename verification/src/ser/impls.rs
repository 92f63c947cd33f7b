//! The types that have a Transit form of their own.

use crate::de::Error;
use crate::ser::{TransitKeySerializer, TransitSerialize, TransitSerializer};
use crate::value::{
    items_view, lemma_items_view_push, lemma_pairs_view_push, pairs_view, Value, ValueV,
};
use vstd::prelude::*;

verus! {

impl Clone for Value {
    fn clone(&self) -> (r: Self)
        ensures
            r@ == self@,
        decreases self, 0nat,
    {
        match self {
            Value::Null => Value::Null,
            Value::Bool(b) => Value::Bool(*b),
            Value::Int(n) => Value::Int(*n),
            Value::Str(s) => Value::Str(s.clone()),
            Value::Instant(t) => Value::Instant(t.clone()),
            Value::List(items) => Value::List(clone_items(items)),
            Value::SetOf(items) => Value::SetOf(clone_items(items)),
            Value::MapOf(pairs) => Value::MapOf(clone_pairs(pairs)),
            Value::TaggedArray(tag, items) => Value::TaggedArray(tag.clone(), clone_items(items)),
            Value::TaggedMap(tag, pairs) => Value::TaggedMap(tag.clone(), clone_pairs(pairs)),
        }
    }
}

/// A copy of each of `items`, in order.
pub fn clone_items(items: &Vec<Value>) -> (r: Vec<Value>)
    ensures
        items_view(r@) == items_view(items@),
    decreases items, 1nat,
{
    let mut r: Vec<Value> = Vec::with_capacity(items.len());
    assert(items_view(r@) =~= items_view(items@.take(0)));
    let mut i: usize = 0;
    while i < items.len()
        invariant
            i <= items.len(),
            items_view(r@) == items_view(items@.take(i as int)),
        decreases items.len() - i,
    {
        let item = items[i].clone();
        proof {
            lemma_items_view_push(r@, item);
            lemma_items_view_push(items@.take(i as int), items@[i as int]);
            assert(items@.take(i + 1) =~= items@.take(i as int).push(items@[i as int]));
        }
        r.push(item);
        i += 1;
    }
    assert(items@.take(items.len() as int) =~= items@);
    r
}

/// A copy of each of `pairs`, in order.
pub fn clone_pairs(pairs: &Vec<(Value, Value)>) -> (r: Vec<(Value, Value)>)
    ensures
        pairs_view(r@) == pairs_view(pairs@),
    decreases pairs, 1nat,
{
    let mut r: Vec<(Value, Value)> = Vec::with_capacity(pairs.len());
    assert(pairs_view(r@) =~= pairs_view(pairs@.take(0)));
    let mut i: usize = 0;
    while i < pairs.len()
        invariant
            i <= pairs.len(),
            pairs_view(r@) == pairs_view(pairs@.take(i as int)),
        decreases pairs.len() - i,
    {
        let k = pairs[i].0.clone();
        let v = pairs[i].1.clone();
        proof {
            lemma_pairs_view_push(r@, (k, v));
            lemma_pairs_view_push(pairs@.take(i as int), pairs@[i as int]);
            assert(pairs@.take(i + 1) =~= pairs@.take(i as int).push(pairs@[i as int]));
        }
        r.push((k, v));
        i += 1;
    }
    assert(pairs@.take(pairs.len() as int) =~= pairs@);
    r
}

impl TransitSerialize for Value {
    open spec fn transit_value(&self) -> ValueV {
        self@
    }

    fn to_value(&self) -> (v: Value) {
        self.clone()
    }
}

impl<T: TransitSerialize + ?Sized> TransitSerialize for Box<T> {
    open spec fn transit_value(&self) -> ValueV {
        (**self).transit_value()
    }

    fn to_value(&self) -> (v: Value) {
        (**self).to_value()
    }

    fn transit_serialize<S: TransitSerializer>(&self, serializer: &mut S) -> (out: Result<
        S::Output,
        Error,
    >) {
        (**self).transit_serialize(serializer)
    }

    fn transit_serialize_key<KS: TransitKeySerializer>(&self, serializer: &mut KS) -> (out: Option<
        Result<KS::Output, Error>,
    >) {
        (**self).transit_serialize_key(serializer)
    }
}

impl<'a, T: TransitSerialize + ?Sized> TransitSerialize for &'a T {
    open spec fn transit_value(&self) -> ValueV {
        (**self).transit_value()
    }

    fn to_value(&self) -> (v: Value) {
        (**self).to_value()
    }

    fn transit_serialize<S: TransitSerializer>(&self, serializer: &mut S) -> (out: Result<
        S::Output,
        Error,
    >) {
        (**self).transit_serialize(serializer)
    }

    fn transit_serialize_key<KS: TransitKeySerializer>(&self, serializer: &mut KS) -> (out: Option<
        Result<KS::Output, Error>,
    >) {
        (**self).transit_serialize_key(serializer)
    }
}

impl TransitSerialize for bool {
    open spec fn transit_value(&self) -> ValueV {
        ValueV::Bool(*self)
    }

    fn to_value(&self) -> (v: Value) {
        Value::Bool(*self)
    }
}

impl TransitSerialize for i32 {
    open spec fn transit_value(&self) -> ValueV {
        ValueV::Int(*self as i64)
    }

    fn to_value(&self) -> (v: Value) {
        Value::Int(*self as i64)
    }
}

impl TransitSerialize for i64 {
    open spec fn transit_value(&self) -> ValueV {
        ValueV::Int(*self)
    }

    fn to_value(&self) -> (v: Value) {
        Value::Int(*self)
    }
}

impl TransitSerialize for String {
    open spec fn transit_value(&self) -> ValueV {
        ValueV::Str(self@)
    }

    fn to_value(&self) -> (v: Value) {
        Value::Str(self.clone())
    }
}

impl TransitSerialize for str {
    open spec fn transit_value(&self) -> ValueV {
        ValueV::Str(self@)
    }

    fn to_value(&self) -> (v: Value) {
        Value::Str(self.to_owned())
    }
}

impl<T: TransitSerialize> TransitSerialize for Option<T> {
    open spec fn transit_value(&self) -> ValueV {
        match self {
            Some(x) => x.transit_value(),
            None => ValueV::Null,
        }
    }

    fn to_value(&self) -> (v: Value) {
        if let Some(x) = self {
            x.to_value()
        } else {
            Value::Null
        }
    }
}

/// The logical values of `items`, in order.
pub open spec fn values_of<T: TransitSerialize>(items: Seq<T>) -> Seq<ValueV> {
    Seq::new(items.len(), |i: int| items[i].transit_value())
}

impl<T: TransitSerialize> TransitSerialize for Vec<T> {
    open spec fn transit_value(&self) -> ValueV {
        ValueV::List(values_of(self@))
    }

    fn to_value(&self) -> (v: Value) {
        let mut out: Vec<Value> = Vec::with_capacity(self.len());
        let mut i: usize = 0;
        assert(items_view(out@) =~= values_of(self@.take(0)));
        while i < self.len()
            invariant
                i <= self.len(),
                items_view(out@) == values_of(self@.take(i as int)),
            decreases self.len() - i,
        {
            let item = self[i].to_value();
            proof {
                lemma_items_view_push(out@, item);
            }
            out.push(item);
            i += 1;
            assert(values_of(self@.take(i as int)) =~= values_of(self@.take(i - 1)).push(
                self@[i - 1].transit_value(),
            ));
        }
        assert(self@.take(self.len() as int) =~= self@);
        Value::List(out)
    }
}

} // verus!
