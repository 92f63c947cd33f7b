//! The values of user types: a record is a tagged map from the names of its fields to
//! their values, a tuple is a tagged array of its items, and the tag of either is made of
//! the name of the type, or of the variant of an enum, in lower case.

use crate::tilde::{is_tag, quote_tag};
use crate::value::{lemma_pairs_view_push, pairs_view, Value, ValueV};
use vstd::prelude::*;
use vstd::string::StringExecFns;

verus! {

/// The text `s` in lower case.
pub uninterp spec fn lowercased(s: Seq<char>) -> Seq<char>;

/// Turns a text into lower case.
///
/// Trusted: calls `str::to_lowercase`, which gives the lower case of the text by the
/// rules of Unicode; the result depends on the text alone.
#[verifier::external_body]
fn lowercase(s: &str) -> (r: String)
    ensures
        r@ == lowercased(s@),
{
    s.to_lowercase()
}

/// The tag of the type or variant `name`: `~#` and then the name in lower case.
pub open spec fn tag_of(name: Seq<char>) -> Seq<char> {
    quote_tag() + lowercased(name)
}

/// The pairs of a record: the name of each field as a string, and its value.
pub open spec fn field_pairs(fields: Seq<(String, Value)>) -> Seq<(ValueV, ValueV)> {
    Seq::new(fields.len(), |i: int| (ValueV::Str(fields[i].0@), fields[i].1@))
}

/// The tag made of `~#` and the text `lower`.
pub fn tag_from(lower: &str) -> (tag: String)
    ensures
        tag@ == quote_tag() + lower@,
        is_tag(tag@),
{
    proof {
        reveal_strlit("~#");
    }
    let mut tag = String::from_str("~#");
    assert(tag@ =~= quote_tag());
    tag.append(lower);
    assert(tag@[0] == '~' && tag@[1] == '#');
    tag
}

/// The tag of the type or variant `name`.
pub fn tag_text(name: &str) -> (tag: String)
    ensures
        tag@ == tag_of(name@),
        is_tag(tag@),
{
    let lower = lowercase(name);
    tag_from(lower.as_str())
}

impl Value {
    /// The value of a record of the type or variant `name` with the fields `fields`, each
    /// a name and a value.
    pub fn record(name: &str, fields: Vec<(String, Value)>) -> (v: Value)
        ensures
            v@ == ValueV::TaggedMap(tag_of(name@), field_pairs(fields@)),
    {
        let ghost model = field_pairs(fields@);
        let mut fields = fields;
        let mut pairs: Vec<(Value, Value)> = Vec::with_capacity(fields.len());
        assert(pairs_view(pairs@) =~= model.take(0));
        let mut i: usize = 0;
        while i < fields.len()
            invariant
                i <= fields.len(),
                fields@.len() == model.len(),
                forall|j: int|
                    i <= j < fields@.len() ==> (#[trigger] fields@[j]).0@ == model[j].0->Str_0
                        && fields@[j].1@ == model[j].1 && model[j].0 is Str,
                pairs_view(pairs@) == model.take(i as int),
            decreases fields.len() - i,
        {
            assert(fields@[i as int].0@ == model[i as int].0->Str_0);
            let mut field = (String::new(), Value::Null);
            core::mem::swap(&mut fields[i], &mut field);
            let pair = (Value::Str(field.0), field.1);
            proof {
                lemma_pairs_view_push(pairs@, pair);
                assert(model.take(i + 1) =~= model.take(i as int).push(model[i as int]));
            }
            pairs.push(pair);
            i += 1;
        }
        assert(model.take(fields.len() as int) =~= model);
        Value::TaggedMap(tag_text(name), pairs)
    }

    /// The value of a tuple of the type or variant `name` with the items `items`.
    pub fn tuple(name: &str, items: Vec<Value>) -> (v: Value)
        ensures
            v@ == ValueV::TaggedArray(tag_of(name@), crate::value::items_view(items@)),
    {
        Value::TaggedArray(tag_text(name), items)
    }
}

} // verus!
