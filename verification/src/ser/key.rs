//! Key forms: the one host string that stands for a scalar where a key stands.

use crate::text::{decimal, push_char, push_decimal};
use crate::tilde::{
    bool_text, escape, escaped, false_code, instant_prefix, instant_text, int_prefix, null_code,
    null_text, true_code,
};
use crate::value::{Value, ValueV};
use vstd::prelude::*;

verus! {

/// The key form of an integer: `~i` and then its decimal text.
pub open spec fn int_key(n: int) -> Seq<char> {
    int_prefix() + decimal(n)
}

/// The key form of a truth value.
pub open spec fn bool_key(b: bool) -> Seq<char> {
    if b {
        true_code()
    } else {
        false_code()
    }
}

/// The key form of a value: a scalar has one, a composite has none.
pub open spec fn key_form(v: ValueV) -> Option<Seq<char>> {
    match v {
        ValueV::Null => Some(null_code()),
        ValueV::Bool(b) => Some(bool_key(b)),
        ValueV::Int(n) => Some(int_key(n as int)),
        ValueV::Str(s) => Some(escape(s)),
        ValueV::Instant(t) => Some(instant_prefix() + t),
        _ => None,
    }
}

/// The text `~i` and then the decimal text of `n`.
pub fn int_key_text(n: i64) -> (s: String)
    ensures
        s@ == int_key(n as int),
{
    let mut s = String::new();
    push_char(&mut s, '~');
    push_char(&mut s, 'i');
    assert(s@ =~= int_prefix());
    push_decimal(&mut s, n);
    s
}

/// Serialize data at the position of a key of a map or of a field of a struct.
///
/// A correct JSON object has string keys only, whereas Transit has no such restriction,
/// so what stands as a key is written as its key form.
pub trait TfSerializeKey {
    /// The key form of the value.
    spec fn key_text(&self) -> Seq<char>;

    fn serialize_key(&self) -> (s: String)
        ensures
            s@ == self.key_text(),
    ;
}

impl TfSerializeKey for String {
    open spec fn key_text(&self) -> Seq<char> {
        escape(self@)
    }

    fn serialize_key(&self) -> (s: String) {
        escaped(self.as_str())
    }
}

impl TfSerializeKey for bool {
    open spec fn key_text(&self) -> Seq<char> {
        bool_key(*self)
    }

    fn serialize_key(&self) -> (s: String) {
        bool_text(*self)
    }
}

impl TfSerializeKey for i32 {
    open spec fn key_text(&self) -> Seq<char> {
        int_key(*self as int)
    }

    fn serialize_key(&self) -> (s: String) {
        int_key_text(*self as i64)
    }
}

impl TfSerializeKey for i64 {
    open spec fn key_text(&self) -> Seq<char> {
        int_key(*self as int)
    }

    fn serialize_key(&self) -> (s: String) {
        int_key_text(*self)
    }
}

impl TfSerializeKey for u32 {
    open spec fn key_text(&self) -> Seq<char> {
        int_key(*self as int)
    }

    fn serialize_key(&self) -> (s: String) {
        int_key_text(*self as i64)
    }
}

impl Value {
    /// The key form of the value, if it has one.
    pub fn key(&self) -> (k: Option<String>)
        ensures
            match k {
                Some(s) => key_form(self@) == Some(s@),
                None => key_form(self@) is None,
            },
    {
        match self {
            Value::Null => Some(null_text()),
            Value::Bool(b) => Some(bool_text(*b)),
            Value::Int(n) => Some(int_key_text(*n)),
            Value::Str(s) => Some(escaped(s.as_str())),
            Value::Instant(t) => Some(instant_text(t.as_str())),
            _ => None,
        }
    }
}

} // verus!
