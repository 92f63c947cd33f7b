//! The tilde codes: the reserved texts that tell an encoded scalar, an envelope or a
//! cache reference from plain text, and the escaping that keeps plain text apart from them.

use crate::text::{chars_vec, push_char, string_of};
use vstd::prelude::*;
use vstd::string::StringExecFns;

verus! {

/// `~_`: null where a key stands.
pub open spec fn null_code() -> Seq<char> {
    seq!['~', '_']
}

/// `~?t`: true where a key stands.
pub open spec fn true_code() -> Seq<char> {
    seq!['~', '?', 't']
}

/// `~?f`: false where a key stands.
pub open spec fn false_code() -> Seq<char> {
    seq!['~', '?', 'f']
}

/// `~i`: what an integer begins with where a key stands.
pub open spec fn int_prefix() -> Seq<char> {
    seq!['~', 'i']
}

/// `~t`: what an instant begins with.
pub open spec fn instant_prefix() -> Seq<char> {
    seq!['~', 't']
}

/// `~#`: what every tag begins with, and by itself the tag that quotes a scalar at the
/// root of a document.
pub open spec fn quote_tag() -> Seq<char> {
    seq!['~', '#']
}

/// `~#cmap`: the tag of a map with a key that is no scalar.
pub open spec fn cmap_tag() -> Seq<char> {
    seq!['~', '#', 'c', 'm', 'a', 'p']
}

/// `~#set`: the tag of a set.
pub open spec fn set_tag() -> Seq<char> {
    seq!['~', '#', 's', 'e', 't']
}

/// `^`: what the array of a map begins with on the cached surface.
pub open spec fn map_marker() -> Seq<char> {
    seq!['^']
}

/// Whether `s` is a tag: begins with `~#`.
pub open spec fn is_tag(s: Seq<char>) -> bool {
    s.len() >= 2 && s[0] == '~' && s[1] == '#'
}

/// Whether plain text `s` would be taken for a code if it went out as it is.
pub open spec fn needs_escape(s: Seq<char>) -> bool {
    s.len() > 0 && (s[0] == '~' || s[0] == '^')
}

/// Plain text as it goes on the wire: with one more `~` in front where it begins with `~`
/// or `^`.
pub open spec fn escape(s: Seq<char>) -> Seq<char> {
    if needs_escape(s) {
        seq!['~'] + s
    } else {
        s
    }
}

/// The plain text that `w` stands for on the wire, if `w` stands for plain text.
pub open spec fn unescape(w: Seq<char>) -> Option<Seq<char>> {
    if w.len() > 0 && w[0] == '~' {
        if w.len() > 1 && (w[1] == '~' || w[1] == '^') {
            Some(w.skip(1))
        } else {
            None
        }
    } else if w.len() > 0 && w[0] == '^' {
        None
    } else {
        Some(w)
    }
}

/// Escaped text is read back as the text that was escaped, and is neither a tag nor a
/// cache reference.
pub proof fn lemma_unescape_escape(s: Seq<char>)
    ensures
        unescape(escape(s)) == Some(s),
        !is_tag(escape(s)),
        !(escape(s).len() > 0 && escape(s)[0] == '^'),
{
    if needs_escape(s) {
        assert(escape(s).skip(1) =~= s);
    }
}

/// The text `~_`.
pub fn null_text() -> (s: String)
    ensures
        s@ == null_code(),
{
    proof {
        reveal_strlit("~_");
    }
    let s = String::from_str("~_");
    assert(s@ =~= null_code());
    s
}

/// The text `~?t` or `~?f`.
pub fn bool_text(b: bool) -> (s: String)
    ensures
        s@ == if b {
            true_code()
        } else {
            false_code()
        },
{
    proof {
        reveal_strlit("~?t");
        reveal_strlit("~?f");
    }
    let s = if b {
        String::from_str("~?t")
    } else {
        String::from_str("~?f")
    };
    assert(b ==> s@ =~= true_code());
    assert(!b ==> s@ =~= false_code());
    s
}

/// The text `~#`.
pub fn quote_text() -> (s: String)
    ensures
        s@ == quote_tag(),
{
    proof {
        reveal_strlit("~#");
    }
    let s = String::from_str("~#");
    assert(s@ =~= quote_tag());
    s
}

/// The text `~#cmap`.
pub fn cmap_text() -> (s: String)
    ensures
        s@ == cmap_tag(),
{
    proof {
        reveal_strlit("~#cmap");
    }
    let s = String::from_str("~#cmap");
    assert(s@ =~= cmap_tag());
    s
}

/// The text `^`.
pub fn marker_text() -> (s: String)
    ensures
        s@ == map_marker(),
{
    proof {
        reveal_strlit("^");
    }
    let s = String::from_str("^");
    assert(s@ =~= map_marker());
    s
}

/// The text of an instant: `~t` and then the instant's own text.
pub fn instant_text(instant: &str) -> (s: String)
    ensures
        s@ == instant_prefix() + instant@,
{
    proof {
        reveal_strlit("~t");
    }
    let mut s = String::from_str("~t");
    assert(s@ =~= instant_prefix());
    s.append(instant);
    s
}

/// Escapes plain text for the wire.
pub fn escaped(s: &str) -> (w: String)
    ensures
        w@ == escape(s@),
{
    let chars = chars_vec(s);
    if chars.len() > 0 && (chars[0] == '~' || chars[0] == '^') {
        let mut w = String::new();
        push_char(&mut w, '~');
        w.append(s);
        assert(w@ =~= escape(s@));
        w
    } else {
        s.to_owned()
    }
}

/// Reads plain text back from the wire; `None` where `w` is a code and no plain text.
pub fn unescaped(w: &str) -> (s: Option<String>)
    ensures
        match s {
            Some(s) => unescape(w@) == Some(s@),
            None => unescape(w@) is None,
        },
{
    let chars = chars_vec(w);
    if chars.len() > 0 && chars[0] == '~' {
        if chars.len() > 1 && (chars[1] == '~' || chars[1] == '^') {
            let s = string_of(&chars, 1, chars.len());
            assert(s@ =~= w@.skip(1));
            Some(s)
        } else {
            None
        }
    } else if chars.len() > 0 && chars[0] == '^' {
        None
    } else {
        Some(w.to_owned())
    }
}

/// Whether `w` begins with `~#`.
pub fn has_tag_prefix(w: &str) -> (r: bool)
    ensures
        r == is_tag(w@),
{
    let chars = chars_vec(w);
    chars.len() >= 2 && chars[0] == '~' && chars[1] == '#'
}

} // verus!
