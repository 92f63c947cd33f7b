//! The key cache of the cached surface: the codes it hands out and the table that an
//! encoder fills while it writes and a decoder rebuilds while it reads.
//!
//! The table is modelled as the sequence of admitted strings in admission order; the
//! string admitted as number `n` is referred to by `cache_code(n)`.

use crate::de::{Error, ErrorKind};
use crate::text::{char_code, chars_vec, push_char, same_text};
use vstd::prelude::*;

verus! {

/// How many symbols a code character is drawn from.
pub const CACHE_CODE_DIGITS: u8 = 44;

/// The code point of the first symbol.
pub const BASE_CHAR_INDEX: u8 = 48;

/// How many strings one cache can hold: the one-character codes and the two-character
/// codes together.
pub const MAX_CACHED_KEYS: u16 = 1980;

/// The longest string that is never cached: a code would not be shorter.
pub const MAX_UNCACHED_LEN: usize = 3;

/// How many strings a new cache makes room for.
pub const DEFAULT_CAPACITY: usize = 50;

/// The symbol at offset `off` from the first one.
pub open spec fn code_symbol(off: int) -> char {
    (BASE_CHAR_INDEX as int + off) as char
}

/// The back-reference for the string admitted as number `n`.
pub open spec fn cache_code(n: int) -> Seq<char> {
    if n < CACHE_CODE_DIGITS as int {
        seq!['^', code_symbol(n)]
    } else {
        seq![
            '^',
            code_symbol(n / (CACHE_CODE_DIGITS as int)),
            code_symbol(n % (CACHE_CODE_DIGITS as int)),
        ]
    }
}

/// The offset of a code character, whatever the character.
pub open spec fn symbol_offset(c: char) -> int {
    c as int - BASE_CHAR_INDEX as int
}

/// The number that a back-reference stands for, if it is one that `cache_code` gives.
pub open spec fn code_index(code: Seq<char>) -> Option<int> {
    if code.len() == 2 && code[0] == '^' && 0 <= symbol_offset(code[1]) < 44 {
        Some(symbol_offset(code[1]))
    } else if code.len() == 3 && code[0] == '^' && 1 <= symbol_offset(code[1]) <= 44 && 0
        <= symbol_offset(code[2]) < 44 && 44 * symbol_offset(code[1]) + symbol_offset(code[2])
        < MAX_CACHED_KEYS as int {
        Some(44 * symbol_offset(code[1]) + symbol_offset(code[2]))
    } else {
        None
    }
}

/// A decoder finds the number back from the code that an encoder wrote.
pub proof fn lemma_code_index_of_cache_code(n: int)
    requires
        0 <= n < MAX_CACHED_KEYS as int,
    ensures
        code_index(cache_code(n)) == Some(n),
{
    let code = cache_code(n);
    if n < 44 {
        assert(symbol_offset(code[1]) == n);
    } else {
        assert(1 <= n / 44 <= 44 && 0 <= n % 44 < 44 && 44 * (n / 44) + n % 44 == n);
        assert(symbol_offset(code[1]) == n / 44);
        assert(symbol_offset(code[2]) == n % 44);
    }
}

/// Whether a string is long enough to be cached.
pub open spec fn cacheable(s: Seq<char>) -> bool {
    s.len() > MAX_UNCACHED_LEN as int
}

/// Whether a string on the wire is a back-reference rather than itself.
pub open spec fn is_reference(s: Seq<char>) -> bool {
    s.len() > 0 && s[0] == '^'
}

/// The first position at or after `from` at which `s` stands in `entries`.
pub open spec fn find_from(entries: Seq<Seq<char>>, s: Seq<char>, from: int) -> Option<int>
    decreases entries.len() - from,
{
    if from < 0 || from >= entries.len() {
        None
    } else if entries[from] == s {
        Some(from)
    } else {
        find_from(entries, s, from + 1)
    }
}

/// The number under which `s` was admitted, if it was.
pub open spec fn find_key(entries: Seq<Seq<char>>, s: Seq<char>) -> Option<int> {
    find_from(entries, s, 0)
}

/// What one pass through the cache gives: a text and the table afterwards.
pub struct Passed {
    pub text: Seq<char>,
    pub table: Seq<Seq<char>>,
}

/// No string stands twice in `entries`.
pub open spec fn distinct_entries(entries: Seq<Seq<char>>) -> bool {
    forall|i: int, j: int|
        0 <= i < j < entries.len() ==> #[trigger] entries[i] != #[trigger] entries[j]
}

/// Both rules of the cache keep a table free of strings that stand twice: a string is
/// admitted only where it is not found.
pub proof fn lemma_pass_keeps_distinct(entries: Seq<Seq<char>>, s: Seq<char>)
    requires
        distinct_entries(entries),
    ensures
        emit(entries, s) matches Some(p) ==> distinct_entries(p.table),
        resolve(entries, s) matches Ok(p) ==> distinct_entries(p.table),
{
    lemma_find_from(entries, s, 0);
    let after = entries.push(s);
    if find_key(entries, s) is None {
        assert forall|i: int, j: int| 0 <= i < j < after.len() implies #[trigger] after[i]
            != #[trigger] after[j] by {
            if j < entries.len() {
                assert(after[i] == entries[i] && after[j] == entries[j]);
            } else {
                assert(after[i] == entries[i]);
            }
        }
    }
}

/// The emit rule of the encoder. For a candidate string `s` and a table `entries`, the
/// text that goes on the wire and the table afterwards: a string too short to cache goes
/// out as it is; one admitted before goes out as its code; a new one is admitted and goes out
/// as it is. `None` when a new string would have to be admitted to a full table.
pub open spec fn emit(entries: Seq<Seq<char>>, s: Seq<char>) -> Option<Passed> {
    if !cacheable(s) {
        Some(Passed { text: s, table: entries })
    } else {
        match find_key(entries, s) {
            Some(n) => Some(Passed { text: cache_code(n), table: entries }),
            None => if entries.len() < MAX_CACHED_KEYS as int {
                Some(Passed { text: s, table: entries.push(s) })
            } else {
                None
            },
        }
    }
}

/// The rule of the decoder, which mirrors `emit`. For a text `w` found where a candidate
/// string stands, the string it denotes and the table afterwards: a back-reference denotes
/// the string admitted under its number; any other text denotes itself and is admitted on
/// first sight if it is long enough.
pub open spec fn resolve(entries: Seq<Seq<char>>, w: Seq<char>) -> Result<Passed, ErrorKind> {
    if is_reference(w) {
        match code_index(w) {
            Some(n) => if n < entries.len() {
                Ok(Passed { text: entries[n], table: entries })
            } else {
                Err(ErrorKind::CacheMiss)
            },
            None => Err(ErrorKind::CacheMiss),
        }
    } else if !cacheable(w) || find_key(entries, w) is Some {
        Ok(Passed { text: w, table: entries })
    } else if entries.len() < MAX_CACHED_KEYS as int {
        Ok(Passed { text: w, table: entries.push(w) })
    } else {
        Err(ErrorKind::CacheOverflow)
    }
}

/// Where `find_from` finds a string, the string stands.
pub proof fn lemma_find_from(entries: Seq<Seq<char>>, s: Seq<char>, from: int)
    requires
        0 <= from,
    ensures
        match find_from(entries, s, from) {
            Some(n) => from <= n < entries.len() && entries[n] == s,
            None => forall|i: int| from <= i < entries.len() ==> entries[i] != s,
        },
    decreases entries.len() - from,
{
    if from < entries.len() && entries[from] != s {
        lemma_find_from(entries, s, from + 1);
    }
}

/// What the decoder's rule makes of what the encoder's rule wrote is the string that the
/// encoder was given, and both leave the same table.
pub proof fn lemma_resolve_emit(entries: Seq<Seq<char>>, s: Seq<char>)
    requires
        entries.len() <= MAX_CACHED_KEYS as int,
        !is_reference(s),
        emit(entries, s) is Some,
    ensures
        resolve(entries, emit(entries, s)->0.text) == Ok::<Passed, ErrorKind>(
            Passed { text: s, table: emit(entries, s)->0.table },
        ),
{
    if cacheable(s) {
        lemma_find_from(entries, s, 0);
        match find_key(entries, s) {
            Some(n) => {
                lemma_code_index_of_cache_code(n);
                assert(cache_code(n)[0] == '^');
            },
            None => {},
        }
    }
}

/// The part of the cache that hands out the codes, one after the other.
pub struct NumbersIter {
    index: u16,
}

impl NumbersIter {
    /// How many codes were handed out.
    pub closed spec fn position(&self) -> int {
        self.index as int
    }

    /// A fresh source of codes, which starts at number 0.
    pub fn new() -> (it: Self)
        ensures
            it.position() == 0,
    {
        NumbersIter { index: 0 }
    }

    /// The next code, or `None` once all of them were handed out.
    pub fn next(&mut self) -> (code: Option<String>)
        ensures
            old(self).position() < MAX_CACHED_KEYS as int ==> code.is_some() && code.unwrap()@
                == cache_code(old(self).position()) && final(self).position() == old(
                self,
            ).position() + 1,
            old(self).position() >= MAX_CACHED_KEYS as int ==> code.is_none() && *final(self)
                == *old(self),
    {
        if self.index >= MAX_CACHED_KEYS {
            return None;
        }
        let code = code_text(self.index);
        self.index += 1;
        Some(code)
    }
}

/// The text of the back-reference with number `n`.
pub fn code_text(n: u16) -> (code: String)
    requires
        n < MAX_CACHED_KEYS,
    ensures
        code@ == cache_code(n as int),
{
    let digits: u16 = CACHE_CODE_DIGITS as u16;
    let hi: u8 = (n / digits) as u8;
    let lo: u8 = (n % digits) as u8;
    let mut code = String::new();
    push_char(&mut code, '^');
    if hi > 0 {
        push_char(&mut code, (hi + BASE_CHAR_INDEX) as char);
    }
    push_char(&mut code, (lo + BASE_CHAR_INDEX) as char);
    assert(code@ =~= cache_code(n as int));
    code
}

/// The number of the back-reference `w`, if `w` is one.
pub fn code_number(w: &str) -> (n: Option<u16>)
    ensures
        match n {
            Some(n) => code_index(w@) == Some(n as int),
            None => code_index(w@) is None,
        },
{
    let chars = chars_vec(w);
    if chars.len() < 2 || chars.len() > 3 || chars[0] != '^' {
        return None;
    }
    let first: u32 = char_code(chars[1]);
    if chars.len() == 2 {
        if 48 <= first && first < 92 {
            Some((first - 48) as u16)
        } else {
            None
        }
    } else {
        let second: u32 = char_code(chars[2]);
        if 49 <= first && first <= 92 && 48 <= second && second < 92 {
            let n: u32 = 44 * (first - 48) + (second - 48);
            if n < MAX_CACHED_KEYS as u32 {
                Some(n as u16)
            } else {
                None
            }
        } else {
            None
        }
    }
}

/// The table of one session: the strings admitted so far, in the order of admission.
pub struct KeyCacher {
    numbers_iter: NumbersIter,
    keys: Vec<String>,
}

impl View for KeyCacher {
    type V = Seq<Seq<char>>;

    /// The admitted strings, the one with number 0 first.
    closed spec fn view(&self) -> Seq<Seq<char>> {
        Seq::new(self.keys@.len(), |i: int| self.keys@[i]@)
    }
}

impl KeyCacher {
    /// The table is as long as the codes handed out say, and within what codes can address;
    /// it holds no string too short to cache, and no string twice.
    pub closed spec fn wf(&self) -> bool {
        &&& self.keys@.len() == self.numbers_iter.position()
        &&& self.keys@.len() <= MAX_CACHED_KEYS as int
        &&& forall|i: int| 0 <= i < self.keys@.len() ==> cacheable(#[trigger] self.keys@[i]@)
        &&& forall|i: int, j: int|
            0 <= i < j < self.keys@.len() ==> (#[trigger] self.keys@[i])@ != (
            #[trigger] self.keys@[j])@
    }

    /// A well-formed table is never longer than the codes reach, holds no string too short
    /// to cache, and holds no string twice: each string has one number, and each number
    /// one string.
    pub proof fn lemma_wf(&self)
        requires
            self.wf(),
        ensures
            self@.len() <= MAX_CACHED_KEYS as int,
            forall|i: int| 0 <= i < self@.len() ==> cacheable(#[trigger] self@[i]),
            distinct_entries(self@),
    {
        assert forall|i: int, j: int| 0 <= i < j < self@.len() implies #[trigger] self@[i]
            != #[trigger] self@[j] by {
            assert(self.keys@[i]@ != self.keys@[j]@);
        }
    }

    /// An empty table.
    pub fn new() -> (cacher: Self)
        ensures
            cacher.wf(),
            cacher@ == Seq::<Seq<char>>::empty(),
    {
        let cacher = KeyCacher {
            numbers_iter: NumbersIter::new(),
            keys: Vec::with_capacity(DEFAULT_CAPACITY),
        };
        assert(cacher@ =~= Seq::<Seq<char>>::empty());
        cacher
    }

    /// How many strings the table holds.
    pub fn len(&self) -> (n: usize)
        ensures
            n == self@.len(),
    {
        self.keys.len()
    }

    /// The number under which `s` was admitted, if it was.
    pub fn find(&self, s: &str) -> (n: Option<usize>)
        ensures
            match n {
                Some(n) => find_key(self@, s@) == Some(n as int),
                None => find_key(self@, s@) is None,
            },
    {
        let mut i: usize = 0;
        while i < self.keys.len()
            invariant
                i <= self.keys.len(),
                find_key(self@, s@) == find_from(self@, s@, i as int),
            decreases self.keys.len() - i,
        {
            if same_text(self.keys[i].as_str(), s) {
                return Some(i);
            }
            i += 1;
        }
        None
    }

    /// Offers the candidate string `s` to the cache, as an encoder does before it writes
    /// `s`. Returns the back-reference to write in place of `s` when `s` was admitted
    /// before, and `None` when `s` itself is to be written: because it is too short to
    /// cache, or because it is new, in which case it is admitted now.
    pub fn cache(&mut self, s: String) -> (code: Option<String>)
        requires
            old(self).wf(),
            emit(old(self)@, s@) is Some,
        ensures
            final(self).wf(),
            final(self)@ == emit(old(self)@, s@)->0.table,
            old(self)@.is_prefix_of(final(self)@),
            !cacheable(s@) ==> final(self)@ == old(self)@,
            match code {
                Some(c) => c@ == emit(old(self)@, s@)->0.text && cacheable(s@) && find_key(
                    old(self)@,
                    s@,
                ) is Some,
                None => s@ == emit(old(self)@, s@)->0.text,
            },
    {
        if chars_vec(s.as_str()).len() <= MAX_UNCACHED_LEN {
            return None;
        }
        match self.find(s.as_str()) {
            Some(n) => {
                proof {
                    lemma_find_from(self@, s@, 0);
                }
                Some(code_text(n as u16))
            },
            None => {
                proof {
                    lemma_find_from(self@, s@, 0);
                    assert forall|i: int| 0 <= i < self.keys@.len() implies (
                    #[trigger] self.keys@[i])@ != s@ by {
                        assert(self@[i] == self.keys@[i]@);
                    }
                }
                let _ = self.numbers_iter.next();
                self.keys.push(s);
                assert(self@ =~= old(self)@.push(s@));
                None
            },
        }
    }

    /// As `cache`, for any table: reports the overflow where `cache` could not be called.
    pub fn try_cache(&mut self, s: String) -> (code: Result<Option<String>, Error>)
        requires
            old(self).wf(),
        ensures
            final(self).wf(),
            old(self)@.is_prefix_of(final(self)@),
            match code {
                Ok(Some(c)) => emit(old(self)@, s@) is Some && c@ == emit(old(self)@, s@)->0.text
                    && cacheable(s@) && find_key(old(self)@, s@) is Some && final(self)@ == old(
                    self,
                )@,
                Ok(None) => emit(old(self)@, s@) is Some && s@ == emit(old(self)@, s@)->0.text
                    && final(self)@ == emit(old(self)@, s@)->0.table,
                Err(e) => emit(old(self)@, s@) is None && e.kind() == ErrorKind::CacheOverflow
                    && final(self)@ == old(self)@,
            },
    {
        if self.keys.len() >= MAX_CACHED_KEYS as usize && chars_vec(s.as_str()).len()
            > MAX_UNCACHED_LEN && self.find(s.as_str()).is_none() {
            return Err(Error::CacheOverflow);
        }
        Ok(self.cache(s))
    }

    /// Reads the text `w` found where a candidate string stands, as a decoder does:
    /// returns the string that `w` denotes, and admits `w` if it is new and long enough.
    pub fn resolve(&mut self, w: String) -> (s: Result<String, Error>)
        requires
            old(self).wf(),
        ensures
            final(self).wf(),
            old(self)@.is_prefix_of(final(self)@),
            match s {
                Ok(s) => resolve(old(self)@, w@) == Ok::<Passed, ErrorKind>(
                    Passed { text: s@, table: final(self)@ },
                ),
                Err(e) => resolve(old(self)@, w@) == Err::<Passed, ErrorKind>(e.kind())
                    && final(self)@ == old(self)@,
            },
    {
        let chars = chars_vec(w.as_str());
        if chars.len() > 0 && chars[0] == '^' {
            match code_number(w.as_str()) {
                Some(n) => {
                    if (n as usize) < self.keys.len() {
                        Ok(self.keys[n as usize].clone())
                    } else {
                        Err(Error::CacheMiss(w))
                    }
                },
                None => Err(Error::CacheMiss(w)),
            }
        } else if chars.len() <= MAX_UNCACHED_LEN || self.find(w.as_str()).is_some() {
            Ok(w)
        } else if self.keys.len() < MAX_CACHED_KEYS as usize {
            proof {
                lemma_find_from(self@, w@, 0);
                assert forall|i: int| 0 <= i < self.keys@.len() implies (
                #[trigger] self.keys@[i])@ != w@ by {
                    assert(self@[i] == self.keys@[i]@);
                }
            }
            let _ = self.numbers_iter.next();
            self.keys.push(w.clone());
            assert(self@ =~= old(self)@.push(w@));
            Ok(w)
        } else {
            Err(Error::CacheOverflow)
        }
    }
}

} // verus!
