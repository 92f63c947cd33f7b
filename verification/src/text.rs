//! Character-level helpers shared by the key forms, the cache codes and the decoders.
//!
//! Text is modelled as `Seq<char>`, the view of `str` and `String`.

use vstd::prelude::*;

verus! {

/// Appends one character to a string.
///
/// Trusted: calls `String::push`, which adds `c` at the end of the string and changes
/// nothing else.
#[verifier::external_body]
pub(crate) fn push_char(s: &mut String, c: char)
    ensures
        final(s)@ == old(s)@.push(c),
{
    s.push(c);
}

/// The code point of a character.
pub fn char_code(c: char) -> (n: u32)
    ensures
        n == c as int,
{
    c as u32
}

/// The characters of `s`, in order.
pub fn chars_vec(s: &str) -> (v: Vec<char>)
    ensures
        v@ == s@,
{
    let mut v: Vec<char> = Vec::new();
    let it = s.chars();
    for c in iter: it
        invariant
            iter.seq() == s@,
            v@ == s@.take(iter.index() as int),
    {
        v.push(c);
    }
    v
}

/// The string made of `chars[from..to]`.
pub(crate) fn string_of(chars: &Vec<char>, from: usize, to: usize) -> (s: String)
    requires
        from <= to <= chars.len(),
    ensures
        s@ == chars@.subrange(from as int, to as int),
{
    let mut s = String::new();
    let mut i: usize = from;
    while i < to
        invariant
            from <= i <= to <= chars.len(),
            s@ == chars@.subrange(from as int, i as int),
        decreases to - i,
    {
        push_char(&mut s, chars[i]);
        i += 1;
        assert(s@ =~= chars@.subrange(from as int, i as int));
    }
    s
}

/// Whether two texts hold the same characters.
pub fn same_text(a: &str, b: &str) -> (r: bool)
    ensures
        r == (a@ == b@),
{
    if a.len() != b.len() {
        // texts of different lengths in bytes hold different characters
        return false;
    }
    let av = chars_vec(a);
    let bv = chars_vec(b);
    if av.len() != bv.len() {
        return false;
    }
    let mut i: usize = 0;
    while i < av.len()
        invariant
            av@ == a@,
            bv@ == b@,
            av.len() == bv.len(),
            i <= av.len(),
            av@.take(i as int) == bv@.take(i as int),
        decreases av.len() - i,
    {
        if av[i] != bv[i] {
            assert(a@[i as int] != b@[i as int]);
            return false;
        }
        i += 1;
        assert(av@.take(i as int) =~= av@.take(i - 1).push(av@[i - 1]));
        assert(bv@.take(i as int) =~= bv@.take(i - 1).push(bv@[i - 1]));
    }
    assert(av@ =~= av@.take(av.len() as int));
    assert(bv@ =~= bv@.take(bv.len() as int));
    true
}

/// The character that writes the digit `d`.
pub open spec fn digit_char(d: int) -> char {
    ('0' as int + d) as char
}

/// Whether `c` writes a decimal digit.
pub open spec fn is_digit(c: char) -> bool {
    '0' <= c <= '9'
}

/// The decimal digits of `n`, the most significant first and none of them a leading zero.
pub open spec fn digits(n: nat) -> Seq<char>
    decreases n,
{
    if n < 10 {
        seq![digit_char(n as int)]
    } else {
        digits(n / 10).push(digit_char((n % 10) as int))
    }
}

/// The decimal text of `n`: its digits, after a minus sign where `n` is negative.
pub open spec fn decimal(n: int) -> Seq<char> {
    if n < 0 {
        seq!['-'] + digits((-n) as nat)
    } else {
        digits(n as nat)
    }
}

/// Whether every character of `s` writes a decimal digit.
pub open spec fn all_digits(s: Seq<char>) -> bool {
    forall|i: int| 0 <= i < s.len() ==> is_digit(#[trigger] s[i])
}

/// The number that the digits of `s` write; leading zeros count for nothing.
pub open spec fn digits_value(s: Seq<char>) -> nat
    decreases s.len(),
{
    if s.len() == 0 {
        0
    } else {
        (digits_value(s.drop_last()) * 10 + (s.last() as int - '0' as int)) as nat
    }
}

/// The number that `s` writes in decimal, if `s` is an optional minus sign and then at
/// least one digit.
pub open spec fn parse_decimal(s: Seq<char>) -> Option<int> {
    if s.len() > 0 && s[0] == '-' {
        let rest = s.skip(1);
        if rest.len() > 0 && all_digits(rest) {
            Some(-(digits_value(rest) as int))
        } else {
            None
        }
    } else if s.len() > 0 && all_digits(s) {
        Some(digits_value(s) as int)
    } else {
        None
    }
}

/// The digits of a number are digits, and write that number.
pub proof fn lemma_digits(n: nat)
    ensures
        digits(n).len() > 0,
        all_digits(digits(n)),
        digits_value(digits(n)) == n,
    decreases n,
{
    if n < 10 {
        let s = digits(n);
        assert(s.drop_last() =~= Seq::<char>::empty());
        assert(digits_value(s.drop_last()) == 0);
        assert(digits_value(s) == n);
    } else {
        lemma_digits(n / 10);
        let s = digits(n);
        assert(s.drop_last() =~= digits(n / 10));
        assert(digits_value(s) == digits_value(digits(n / 10)) * 10 + n % 10);
    }
}

/// Reading the decimal text of a number gives the number back.
pub proof fn lemma_parse_decimal(n: int)
    ensures
        parse_decimal(decimal(n)) == Some(n),
{
    if n < 0 {
        lemma_digits((-n) as nat);
        assert(decimal(n).skip(1) =~= digits((-n) as nat));
    } else {
        lemma_digits(n as nat);
        assert(is_digit(digits(n as nat)[0]));
    }
}

/// Appends the digits of `n` to `out`.
pub fn push_digits(out: &mut String, n: u64)
    ensures
        final(out)@ == old(out)@ + digits(n as nat),
    decreases n,
{
    if n >= 10 {
        push_digits(out, n / 10);
    }
    let d: u8 = (n % 10) as u8;
    push_char(out, (d + 48) as char);
    assert(final(out)@ =~= old(out)@ + digits(n as nat));
}

/// Appends the decimal text of `n` to `out`.
pub fn push_decimal(out: &mut String, n: i64)
    ensures
        final(out)@ == old(out)@ + decimal(n as int),
{
    if n < 0 {
        push_char(out, '-');
        let magnitude: u64 = if n == i64::MIN {
            9223372036854775808u64
        } else {
            (-n) as u64
        };
        push_digits(out, magnitude);
        assert(final(out)@ =~= old(out)@ + decimal(n as int));
    } else {
        push_digits(out, n as u64);
    }
}

/// What `read_decimal` found.
pub(crate) enum Decimal {
    /// A number, and it fits in 64 bits.
    Fits(i64),
    /// A number that does not fit in 64 bits.
    TooLarge,
    /// No number at all.
    Malformed,
}

/// Reads `chars[from..]` as a decimal number.
pub(crate) fn read_decimal(chars: &Vec<char>, from: usize) -> (r: Decimal)
    requires
        from <= chars.len(),
    ensures
        match r {
            Decimal::Fits(n) => parse_decimal(chars@.skip(from as int)) == Some(n as int),
            Decimal::TooLarge => match parse_decimal(chars@.skip(from as int)) {
                Some(n) => n < i64::MIN || n > i64::MAX,
                None => false,
            },
            Decimal::Malformed => parse_decimal(chars@.skip(from as int)) is None,
        },
{
    let ghost text = chars@.skip(from as int);
    let negative = from < chars.len() && chars[from] == '-';
    let start: usize = if negative {
        from + 1
    } else {
        from
    };
    let ghost body = chars@.skip(start as int);
    assert(negative ==> body =~= text.skip(1) && text[0] == '-');
    if start >= chars.len() {
        return Decimal::Malformed;
    }
    assert(!negative ==> body == text && text[0] == chars@[from as int]);
    let limit: u128 = 9223372036854775808u128;
    let mut value: u128 = 0;
    let mut too_large = false;
    let mut i: usize = start;
    while i < chars.len()
        invariant
            start <= i <= chars.len(),
            body == chars@.skip(start as int),
            text == chars@.skip(from as int),
            body.len() > 0,
            negative ==> text.len() > 0 && text[0] == '-' && body == text.skip(1),
            !negative ==> body == text && text[0] != '-',
            limit == 9223372036854775808u128,
            all_digits(body.take(i - start)),
            !too_large ==> value == digits_value(body.take(i - start)) && value <= limit,
            too_large ==> digits_value(body.take(i - start)) > limit,
        decreases chars.len() - i,
    {
        let code = char_code(chars[i]);
        if code < 48 || code > 57 {
            assert(!is_digit(body[i - start]));
            return Decimal::Malformed;
        }
        let ghost before = body.take(i - start);
        let ghost after = body.take(i - start + 1);
        assert(after.drop_last() =~= before);
        assert(after.last() == chars@[i as int]);
        assert(digits_value(after) == digits_value(before) * 10 + (code - 48));
        if !too_large {
            value = value * 10 + (code - 48) as u128;
            if value > limit {
                too_large = true;
            }
        }
        i += 1;
    }
    assert(body.take(chars.len() - start) =~= body);
    if too_large {
        Decimal::TooLarge
    } else if negative {
        if value == limit {
            Decimal::Fits(i64::MIN)
        } else {
            Decimal::Fits(-(value as i64))
        }
    } else if value == limit {
        Decimal::TooLarge
    } else {
        Decimal::Fits(value as i64)
    }
}

/// Whether `chars` begins with the characters of `prefix`.
pub open spec fn starts_with(chars: Seq<char>, prefix: Seq<char>) -> bool {
    prefix.len() <= chars.len() && chars.take(prefix.len() as int) == prefix
}

} // verus!
