//! Conversions between `&str`/`String` and sequences of characters.
use vstd::prelude::*;

verus! {

/// Copies the characters of `s` into a vector.
pub fn str_to_chars(s: &str) -> (chars: Vec<char>)
    ensures
        chars@ == s@,
{
    let n = s.unicode_len();
    let mut chars: Vec<char> = Vec::new();
    let mut i: usize = 0;
    while i < n
        invariant
            n == s@.len(),
            i <= n,
            chars@ == s@.subrange(0, i as int),
        decreases n - i,
    {
        let c = s.get_char(i);
        chars.push(c);
        i = i + 1;
        assert(chars@ =~= s@.subrange(0, i as int));
    }
    assert(chars@ =~= s@);
    chars
}

/// Builds a `String` holding exactly the characters of `chars`
/// (`String::from_iter` over the characters, in order).
#[verifier::external_body]
pub(crate) fn string_from_chars(chars: &[char]) -> (s: String)
    ensures
        s@ == chars@,
{
    String::from_iter(chars.iter())
}

/// Whether `prefix` occurs in `text` at position `start`.
pub open spec fn occurs_at(text: Seq<char>, start: int, prefix: Seq<char>) -> bool {
    &&& 0 <= start
    &&& start + prefix.len() <= text.len()
    &&& text.subrange(start, start + prefix.len()) == prefix
}

/// Checks whether `prefix` occurs in `text` at position `start`.
pub fn has_prefix_at(text: &Vec<char>, start: usize, prefix: &Vec<char>) -> (r: bool)
    ensures
        r == occurs_at(text@, start as int, prefix@),
{
    if start > text.len() || prefix.len() > text.len() - start {
        return false;
    }
    let mut i: usize = 0;
    while i < prefix.len()
        invariant
            start + prefix@.len() <= text@.len(),
            text@.len() == text.len(),
            i <= prefix@.len(),
            forall|j: int| 0 <= j < i ==> text@[start + j] == prefix@[j],
        decreases prefix@.len() - i,
    {
        if text[start + i] != prefix[i] {
            assert(text@.subrange(start as int, start + prefix@.len())[i as int] != prefix@[i as int]);
            return false;
        }
        i = i + 1;
    }
    assert(text@.subrange(start as int, start + prefix@.len()) =~= prefix@);
    true
}

/// Whether the character has the Unicode `Alphabetic` property (`char::is_alphabetic`).
pub uninterp spec fn char_alphabetic(c: char) -> bool;

/// Whether the character is in a Unicode number category (`char::is_numeric`).
pub uninterp spec fn char_numeric(c: char) -> bool;

/// The lowercase form of a string (`str::to_lowercase`).
pub uninterp spec fn text_lowercase(s: Seq<char>) -> Seq<char>;

/// `char::is_alphabetic`: whether `c` has the Unicode `Alphabetic` property.
#[verifier::external_body]
pub(crate) fn is_alphabetic(c: char) -> (r: bool)
    ensures
        r == char_alphabetic(c),
{
    c.is_alphabetic()
}

/// `char::is_numeric`: whether `c` is in one of the Unicode number categories.
#[verifier::external_body]
pub(crate) fn is_numeric(c: char) -> (r: bool)
    ensures
        r == char_numeric(c),
{
    c.is_numeric()
}

/// `str::to_lowercase`: the lowercase form of `s` under the Unicode
/// `Lowercase` mapping.
#[verifier::external_body]
pub(crate) fn to_lowercase(s: &str) -> (r: String)
    ensures
        r@ == text_lowercase(s@),
{
    s.to_lowercase()
}

/// The decimal digit for `d`.
pub open spec fn digit_char(d: int) -> char {
    if d == 0 {
        '0'
    } else if d == 1 {
        '1'
    } else if d == 2 {
        '2'
    } else if d == 3 {
        '3'
    } else if d == 4 {
        '4'
    } else if d == 5 {
        '5'
    } else if d == 6 {
        '6'
    } else if d == 7 {
        '7'
    } else if d == 8 {
        '8'
    } else {
        '9'
    }
}

/// The decimal digits of `n`, without leading zeros.
pub open spec fn natural_digits(n: nat) -> Seq<char>
    decreases n,
{
    if n < 10 {
        seq![digit_char(n as int)]
    } else {
        natural_digits(n / 10).push(digit_char((n % 10) as int))
    }
}

/// The decimal form of `n`, with a minus sign when it is negative.
pub open spec fn decimal(n: int) -> Seq<char> {
    if n < 0 {
        seq!['-'] + natural_digits((-n) as nat)
    } else {
        natural_digits(n as nat)
    }
}

fn digit(d: u64) -> (c: char)
    requires
        d < 10,
    ensures
        c == digit_char(d as int),
{
    if d == 0 {
        '0'
    } else if d == 1 {
        '1'
    } else if d == 2 {
        '2'
    } else if d == 3 {
        '3'
    } else if d == 4 {
        '4'
    } else if d == 5 {
        '5'
    } else if d == 6 {
        '6'
    } else if d == 7 {
        '7'
    } else if d == 8 {
        '8'
    } else {
        '9'
    }
}

/// Appends the decimal digits of `n`.
pub fn push_natural(out: &mut Vec<char>, n: u64)
    ensures
        final(out)@ == old(out)@ + natural_digits(n as nat),
    decreases n,
{
    if n >= 10 {
        push_natural(out, n / 10);
        out.push(digit(n % 10));
        assert(final(out)@ =~= old(out)@ + natural_digits(n as nat));
    } else {
        out.push(digit(n));
        assert(final(out)@ =~= old(out)@ + natural_digits(n as nat));
    }
}

/// Appends the decimal form of `n`.
pub fn push_decimal(out: &mut Vec<char>, n: i64)
    requires
        n > i64::MIN,
    ensures
        final(out)@ == old(out)@ + decimal(n as int),
{
    if n < 0 {
        out.push('-');
        let magnitude: i64 = 0 - n;
        push_natural(out, magnitude as u64);
        assert(final(out)@ =~= old(out)@ + decimal(n as int));
    } else {
        push_natural(out, n as u64);
    }
}

/// Appends the characters of `s`.
pub fn push_str(out: &mut Vec<char>, s: &str)
    ensures
        final(out)@ == old(out)@ + s@,
{
    let chars = str_to_chars(s);
    let mut i: usize = 0;
    let ghost start = out@;
    while i < chars.len()
        invariant
            i <= chars@.len(),
            chars@ == s@,
            out@ == start + chars@.take(i as int),
        decreases chars@.len() - i,
    {
        out.push(chars[i]);
        i = i + 1;
        assert(out@ =~= start + chars@.take(i as int));
    }
    assert(chars@.take(i as int) =~= chars@);
}

} // verus!
