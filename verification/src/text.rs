//! Character-level vocabulary shared by the parser and the renderers, and the
//! bridge between `&str`, `String`, `SmolStr` and character sequences.

use smol_str::SmolStr;
use vstd::prelude::*;

verus! {

// ---------------------------------------------------------------------------
// SmolStr
// ---------------------------------------------------------------------------

/// `smol_str::SmolStr`, an immutable string with cheap clones.  Its inside is
/// not visible to the verifier; `smol_text` names what it holds.
#[verifier::external_type_specification]
#[verifier::external_body]
pub struct ExSmolStr(smol_str::SmolStr);

/// The characters held by a `SmolStr`, in order.
pub uninterp spec fn smol_text(s: SmolStr) -> Seq<char>;

/// `SmolStr::from_iter` over characters: the new string holds exactly the
/// given characters, in order.
#[verifier::external_body]
pub(crate) fn smol_from_chars(chars: &[char]) -> (r: SmolStr)
    ensures
        smol_text(r) == chars@,
{
    SmolStr::from_iter(chars.iter().copied())
}

/// `SmolStr::as_str` borrows the characters that the string holds.
pub assume_specification[ SmolStr::as_str ](s: &SmolStr) -> (r: &str)
    ensures
        r@ == smol_text(*s),
;

/// `SmolStr::clone` yields a string that holds the same characters.
pub assume_specification[ <SmolStr as Clone>::clone ](s: &SmolStr) -> (r: SmolStr)
    ensures
        smol_text(r) == smol_text(*s),
;

// ---------------------------------------------------------------------------
// std pieces that have no specification of their own
// ---------------------------------------------------------------------------

/// Whether a character has the Unicode `White_Space` property: the controls
/// U+0009 to U+000D and U+0085, the space and the no-break space, U+1680,
/// U+2000 to U+200A, the line and paragraph separators, U+202F, U+205F and
/// U+3000.
pub open spec fn white_space(c: char) -> bool {
    ||| ('\u{9}' <= c && c <= '\u{d}')
    ||| c == ' '
    ||| c == '\u{85}'
    ||| c == '\u{a0}'
    ||| c == '\u{1680}'
    ||| ('\u{2000}' <= c && c <= '\u{200a}')
    ||| c == '\u{2028}'
    ||| c == '\u{2029}'
    ||| c == '\u{202f}'
    ||| c == '\u{205f}'
    ||| c == '\u{3000}'
}

/// `char::is_whitespace` tells whether a character has the Unicode
/// `White_Space` property.
#[verifier::external_body]
pub(crate) fn is_whitespace(c: char) -> (r: bool)
    ensures
        r == white_space(c),
{
    c.is_whitespace()
}

/// `String::push` appends one character.
#[verifier::external_body]
pub(crate) fn push_char(out: &mut String, c: char)
    ensures
        final(out)@ == old(out)@.push(c),
{
    out.push(c)
}

/// `String::pop` removes the last character and returns it, or returns
/// `None` and changes nothing when the string is empty.
#[verifier::external_body]
pub(crate) fn pop_char(out: &mut String) -> (r: Option<char>)
    ensures
        old(out)@.len() == 0 ==> r.is_none() && final(out)@ == old(out)@,
        old(out)@.len() > 0 ==> r == Some(old(out)@.last()) && final(out)@ == old(out)@.drop_last(),
{
    out.pop()
}

/// `str::ends_with` with a character pattern: whether the last character of
/// the string is the given one.
#[verifier::external_body]
pub(crate) fn ends_with_char(s: &String, c: char) -> (r: bool)
    ensures
        r == (s@.len() > 0 && s@.last() == c),
{
    s.ends_with(c)
}

// ---------------------------------------------------------------------------
// Conversions
// ---------------------------------------------------------------------------

/// Collects the characters of a string slice.
pub fn str_to_chars(s: &str) -> (v: Vec<char>)
    ensures
        v@ == s@,
{
    let mut v: Vec<char> = Vec::new();
    for c in it: s.chars()
        invariant
            it.seq() == s@,
            v@ == it.seq().take(it.index()),
    {
        v.push(c);
    }
    v
}

/// Builds a `SmolStr` that holds the characters of a string slice.
pub fn smol_from_str(s: &str) -> (r: SmolStr)
    ensures
        smol_text(r) == s@,
{
    let v = str_to_chars(s);
    smol_from_chars(v.as_slice())
}

/// Whether two string slices hold the same characters.
pub fn str_eq(a: &str, b: &str) -> (r: bool)
    ensures
        r == (a@ == b@),
{
    let x = str_to_chars(a);
    let y = str_to_chars(b);
    chars_eq(x.as_slice(), y.as_slice())
}

/// Whether two character slices hold the same characters.
pub fn chars_eq(a: &[char], b: &[char]) -> (r: bool)
    ensures
        r == (a@ == b@),
{
    if a.len() != b.len() {
        return false;
    }
    let mut i: usize = 0;
    while i < a.len()
        invariant
            i <= a.len(),
            a.len() == b.len(),
            a@.take(i as int) == b@.take(i as int),
        decreases a.len() - i,
    {
        if a[i] != b[i] {
            return false;
        }
        assert(a@.take(i + 1) == a@.take(i as int).push(a@[i as int]));
        assert(b@.take(i + 1) == b@.take(i as int).push(b@[i as int]));
        i += 1;
    }
    assert(a@.take(a.len() as int) == a@);
    assert(b@.take(b.len() as int) == b@);
    true
}

// ---------------------------------------------------------------------------
// Character classes and widths
// ---------------------------------------------------------------------------

/// Number of bytes of the UTF-8 encoding of a character.
pub open spec fn utf8_width(c: char) -> int {
    let v = c as u32;
    if v < 0x80 {
        1
    } else if v < 0x800 {
        2
    } else if v < 0x1_0000 {
        3
    } else {
        4
    }
}

/// Number of code units of the UTF-16 encoding of a character.
pub open spec fn utf16_width(c: char) -> int {
    if (c as u32) < 0x1_0000 {
        1
    } else {
        2
    }
}

/// Number of bytes of the UTF-8 encoding of a character.
pub fn len_utf8(c: char) -> (n: usize)
    ensures
        n == utf8_width(c),
{
    let v = c as u32;
    if v < 0x80 {
        1
    } else if v < 0x800 {
        2
    } else if v < 0x1_0000 {
        3
    } else {
        4
    }
}

/// Number of code units of the UTF-16 encoding of a character.
pub fn len_utf16(c: char) -> (n: usize)
    ensures
        n == utf16_width(c),
{
    if (c as u32) < 0x1_0000 {
        1
    } else {
        2
    }
}

/// ASCII letters and digits.
pub open spec fn ascii_alphanumeric(c: char) -> bool {
    ('a' <= c && c <= 'z') || ('A' <= c && c <= 'Z') || ('0' <= c && c <= '9')
}

/// ASCII letters and digits.
pub fn is_ascii_alphanumeric(c: char) -> (r: bool)
    ensures
        r == ascii_alphanumeric(c),
{
    ('a' <= c && c <= 'z') || ('A' <= c && c <= 'Z') || ('0' <= c && c <= '9')
}

/// ASCII whitespace: space, tab, line feed, form feed, carriage return.
pub open spec fn ascii_whitespace(c: char) -> bool {
    c == ' ' || c == '\t' || c == '\n' || c == '\x0C' || c == '\r'
}

/// ASCII whitespace: space, tab, line feed, form feed, carriage return.
pub fn is_ascii_whitespace(c: char) -> (r: bool)
    ensures
        r == ascii_whitespace(c),
{
    c == ' ' || c == '\t' || c == '\n' || c == '\x0C' || c == '\r'
}

/// The lower-case form of an ASCII upper-case letter; any other character
/// unchanged.
pub open spec fn ascii_lowercase(c: char) -> char {
    if 'A' <= c && c <= 'Z' {
        ((c as u8) + 32) as char
    } else {
        c
    }
}

/// The lower-case form of an ASCII upper-case letter; any other character
/// unchanged.
pub fn to_ascii_lowercase(c: char) -> (r: char)
    ensures
        r == ascii_lowercase(c),
{
    if 'A' <= c && c <= 'Z' {
        ((c as u8) + 32) as char
    } else {
        c
    }
}

} // verus!
