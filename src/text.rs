//! Characters and text buffers: the character classes the engine relies on,
//! and conversions between `str` and character vectors.

use vstd::prelude::*;

verus! {

/// Whether `c` is alphabetic, as Unicode's `Alphabetic` property says.
pub uninterp spec fn is_alpha(c: char) -> bool;

/// Whether `c` is uppercase, as Unicode's `Uppercase` property says.
pub uninterp spec fn is_upper(c: char) -> bool;

/// The first character of the uppercase mapping of `c`.
pub uninterp spec fn upper_head(c: char) -> char;

/// The lowercase mapping of a whole string.
pub uninterp spec fn lower_of(s: Seq<char>) -> Seq<char>;

/// An ASCII punctuation character: one of ``!"#$%&'()*+,-./:;<=>?@[\]^_`{|}~``.
pub open spec fn is_punct(c: char) -> bool {
    let u = c as u32;
    (33 <= u <= 47) || (58 <= u <= 64) || (91 <= u <= 96) || (123 <= u <= 126)
}

/// A character with the Unicode `White_Space` property.
pub open spec fn is_space(c: char) -> bool {
    let u = c as u32;
    (9 <= u <= 13) || u == 32 || u == 0x85 || u == 0xA0 || u == 0x1680 || (0x2000 <= u <= 0x200A)
        || u == 0x2028 || u == 0x2029 || u == 0x202F || u == 0x205F || u == 0x3000
}

/// A character that a clean word keeps: a letter or an apostrophe.
pub open spec fn is_word_char(c: char) -> bool {
    is_alpha(c) || c == '\''
}

/// Relies on `char::is_alphabetic`: ASCII letters are alphabetic; ASCII
/// punctuation, digits and whitespace are not.
#[verifier::external_body]
pub fn alphabetic(c: char) -> (r: bool)
    ensures
        r == is_alpha(c),
        ('a' <= c <= 'z' || 'A' <= c <= 'Z') ==> r,
        is_punct(c) ==> !r,
        '0' <= c <= '9' ==> !r,
        is_space(c) ==> !r,
{
    c.is_alphabetic()
}

/// Relies on `char::is_uppercase`: ASCII capitals are uppercase, ASCII
/// small letters are not.
#[verifier::external_body]
pub fn uppercase(c: char) -> (r: bool)
    ensures
        r == is_upper(c),
        'A' <= c <= 'Z' ==> r,
        'a' <= c <= 'z' ==> !r,
{
    c.is_uppercase()
}

/// Relies on `char::to_uppercase`, which yields at least one character, and
/// maps an ASCII small letter to its capital.
#[verifier::external_body]
pub fn to_upper_head(c: char) -> (r: char)
    ensures
        r == upper_head(c),
        'a' <= c <= 'z' ==> r == ((c as u32) - 32) as char,
{
    c.to_uppercase().next().unwrap_or(c)
}

/// Whether `c` is ASCII punctuation.
pub fn ascii_punctuation(c: char) -> (r: bool)
    ensures
        r == is_punct(c),
{
    let u = c as u32;
    (33 <= u && u <= 47) || (58 <= u && u <= 64) || (91 <= u && u <= 96) || (123 <= u && u <= 126)
}

/// Whether `c` is whitespace.
pub fn whitespace(c: char) -> (r: bool)
    ensures
        r == is_space(c),
{
    let u = c as u32;
    (9 <= u && u <= 13) || u == 32 || u == 0x85 || u == 0xA0 || u == 0x1680 || (0x2000 <= u && u
        <= 0x200A) || u == 0x2028 || u == 0x2029 || u == 0x202F || u == 0x205F || u == 0x3000
}

/// Only ASCII characters.
pub open spec fn all_ascii(s: Seq<char>) -> bool {
    forall|i: int| 0 <= i < s.len() ==> (#[trigger] s[i] as u32) < 128
}

/// The ASCII lowercase mapping of one character.
pub open spec fn ascii_lower(c: char) -> char {
    if 'A' <= c <= 'Z' {
        ((c as u32) + 32) as char
    } else {
        c
    }
}

/// Relies on `str::to_lowercase`: the result depends on the characters
/// alone, and ASCII text maps character by character, `A` to `Z` to their
/// small letters and every other character to itself.
#[verifier::external_body]
pub fn lowercase(s: &str) -> (r: String)
    ensures
        r@ == lower_of(s@),
        all_ascii(s@) ==> r@ == s@.map_values(|c: char| ascii_lower(c)),
{
    s.to_lowercase()
}

/// Relies on `String::push`, which appends one character.
pub assume_specification[ String::push ](s: &mut String, c: char)
    ensures
        final(s)@ == old(s)@.push(c),
;

/// The characters of `s`, in order.
pub fn chars_of(s: &str) -> (r: Vec<char>)
    ensures
        r@ == s@,
{
    let mut r: Vec<char> = Vec::new();
    for c in it: s.chars()
        invariant
            it.seq() == s@,
            r@ == it.seq().subrange(0, it.index() as int),
    {
        r.push(c);
    }
    r
}

/// The string made of the characters of `v`, in order.
pub fn string_of(v: &Vec<char>) -> (r: String)
    ensures
        r@ == v@,
{
    let mut r = String::new();
    let mut i: usize = 0;
    while i < v.len()
        invariant
            i <= v.len(),
            r@ == v@.subrange(0, i as int),
        decreases v.len() - i,
    {
        r.push(v[i]);
        i += 1;
        assert(r@ =~= v@.subrange(0, i as int));
    }
    assert(v@.subrange(0, v.len() as int) =~= v@);
    r
}

} // verus!
