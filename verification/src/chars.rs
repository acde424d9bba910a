//! Classes of characters, and the room a character takes in UTF-8.

use vstd::prelude::*;

verus! {

/// A set of characters that text is trimmed by.
#[derive(Clone, Copy, PartialEq, Eq, Structural)]
pub enum CharClass {
    /// Unicode white space.
    Space,
    /// The double quote.
    Quote,
    /// The single quote.
    Apostrophe,
    /// The underscore.
    Underscore,
    /// Punctuation that may stand around a word of a request.
    TokenEdge,
    /// Quotes and punctuation that may stand around quoted content.
    ContentEdge,
    /// Everything but ASCII letters, ASCII digits, `-` and `_`.
    NotName,
}

/// The Unicode property `White_Space`.
pub open spec fn is_space(c: char) -> bool {
    let v = c as u32;
    ||| 0x9 <= v <= 0xd
    ||| v == 0x20
    ||| v == 0x85
    ||| v == 0xa0
    ||| v == 0x1680
    ||| 0x2000 <= v <= 0x200a
    ||| v == 0x2028
    ||| v == 0x2029
    ||| v == 0x202f
    ||| v == 0x205f
    ||| v == 0x3000
}

/// ASCII letters and digits.
pub open spec fn is_ascii_alnum(c: char) -> bool {
    ||| 'a' <= c <= 'z'
    ||| 'A' <= c <= 'Z'
    ||| '0' <= c <= '9'
}

/// Whether `c` belongs to the class `k`.
pub open spec fn in_class(k: CharClass, c: char) -> bool {
    match k {
        CharClass::Space => is_space(c),
        CharClass::Quote => c == '"',
        CharClass::Apostrophe => c == '\'',
        CharClass::Underscore => c == '_',
        CharClass::TokenEdge => c == ',' || c == ';' || c == ':' || c == ')' || c == '(' || c == '['
            || c == ']' || c == '{' || c == '}' || c == '!' || c == '?',
        CharClass::ContentEdge => c == '`' || c == '"' || c == '\'' || c == ',' || c == ';' || c
            == ':' || c == '.' || c == '!' || c == '?' || c == ')' || c == '(' || c == '[' || c
            == ']',
        CharClass::NotName => !is_ascii_alnum(c) && c != '-' && c != '_',
    }
}

/// The number of bytes that `c` takes in UTF-8.
pub open spec fn width(c: char) -> nat {
    let v = c as u32;
    if v < 0x80 {
        1
    } else if v < 0x800 {
        2
    } else if v < 0x10000 {
        3
    } else {
        4
    }
}

/// `c` with an ASCII capital turned into its small letter.
pub open spec fn ascii_small(c: char) -> char {
    if 'A' <= c <= 'Z' {
        ((c as u32) + 32) as char
    } else {
        c
    }
}

/// Tells white space from other characters.
pub fn char_is_space(c: char) -> (r: bool)
    ensures
        r == is_space(c),
{
    let v: u32 = c as u32;
    (0x9 <= v && v <= 0xd) || v == 0x20 || v == 0x85 || v == 0xa0 || v == 0x1680 || (0x2000 <= v
        && v <= 0x200a) || v == 0x2028 || v == 0x2029 || v == 0x202f || v == 0x205f || v == 0x3000
}

/// Tells ASCII letters and digits from other characters.
pub fn char_is_ascii_alnum(c: char) -> (r: bool)
    ensures
        r == is_ascii_alnum(c),
{
    ('a' <= c && c <= 'z') || ('A' <= c && c <= 'Z') || ('0' <= c && c <= '9')
}

/// Whether `c` belongs to the class `k`.
pub fn char_in_class(k: CharClass, c: char) -> (r: bool)
    ensures
        r == in_class(k, c),
{
    match k {
        CharClass::Space => char_is_space(c),
        CharClass::Quote => c == '"',
        CharClass::Apostrophe => c == '\'',
        CharClass::Underscore => c == '_',
        CharClass::TokenEdge => c == ',' || c == ';' || c == ':' || c == ')' || c == '(' || c == '['
            || c == ']' || c == '{' || c == '}' || c == '!' || c == '?',
        CharClass::ContentEdge => c == '`' || c == '"' || c == '\'' || c == ',' || c == ';' || c
            == ':' || c == '.' || c == '!' || c == '?' || c == ')' || c == '(' || c == '[' || c
            == ']',
        CharClass::NotName => !char_is_ascii_alnum(c) && c != '-' && c != '_',
    }
}

/// The number of bytes that `c` takes in UTF-8.
pub fn char_width(c: char) -> (r: u128)
    ensures
        r == width(c),
{
    let v: u32 = c as u32;
    if v < 0x80 {
        1
    } else if v < 0x800 {
        2
    } else if v < 0x10000 {
        3
    } else {
        4
    }
}

/// `c` with an ASCII capital turned into its small letter.
pub fn char_ascii_small(c: char) -> (r: char)
    ensures
        r == ascii_small(c),
{
    if 'A' <= c && c <= 'Z' {
        let v: u8 = c as u8;
        (v + 32) as char
    } else {
        c
    }
}

} // verus!
