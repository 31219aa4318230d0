//! Characters and their classes. What a character is (white space, a
//! letter, a letter or a digit) is asked of the standard library, once for
//! each character of a text; from there on the scanner works with the
//! answers and is verified for every answer that could be given.

use vstd::prelude::*;

verus! {

/// Whether `c` carries the Unicode `White_Space` property.
pub uninterp spec fn unicode_whitespace(c: char) -> bool;

/// Whether `c` carries the Unicode `Alphabetic` property.
pub uninterp spec fn unicode_alphabetic(c: char) -> bool;

/// Whether `c` is alphabetic or numeric in the sense of Unicode.
pub uninterp spec fn unicode_alphanumeric(c: char) -> bool;

/// `char::is_whitespace` of the standard library. Its answer is a fixed
/// property of the character, which this crate calls
/// [`unicode_whitespace`]; nothing more is assumed of it.
#[verifier::external_body]
pub(crate) fn char_is_whitespace(c: char) -> (b: bool)
    ensures
        b == unicode_whitespace(c),
{
    c.is_whitespace()
}

/// `char::is_alphabetic` of the standard library. Its answer is a fixed
/// property of the character, which this crate calls
/// [`unicode_alphabetic`]; nothing more is assumed of it.
#[verifier::external_body]
pub(crate) fn char_is_alphabetic(c: char) -> (b: bool)
    ensures
        b == unicode_alphabetic(c),
{
    c.is_alphabetic()
}

/// `char::is_alphanumeric` of the standard library. Its answer is a fixed
/// property of the character, which this crate calls
/// [`unicode_alphanumeric`]; nothing more is assumed of it.
#[verifier::external_body]
pub(crate) fn char_is_alphanumeric(c: char) -> (b: bool)
    ensures
        b == unicode_alphanumeric(c),
{
    c.is_alphanumeric()
}

/// A character as the scanner sees it: the character, and what it was
/// found to be.
#[derive(Clone, Copy, Debug, PartialEq, Eq, Structural)]
pub struct Glyph {
    /// The character.
    pub c: char,
    /// Whether it is white space.
    pub white_space: bool,
    /// Whether it is a letter.
    pub alphabetic: bool,
    /// Whether it is a letter or a digit.
    pub alphanumeric: bool,
}

/// The character `c` as Unicode classes it.
pub open spec fn glyph_of(c: char) -> Glyph {
    Glyph {
        c,
        white_space: unicode_whitespace(c),
        alphabetic: unicode_alphabetic(c),
        alphanumeric: unicode_alphanumeric(c),
    }
}

/// The text `text` as Unicode classes its characters.
pub open spec fn glyphs_of(text: Seq<char>) -> Seq<Glyph> {
    text.map_values(|c: char| glyph_of(c))
}

/// The characters of a sequence of glyphs.
pub open spec fn spelling(glyphs: Seq<Glyph>) -> Seq<char> {
    glyphs.map_values(|g: Glyph| g.c)
}

/// A blank: white space other than the line feed, which is a token.
pub open spec fn is_blank(g: Glyph) -> bool {
    g.c != '\n' && g.white_space
}

/// A character that may begin a name.
pub open spec fn is_name_start(g: Glyph) -> bool {
    g.alphabetic || g.c == '_'
}

/// A character that may continue a name.
pub open spec fn is_name_part(g: Glyph) -> bool {
    g.alphanumeric || g.c == '_'
}

/// One of the ten decimal digits.
pub open spec fn is_decimal_digit(c: char) -> bool {
    '0' <= c && c <= '9'
}

/// The number a decimal digit stands for.
pub open spec fn digit_value(c: char) -> int {
    c as int - '0' as int
}

/// Classes a character as Unicode does.
pub fn classify(c: char) -> (g: Glyph)
    ensures
        g == glyph_of(c),
{
    Glyph {
        c,
        white_space: char_is_whitespace(c),
        alphabetic: char_is_alphabetic(c),
        alphanumeric: char_is_alphanumeric(c),
    }
}

/// Classes the characters of a text as Unicode does.
pub fn classify_text(text: &str) -> (glyphs: Vec<Glyph>)
    ensures
        glyphs@ == glyphs_of(text@),
{
    let mut glyphs: Vec<Glyph> = Vec::new();
    let it = text.chars();
    for c in iter: it
        invariant
            iter.seq() == text@,
            glyphs@ == glyphs_of(iter.seq().take(iter.index() as int)),
    {
        let ghost before = glyphs@;
        glyphs.push(classify(c));
        assert(glyphs@ =~= glyphs_of(iter.seq().take(iter.index() + 1)));
    }
    assert(text@.take(text@.len() as int) =~= text@);
    glyphs
}

/// Tells blanks from all other characters.
pub fn blank(g: Glyph) -> (b: bool)
    ensures
        b == is_blank(g),
{
    g.c != '\n' && g.white_space
}

/// Tells the characters that may begin a name.
pub fn name_start(g: Glyph) -> (b: bool)
    ensures
        b == is_name_start(g),
{
    g.alphabetic || g.c == '_'
}

/// Tells the characters that may continue a name.
pub fn name_part(g: Glyph) -> (b: bool)
    ensures
        b == is_name_part(g),
{
    g.alphanumeric || g.c == '_'
}

/// Tells the decimal digits.
pub fn decimal_digit(c: char) -> (b: bool)
    ensures
        b == is_decimal_digit(c),
{
    c >= '0' && c <= '9'
}

/// The value of a decimal digit.
pub fn digit_of(c: char) -> (d: i64)
    requires
        is_decimal_digit(c),
    ensures
        d == digit_value(c),
        0 <= d <= 9,
{
    (c as u32 - '0' as u32) as i64
}

} // verus!
