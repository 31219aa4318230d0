//! What scanning means: the token that begins at a position of the source
//! text, where scanning goes on after it, and the token sequence and
//! diagnostics of a whole text. The text is a sequence of characters with
//! their classes; what is said here holds however they are classed.

use vstd::prelude::*;
use vstd::wrapping::i64_specs::signed_crop;
use crate::chars::{
    digit_value, glyphs_of, is_blank, is_decimal_digit, is_name_part, is_name_start, spelling,
    Glyph,
};
use crate::report::Report;
use crate::text::{decimal, pad_left};
use crate::token::{ErrorMessage, Lexeme, MAX_IDENTIFIER_LENGTH};

verus! {

/// The character at `pos`, if `pos` lies inside `src`.
pub open spec fn char_at(src: Seq<Glyph>, pos: int) -> Option<char> {
    if 0 <= pos < src.len() {
        Some(src[pos].c)
    } else {
        None
    }
}

/// The character with its classes at `pos`, if `pos` lies inside `src`.
pub open spec fn glyph_at(src: Seq<Glyph>, pos: int) -> Option<Glyph> {
    if 0 <= pos < src.len() {
        Some(src[pos])
    } else {
        None
    }
}

/// The first position at or after `pos` whose character does not satisfy
/// `class`; the length of `src` if there is none.
pub open spec fn run_end(src: Seq<Glyph>, pos: int, class: spec_fn(Glyph) -> bool) -> int
    decreases src.len() - pos,
{
    if 0 <= pos < src.len() && class(src[pos]) {
        run_end(src, pos + 1, class)
    } else {
        pos
    }
}

/// The class of the blanks.
pub open spec fn blanks() -> spec_fn(Glyph) -> bool {
    |g: Glyph| is_blank(g)
}

/// The class of the characters that continue a name.
pub open spec fn name_parts() -> spec_fn(Glyph) -> bool {
    |g: Glyph| is_name_part(g)
}

/// The class of the digits.
pub open spec fn digits() -> spec_fn(Glyph) -> bool {
    |g: Glyph| is_decimal_digit(g.c)
}

/// The class of all characters but the line feed.
pub open spec fn line_insides() -> spec_fn(Glyph) -> bool {
    |g: Glyph| g.c != '\n'
}

/// Where the blanks that begin at `pos` end.
pub open spec fn skip_blanks(src: Seq<Glyph>, pos: int) -> int {
    run_end(src, pos, blanks())
}

/// Where the name characters that begin at `pos` end.
pub open spec fn name_end(src: Seq<Glyph>, pos: int) -> int {
    run_end(src, pos, name_parts())
}

/// Where the digits that begin at `pos` end.
pub open spec fn digits_end(src: Seq<Glyph>, pos: int) -> int {
    run_end(src, pos, digits())
}

/// The position of the first line feed at or after `pos`; the length of
/// `src` if the text ends before one.
pub open spec fn line_break(src: Seq<Glyph>, pos: int) -> int {
    run_end(src, pos, line_insides())
}

/// Where scanning resumes after the rest of the line at `pos` was
/// discarded: behind its line feed, or at the end of the text.
pub open spec fn after_bad_line(src: Seq<Glyph>, pos: int) -> int {
    let nl = line_break(src, pos);
    if nl < src.len() {
        nl + 1
    } else {
        nl
    }
}

/// The character that ended a discarded line: the line feed, or NUL where the
/// text ended first.
pub open spec fn bad_line_mark(src: Seq<Glyph>, pos: int) -> char {
    if line_break(src, pos) < src.len() {
        '\n'
    } else {
        '\0'
    }
}

/// The number of line feeds among the first `pos` characters of `src`.
pub open spec fn newlines_before(src: Seq<Glyph>, pos: int) -> nat
    decreases pos,
{
    if pos <= 0 || pos > src.len() {
        0
    } else if src[pos - 1].c == '\n' {
        newlines_before(src, pos - 1) + 1
    } else {
        newlines_before(src, pos - 1)
    }
}

/// The line, counted from one, that position `pos` of `src` lies on.
pub open spec fn line_of(src: Seq<Glyph>, pos: int) -> nat {
    newlines_before(src, pos) + 1
}

/// No more line feeds lie before a position than characters do.
pub proof fn lemma_newlines_bound(src: Seq<Glyph>, pos: int)
    requires
        0 <= pos <= src.len(),
    ensures
        newlines_before(src, pos) <= pos,
    decreases pos,
{
    if pos > 0 {
        lemma_newlines_bound(src, pos - 1);
    }
}

/// The number that a sequence of decimal digits denotes.
pub open spec fn decimal_value(digits: Seq<char>) -> int
    decreases digits.len(),
{
    if digits.len() == 0 {
        0
    } else {
        decimal_value(digits.drop_last()) * 10 + digit_value(digits.last())
    }
}

/// The reserved word that `text` spells, if it spells one.
pub open spec fn keyword_of(text: Seq<char>) -> Option<Lexeme> {
    if text == "integer"@ {
        Some(Lexeme::Integer)
    } else if text == "function"@ {
        Some(Lexeme::Function)
    } else if text == "if"@ {
        Some(Lexeme::If)
    } else if text == "else"@ {
        Some(Lexeme::Else)
    } else if text == "then"@ {
        Some(Lexeme::Then)
    } else if text == "read"@ {
        Some(Lexeme::Read)
    } else if text == "write"@ {
        Some(Lexeme::Write)
    } else if text == "begin"@ {
        Some(Lexeme::Begin)
    } else if text == "end"@ {
        Some(Lexeme::End)
    } else {
        None
    }
}

/// The token for a scanned word: its reserved word, or else a name.
pub open spec fn word_lexeme(text: Seq<char>) -> Lexeme {
    match keyword_of(text) {
        Some(k) => k,
        None => Lexeme::Identifier(text),
    }
}

/// The outcome of scanning one token.
pub ghost struct Scan {
    /// The token.
    pub token: Lexeme,
    /// Where scanning goes on.
    pub next: int,
    /// The diagnostic raised, if any, and the position at which it was.
    pub fault: Option<(ErrorMessage, int)>,
}

/// A token of `width` characters that raises nothing.
pub open spec fn plain(token: Lexeme, start: int, width: int) -> Scan {
    Scan { token, next: start + width, fault: None }
}

/// Scanning a word that begins at `start`.
pub open spec fn scan_word(src: Seq<Glyph>, start: int) -> Scan {
    let end = name_end(src, start + 1);
    let cut = start + MAX_IDENTIFIER_LENGTH;
    if end > cut {
        Scan {
            token: word_lexeme(spelling(src.subrange(start, cut))),
            next: after_bad_line(src, cut),
            fault: Some((ErrorMessage::OverflowIdentifier, cut)),
        }
    } else {
        Scan { token: word_lexeme(spelling(src.subrange(start, end))), next: end, fault: None }
    }
}

/// Scanning a number that begins at `start`.
pub open spec fn scan_number(src: Seq<Glyph>, start: int) -> Scan {
    let end = digits_end(src, start + 1);
    if end < src.len() && src[end].alphabetic {
        Scan {
            token: Lexeme::Illegal(bad_line_mark(src, end)),
            next: after_bad_line(src, end),
            fault: Some((ErrorMessage::InvalidNumber, end)),
        }
    } else {
        Scan {
            token: Lexeme::IntegerLiteral(signed_crop(
                    decimal_value(spelling(src.subrange(start, end))),
                )),
            next: end,
            fault: None,
        }
    }
}

/// Scanning the token that begins at `start`, a position that holds no
/// blank.
pub open spec fn scan_token(src: Seq<Glyph>, start: int) -> Scan {
    if !(0 <= start < src.len()) {
        Scan { token: Lexeme::Eof, next: start, fault: None }
    } else {
        let c = src[start].c;
        let follower = char_at(src, start + 1);
        if c == '\n' {
            plain(Lexeme::Eol, start, 1)
        } else if c == ';' {
            plain(Lexeme::Semicolon, start, 1)
        } else if c == '=' {
            plain(Lexeme::Equal, start, 1)
        } else if c == '(' {
            plain(Lexeme::LeftParenthesis, start, 1)
        } else if c == ')' {
            plain(Lexeme::RightParenthesis, start, 1)
        } else if c == '-' {
            plain(Lexeme::Minus, start, 1)
        } else if c == '*' {
            plain(Lexeme::Multiply, start, 1)
        } else if c == '<' {
            if follower == Some('=') {
                plain(Lexeme::LessEqual, start, 2)
            } else if follower == Some('>') {
                plain(Lexeme::NotEqual, start, 2)
            } else {
                plain(Lexeme::Less, start, 1)
            }
        } else if c == '>' {
            if follower == Some('=') {
                plain(Lexeme::GreaterEqual, start, 2)
            } else {
                plain(Lexeme::Greater, start, 1)
            }
        } else if c == ':' {
            if follower == Some('=') {
                plain(Lexeme::Assign, start, 2)
            } else {
                Scan {
                    token: Lexeme::Illegal(bad_line_mark(src, start + 1)),
                    next: after_bad_line(src, start + 1),
                    fault: Some((ErrorMessage::FailMatchingSemicolon, start + 1)),
                }
            }
        } else if is_name_start(src[start]) {
            scan_word(src, start)
        } else if is_decimal_digit(c) {
            scan_number(src, start)
        } else {
            plain(Lexeme::Illegal(c), start, 1)
        }
    }
}

/// A run ends at or after the position it began at, and inside the text.
pub proof fn lemma_run_end_bounds(src: Seq<Glyph>, pos: int, class: spec_fn(Glyph) -> bool)
    requires
        0 <= pos <= src.len(),
    ensures
        pos <= run_end(src, pos, class) <= src.len(),
    decreases src.len() - pos,
{
    if pos < src.len() && class(src[pos]) {
        lemma_run_end_bounds(src, pos + 1, class);
    }
}

/// Every token but the end of the text takes at least one character, and
/// scanning never leaves the text.
pub proof fn lemma_scan_advances(src: Seq<Glyph>, start: int)
    requires
        0 <= start < src.len(),
    ensures
        start < scan_token(src, start).next <= src.len(),
        scan_token(src, start).token != Lexeme::Eof,
{
    lemma_run_end_bounds(src, start + 1, name_parts());
    lemma_run_end_bounds(src, start + 1, digits());
    lemma_run_end_bounds(src, start + 1, line_insides());
    let end = name_end(src, start + 1);
    if end > start + 16 {
        lemma_run_end_bounds(src, start + 16, line_insides());
    }
    let dend = digits_end(src, start + 1);
    lemma_run_end_bounds(src, dend, line_insides());
}

/// Reducing into the 64-bit range step by step, digit after digit, gives what
/// reducing the whole number gives.
pub proof fn lemma_crop_step(v: int, d: int)
    requires
        0 <= d <= 9,
    ensures
        vstd::wrapping::i64_specs::wrapping_add(
            vstd::wrapping::i64_specs::wrapping_mul(signed_crop(v), 10),
            d as i64,
        ) == signed_crop(v * 10 + d),
{
    let r: int = 0x1_0000_0000_0000_0000;
    let a = signed_crop(v) as int;
    let b = signed_crop(a * 10) as int;
    let c = vstd::wrapping::i64_specs::wrapping_add(b as i64, d as i64) as int;
    lemma_crop_congruent(v);
    lemma_crop_congruent(a * 10);
    vstd::arithmetic::div_mod::lemma_mul_mod_noop_right(10, a, r);
    vstd::arithmetic::div_mod::lemma_mul_mod_noop_right(10, v, r);
    assert((a * 10) % r == (v * 10) % r);
    vstd::arithmetic::div_mod::lemma_add_mod_noop(b, d, r);
    vstd::arithmetic::div_mod::lemma_add_mod_noop(v * 10, d, r);
    assert((b + d) % r == (v * 10 + d) % r);
    if b + d > i64::MAX {
        vstd::arithmetic::div_mod::lemma_mod_sub_multiples_vanish(b + d, r);
    }
    assert(c % r == (v * 10 + d) % r);
    lemma_crop_unique(c, v * 10 + d);
}

/// A number and its reduction into the 64-bit range differ by a multiple of
/// two to the 64th.
pub proof fn lemma_crop_congruent(v: int)
    ensures
        (signed_crop(v) as int) % 0x1_0000_0000_0000_0000 == v % 0x1_0000_0000_0000_0000,
{
    let r: int = 0x1_0000_0000_0000_0000;
    let m = v % r;
    vstd::arithmetic::div_mod::lemma_mod_twice(v, r);
    if m > i64::MAX {
        vstd::arithmetic::div_mod::lemma_mod_sub_multiples_vanish(m, r);
    }
}

/// The one number of the 64-bit range that differs from `v` by a multiple
/// of two to the 64th is the reduction of `v`.
pub proof fn lemma_crop_unique(c: int, v: int)
    requires
        i64::MIN <= c <= i64::MAX,
        c % 0x1_0000_0000_0000_0000 == v % 0x1_0000_0000_0000_0000,
    ensures
        c == signed_crop(v),
{
    let r: int = 0x1_0000_0000_0000_0000;
    if c >= 0 {
        vstd::arithmetic::div_mod::lemma_small_mod(c as nat, r as nat);
    } else {
        vstd::arithmetic::div_mod::lemma_mod_add_multiples_vanish(c, r);
        vstd::arithmetic::div_mod::lemma_small_mod((c + r) as nat, r as nat);
    }
}

/// A number that fits the 64-bit range is its own reduction.
pub proof fn lemma_crop_small(v: int)
    requires
        i64::MIN <= v <= i64::MAX,
    ensures
        signed_crop(v) == v,
{
    lemma_crop_unique(v, v);
}

/// No digit sequence denotes a negative number.
pub proof fn lemma_decimal_value_bounds(digits: Seq<char>)
    requires
        forall|i: int| 0 <= i < digits.len() ==> is_decimal_digit(digits[i]),
    ensures
        0 <= decimal_value(digits),
    decreases digits.len(),
{
    if digits.len() > 0 {
        lemma_decimal_value_bounds(digits.drop_last());
    }
}

/// A number that no letter follows and that is not greater than the
/// greatest 64-bit integer is scanned as the literal of its decimal value.
pub proof fn lemma_literal_in_range(src: Seq<Glyph>, start: int)
    requires
        0 <= start < src.len(),
        is_decimal_digit(src[start].c),
        scan_number(src, start).fault is None,
        decimal_value(spelling(src.subrange(start, digits_end(src, start + 1)))) <= i64::MAX,
    ensures
        scan_number(src, start).token == Lexeme::IntegerLiteral(
            decimal_value(spelling(src.subrange(start, digits_end(src, start + 1)))) as i64,
        ),
{
    let end = digits_end(src, start + 1);
    lemma_run_end_bounds(src, start + 1, digits());
    lemma_run_holds(src, start + 1, digits());
    lemma_decimal_value_bounds(spelling(src.subrange(start, end)));
    lemma_crop_small(decimal_value(spelling(src.subrange(start, end))));
}

/// The value of a digit sequence that is one digit longer.
pub proof fn lemma_decimal_value_push(digits: Seq<char>, c: char)
    ensures
        decimal_value(digits.push(c)) == decimal_value(digits) * 10 + digit_value(c),
{
    assert(digits.push(c).drop_last() =~= digits);
}

/// The tokens of `src` from position `pos` on: what scanning yields, blanks
/// skipped, up to and with the end-of-text token.
pub open spec fn lex_from(src: Seq<Glyph>, pos: int) -> Seq<Lexeme>
    decreases src.len() - pos,
{
    if 0 <= pos <= src.len() {
        let start = skip_blanks(src, pos);
        if start >= src.len() {
            seq![Lexeme::Eof]
        } else {
            proof {
                lemma_run_end_bounds(src, pos, blanks());
                lemma_scan_advances(src, start);
            }
            seq![scan_token(src, start).token] + lex_from(src, scan_token(src, start).next)
        }
    } else {
        seq![Lexeme::Eof]
    }
}

/// The diagnostics raised while scanning `src` from position `pos` on, in the
/// order in which they are raised.
pub open spec fn faults_from(src: Seq<Glyph>, pos: int) -> Seq<Report>
    decreases src.len() - pos,
{
    if 0 <= pos <= src.len() {
        let start = skip_blanks(src, pos);
        if start >= src.len() {
            Seq::empty()
        } else {
            proof {
                lemma_run_end_bounds(src, pos, blanks());
                lemma_scan_advances(src, start);
            }
            let scan = scan_token(src, start);
            let rest = faults_from(src, scan.next);
            match scan.fault {
                Some((kind, at)) => seq![Report { line: line_of(src, at), kind }] + rest,
                None => rest,
            }
        }
    } else {
        Seq::empty()
    }
}

/// The token sequence of a text holds the end-of-text token exactly once:
/// as its last element.
pub proof fn lemma_one_end_of_text(src: Seq<Glyph>, pos: int)
    ensures
        lex_from(src, pos).len() >= 1,
        lex_from(src, pos).last() == Lexeme::Eof,
        forall|i: int|
            0 <= i < lex_from(src, pos).len() - 1 ==> lex_from(src, pos)[i] != Lexeme::Eof,
    decreases src.len() - pos,
{
    if 0 <= pos <= src.len() {
        let start = skip_blanks(src, pos);
        lemma_run_end_bounds(src, pos, blanks());
        if start < src.len() {
            lemma_scan_advances(src, start);
            lemma_one_end_of_text(src, scan_token(src, start).next);
        }
    }
}

/// Recovery costs one line. A token that raises a diagnostic raises one of
/// the three that scanning knows, behind at least one character of the
/// token; all from there up to and with the next line feed is discarded, or
/// all up to the end of the text where no line feed is left.
pub proof fn lemma_fault_discards_line(src: Seq<Glyph>, start: int)
    requires
        0 <= start < src.len(),
    ensures
        match scan_token(src, start).fault {
            Some((kind, at)) => {
                &&& kind == ErrorMessage::OverflowIdentifier || kind == ErrorMessage::InvalidNumber
                    || kind == ErrorMessage::FailMatchingSemicolon
                &&& start < at <= src.len()
                &&& scan_token(src, start).next == after_bad_line(src, at)
                &&& at <= line_break(src, at) <= src.len()
                &&& forall|i: int| at <= i < line_break(src, at) ==> src[i].c != '\n'
                &&& line_break(src, at) < src.len() ==> src[line_break(src, at)].c == '\n'
            },
            None => true,
        },
{
    lemma_run_end_bounds(src, start + 1, name_parts());
    lemma_run_end_bounds(src, start + 1, digits());
    match scan_token(src, start).fault {
        Some((kind, at)) => {
            lemma_run_end_bounds(src, at, line_insides());
            lemma_run_holds(src, at, line_insides());
        },
        None => {},
    }
}

/// Whether the scanner takes the character for a mark of its own: a line
/// feed, or one that an operator or a delimiter begins with.
pub open spec fn is_mark(c: char) -> bool {
    c == '\n' || c == ';' || c == '=' || c == '(' || c == ')' || c == '-' || c == '*' || c == '<'
        || c == '>' || c == ':'
}

/// Whether the scanner finds a word at `start`: a character that it
/// takes neither for a blank nor for a mark, and that may begin a name.
pub open spec fn begins_word(src: Seq<Glyph>, start: int) -> bool {
    0 <= start < src.len() && !is_blank(src[start]) && !is_mark(src[start].c) && is_name_start(
        src[start],
    )
}

/// A word of more than sixteen characters raises `OverflowIdentifier`, and
/// scanning goes on behind the next line feed, or at the end of the text
/// where no line feed is left: the token is the name made of the first
/// sixteen characters, all up to and with the line feed is passed over, and
/// the diagnostic is on the line of the seventeenth character.
pub proof fn lemma_long_word_overflows(src: Seq<Glyph>, start: int)
    requires
        begins_word(src, start),
        name_end(src, start + 1) - start > 16,
    ensures
        scan_token(src, start).fault == Some((ErrorMessage::OverflowIdentifier, start + 16)),
        scan_token(src, start).token == word_lexeme(spelling(src.subrange(start, start + 16))),
        start + 16 <= line_break(src, start + 16) <= src.len(),
        forall|i: int| start + 16 <= i < line_break(src, start + 16) ==> src[i].c != '\n',
        line_break(src, start + 16) < src.len() ==> src[line_break(src, start + 16)].c == '\n'
            && scan_token(src, start).next == line_break(src, start + 16) + 1,
        line_break(src, start + 16) == src.len() ==> scan_token(src, start).next == src.len(),
        lex_from(src, start) == seq![scan_token(src, start).token] + lex_from(
            src,
            scan_token(src, start).next,
        ),
        faults_from(src, start) == seq![
            Report { line: line_of(src, start + 16), kind: ErrorMessage::OverflowIdentifier },
        ] + faults_from(src, scan_token(src, start).next),
{
    lemma_run_end_bounds(src, start + 1, name_parts());
    lemma_run_end_bounds(src, start + 16, line_insides());
    lemma_run_holds(src, start + 16, line_insides());
    assert(skip_blanks(src, start) == start);
    lemma_scan_advances(src, start);
}

/// Every character of a run is of the run's class, and the character that
/// ends it is not.
pub proof fn lemma_run_holds(src: Seq<Glyph>, pos: int, class: spec_fn(Glyph) -> bool)
    requires
        0 <= pos <= src.len(),
    ensures
        forall|i: int| pos <= i < run_end(src, pos, class) ==> class(#[trigger] src[i]),
        run_end(src, pos, class) < src.len() ==> !class(src[run_end(src, pos, class)]),
    decreases src.len() - pos,
{
    if pos < src.len() && class(src[pos]) {
        lemma_run_holds(src, pos + 1, class);
    }
}

/// Scanning is a function of the text: the same text has the same tokens,
/// the same diagnostics and the same listing, whenever it is scanned.
pub proof fn lemma_same_text_same_tokens(first: Seq<char>, second: Seq<char>)
    requires
        first == second,
    ensures
        tokens_of(glyphs_of(first)) == tokens_of(glyphs_of(second)),
        faults_of(glyphs_of(first)) == faults_of(glyphs_of(second)),
        dump_text(tokens_of(glyphs_of(first))) == dump_text(tokens_of(glyphs_of(second))),
{
}

/// The number of a token's category as a listing shows it: in two digits.
pub open spec fn label_text(label: int) -> Seq<char> {
    if label < 10 {
        "0"@ + decimal(label as nat)
    } else {
        decimal(label as nat)
    }
}

/// The line of a token in a listing: its symbol, flush right in sixteen
/// columns, a blank, the number of its category, and a line feed.
pub open spec fn dump_line(tok: Lexeme) -> Seq<char> {
    pad_left(tok.symbol(), 16) + " "@ + label_text(tok.label()) + "\n"@
}

/// The listing of a token sequence: a line for each token, in their order.
pub open spec fn dump_text(toks: Seq<Lexeme>) -> Seq<char>
    decreases toks.len(),
{
    if toks.len() == 0 {
        Seq::empty()
    } else {
        dump_text(toks.drop_last()) + dump_line(toks.last())
    }
}

/// The token sequence of a text of classed characters.
pub open spec fn tokens_of(src: Seq<Glyph>) -> Seq<Lexeme> {
    lex_from(src, 0)
}

/// The diagnostics of a text of classed characters.
pub open spec fn faults_of(src: Seq<Glyph>) -> Seq<Report> {
    faults_from(src, 0)
}

} // verus!
