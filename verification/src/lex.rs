//! The tokenizer: a hand-written scanner with one character of lookahead
//! that recovers from a malformed token by discarding the rest of its line.

use vstd::prelude::*;
use vstd::wrapping::i64_specs::signed_crop;
use crate::chars::{
    blank, classify_text, decimal_digit, digit_of, glyphs_of, is_blank, is_decimal_digit,
    is_name_part, is_name_start, name_part, name_start, spelling, Glyph,
};
use crate::prep::Preprocessor;
use crate::report::{
    companion_path, file_entry, file_line, scan_console_entry, scan_console_line, sink, sink_of,
    Diagnostic, Report, Sink,
};
use crate::scan::{
    after_bad_line, bad_line_mark, blanks, char_at, decimal_value, digits_end, dump_line, dump_text,
    faults_from, faults_of, glyph_at, keyword_of, lemma_crop_step, lemma_decimal_value_push,
    lemma_newlines_bound, lemma_one_end_of_text, lemma_run_end_bounds, lemma_scan_advances,
    lex_from, line_break, line_of, name_end, name_parts, newlines_before, scan_number, scan_token,
    scan_word, skip_blanks, tokens_of, Scan,
};
use crate::text::{push_decimal, push_padded, push_signed_decimal, same_text};
use crate::token::{ErrorMessage, Lexeme, MAX_IDENTIFIER_LENGTH, Token};

verus! {

/// The tokenizer and what it has produced so far.
pub struct Lexer {
    /// The name of the program, from which the names of its files derive.
    name: &'static str,
    /// The mode of the run, which names the sink of the diagnostics.
    mode: &'static str,
    /// The source text: its characters, each with its classes.
    chars: Vec<Glyph>,
    /// The greatest length of a name.
    max_len: usize,
    /// The names seen so far.
    word_table: Vec<String>,
    /// The numbers seen so far, each with its token.
    literal_table: std::collections::HashMap<i64, Token>,
    /// The current character: the one at the cursor, if the text has one
    /// there.
    cha: Option<Glyph>,
    /// The cursor: the position of the current character. All before it is
    /// consumed.
    pos: usize,
    /// The lookahead buffer.
    peek: Option<Glyph>,
    /// The text of the word being built.
    token: String,
    /// The number of line feeds consumed; the current line is one more.
    newlines: usize,
    /// The tokens produced so far.
    stream: Vec<Token>,
    /// The diagnostics raised so far.
    errors: Vec<Diagnostic>,
}

impl Lexer {
    /// The source text: its characters, each with its classes.
    pub closed spec fn text(&self) -> Seq<Glyph> {
        self.chars@
    }

    /// The position of the next character to scan.
    pub closed spec fn cursor(&self) -> int {
        self.pos as int
    }

    /// The tokens produced so far.
    pub closed spec fn tokens(&self) -> Seq<Lexeme> {
        self.stream.deep_view()
    }

    /// The diagnostics raised so far.
    pub closed spec fn faults(&self) -> Seq<Report> {
        self.errors.deep_view()
    }

    /// The name of the program.
    pub closed spec fn name_text(&self) -> Seq<char> {
        self.name@
    }

    /// The mode of the run, which names the sink of the diagnostics.
    pub closed spec fn mode_text(&self) -> Seq<char> {
        self.mode@
    }

    /// The scanner's state is consistent: the cursor lies in the text, the
    /// current character and the line count are those of the cursor, and the
    /// table of names holds each name once.
    pub closed spec fn wf(&self) -> bool {
        &&& self.max_len == MAX_IDENTIFIER_LENGTH
        &&& self.pos <= self.chars.len()
        &&& self.cha == glyph_at(self.chars@, self.pos as int)
        &&& self.newlines == newlines_before(self.chars@, self.pos as int)
        &&& forall|i: int, j: int|
            #![trigger self.word_table[i], self.word_table[j]]
            0 <= i < j < self.word_table.len() ==> self.word_table[i]@ != self.word_table[j]@
    }

    /// `self` is `before` with the cursor moved to `to`, and nothing else
    /// changed.
    spec fn moved(&self, before: &Lexer, to: int) -> bool {
        &&& self.wf()
        &&& self.pos == to
        &&& self.name == before.name
        &&& self.mode == before.mode
        &&& self.chars == before.chars
        &&& self.word_table == before.word_table
        &&& self.literal_table == before.literal_table
        &&& self.peek == before.peek
        &&& self.token == before.token
        &&& self.stream == before.stream
        &&& self.errors == before.errors
    }

    /// A tokenizer at the start of the text of `p`, with nothing produced.
    /// The characters of the text are classed as Unicode classes them.
    pub fn new(p: Preprocessor, name: &'static str, mode: &'static str) -> (l: Lexer)
        ensures
            l.wf(),
            l.text() == glyphs_of(p.content@),
            l.cursor() == 0,
            l.tokens() == Seq::<Lexeme>::empty(),
            l.faults() == Seq::<Report>::empty(),
            l.name_text() == name@,
            l.mode_text() == mode@,
    {
        Lexer::from_glyphs(classify_text(p.content.as_str()), name, mode)
    }

    /// A tokenizer at the start of a text whose characters are classed
    /// already, with nothing produced.
    pub fn from_glyphs(glyphs: Vec<Glyph>, name: &'static str, mode: &'static str) -> (l: Lexer)
        ensures
            l.wf(),
            l.text() == glyphs@,
            l.cursor() == 0,
            l.tokens() == Seq::<Lexeme>::empty(),
            l.faults() == Seq::<Report>::empty(),
            l.name_text() == name@,
            l.mode_text() == mode@,
    {
        let cha = if glyphs.len() > 0 { Some(glyphs[0]) } else { None };
        let l = Lexer {
            name,
            mode,
            chars: glyphs,
            max_len: MAX_IDENTIFIER_LENGTH,
            word_table: Vec::new(),
            literal_table: std::collections::HashMap::new(),
            cha,
            pos: 0,
            peek: None,
            token: String::new(),
            newlines: 0,
            stream: Vec::new(),
            errors: Vec::new(),
        };
        assert(l.stream.deep_view() =~= Seq::<Lexeme>::empty());
        assert(l.errors.deep_view() =~= Seq::<Report>::empty());
        l
    }

    /// Whether the current character is a blank.
    fn is_white(&self) -> (b: bool)
        ensures
            b == match self.cha {
                Some(g) => is_blank(g),
                None => false,
            },
    {
        match self.cha {
            Some(g) => blank(g),
            None => false,
        }
    }

    /// Whether the current character may begin a name.
    fn is_lu(&self) -> (b: bool)
        ensures
            b == match self.cha {
                Some(g) => is_name_start(g),
                None => false,
            },
    {
        match self.cha {
            Some(g) => name_start(g),
            None => false,
        }
    }

    /// Whether the current character may continue a name.
    fn is_dlu(&self) -> (b: bool)
        ensures
            b == match self.cha {
                Some(g) => is_name_part(g),
                None => false,
            },
    {
        match self.cha {
            Some(g) => name_part(g),
            None => false,
        }
    }

    /// Whether the current character is a digit.
    fn is_d(&self) -> (b: bool)
        ensures
            b == match self.cha {
                Some(g) => is_decimal_digit(g.c),
                None => false,
            },
    {
        match self.cha {
            Some(g) => decimal_digit(g.c),
            None => false,
        }
    }

    /// Whether the lookahead character is a letter, which may not follow a
    /// number.
    fn peek_is_a(&self) -> (b: bool)
        ensures
            b == match self.peek {
                Some(g) => g.alphabetic,
                None => false,
            },
    {
        match self.peek {
            Some(g) => g.alphabetic,
            None => false,
        }
    }

    /// Whether the lookahead character is a digit.
    fn peek_is_d(&self) -> (b: bool)
        ensures
            b == match self.peek {
                Some(g) => is_decimal_digit(g.c),
                None => false,
            },
    {
        match self.peek {
            Some(g) => decimal_digit(g.c),
            None => false,
        }
    }

    /// Fills the lookahead buffer with the character behind the current one.
    fn get_peek(&mut self)
        requires
            old(self).wf(),
        ensures
            final(self).peek == glyph_at(old(self).chars@, old(self).pos + 1),
            *final(self) == (Lexer { peek: final(self).peek, ..*old(self) }),
    {
        if self.pos < self.chars.len() && self.pos + 1 < self.chars.len() {
            self.peek = Some(self.chars[self.pos + 1]);
        } else {
            self.peek = None;
        }
    }

    /// Consumes the current character and makes the one behind it current. At
    /// the end of the text nothing is left to consume.
    fn getchar(&mut self) -> (c: Option<char>)
        requires
            old(self).wf(),
        ensures
            final(self).moved(
                old(self),
                if old(self).pos < old(self).chars.len() {
                    old(self).pos + 1
                } else {
                    old(self).pos as int
                },
            ),
            c == char_at(final(self).chars@, final(self).pos as int),
    {
        if self.pos < self.chars.len() {
            if self.chars[self.pos].c == '\n' {
                proof {
                    lemma_newlines_bound(self.chars@, self.pos as int);
                }
                self.newlines = self.newlines + 1;
            }
            self.pos = self.pos + 1;
        }
        if self.pos < self.chars.len() {
            self.cha = Some(self.chars[self.pos]);
            Some(self.chars[self.pos].c)
        } else {
            self.cha = None;
            None
        }
    }

    /// Consumes the blanks at the cursor.
    fn getnbc(&mut self)
        requires
            old(self).wf(),
        ensures
            final(self).moved(old(self), skip_blanks(old(self).chars@, old(self).pos as int)),
    {
        while self.is_white()
            invariant
                self.moved(old(self), self.pos as int),
                old(self).pos <= self.pos,
                skip_blanks(self.chars@, self.pos as int) == skip_blanks(
                    old(self).chars@,
                    old(self).pos as int,
                ),
            decreases self.chars.len() - self.pos,
        {
            self.getchar();
        }
    }

    /// Appends the current character to the text of the token being built.
    fn concat(&mut self)
        requires
            old(self).wf(),
        ensures
            final(self).token@ == match old(self).cha {
                Some(g) => old(self).token@.push(g.c),
                None => old(self).token@,
            },
            final(self).wf(),
            *final(self) == (Lexer { token: final(self).token, ..*old(self) }),
    {
        match self.cha {
            Some(g) => {
                self.token.push(g.c);
            },
            None => {},
        }
    }

    /// Records a diagnostic of the given kind on the current line.
    fn error(&mut self, errmsg: ErrorMessage)
        requires
            old(self).wf(),
            old(self).newlines < usize::MAX,
        ensures
            final(self).wf(),
            final(self).errors.deep_view() == old(self).errors.deep_view().push(
                Report {
                    line: line_of(old(self).chars@, old(self).pos as int),
                    kind: errmsg,
                },
            ),
            *final(self) == (Lexer { errors: final(self).errors, ..*old(self) }),
    {
        let d = Diagnostic { line: self.newlines + 1, kind: errmsg };
        self.errors.push(d);
        assert(self.errors.deep_view() =~= old(self).errors.deep_view().push(d@));
    }

    /// Discards the rest of the current line, its line feed included, and
    /// tells what ended it: the line feed, or NUL at the end of the text.
    fn skip_bad_line(&mut self) -> (mark: char)
        requires
            old(self).wf(),
        ensures
            final(self).moved(old(self), after_bad_line(old(self).chars@, old(self).pos as int)),
            mark == bad_line_mark(old(self).chars@, old(self).pos as int),
    {
        while self.pos < self.chars.len() && self.chars[self.pos].c != '\n'
            invariant
                self.moved(old(self), self.pos as int),
                old(self).pos <= self.pos,
                line_break(self.chars@, self.pos as int) == line_break(
                    old(self).chars@,
                    old(self).pos as int,
                ),
            decreases self.chars.len() - self.pos,
        {
            self.getchar();
        }
        let mark = if self.pos < self.chars.len() { '\n' } else { '\0' };
        self.getchar();
        mark
    }

    /// `self` is `before` after the token `scan` was scanned: the cursor is
    /// behind the token and the token's diagnostic, if it raised one, is
    /// recorded. The tokens produced are as they were.
    spec fn scanned(&self, before: &Lexer, scan: Scan) -> bool {
        &&& self.wf()
        &&& self.pos == scan.next
        &&& self.name == before.name
        &&& self.mode == before.mode
        &&& self.chars == before.chars
        &&& self.stream == before.stream
        &&& self.errors.deep_view() == match scan.fault {
            Some((kind, at)) => before.errors.deep_view().push(
                Report { line: line_of(before.chars@, at), kind },
            ),
            None => before.errors.deep_view(),
        }
    }

    /// Whether `name` is in the table of names seen.
    spec fn knows_word(&self, name: Seq<char>) -> bool {
        exists|i: int| 0 <= i < self.word_table.len() && self.word_table[i]@ == name
    }

    /// Looks the text of the token being built up among the reserved words.
    fn reserve(&self) -> (tk: Option<Token>)
        ensures
            match tk {
                Some(k) => keyword_of(self.token@) == Some(k@),
                None => keyword_of(self.token@) is None,
            },
    {
        let text = self.token.as_str();
        if same_text(text, "integer") {
            Some(Token::Integer)
        } else if same_text(text, "function") {
            Some(Token::Function)
        } else if same_text(text, "if") {
            Some(Token::If)
        } else if same_text(text, "else") {
            Some(Token::Else)
        } else if same_text(text, "then") {
            Some(Token::Then)
        } else if same_text(text, "read") {
            Some(Token::Read)
        } else if same_text(text, "write") {
            Some(Token::Write)
        } else if same_text(text, "begin") {
            Some(Token::Begin)
        } else if same_text(text, "end") {
            Some(Token::End)
        } else {
            None
        }
    }

    /// The name token for the text of the token being built. The name is
    /// entered in the table of names seen unless it is there; the token is
    /// the same either way.
    fn word(&mut self) -> (tk: Token)
        requires
            old(self).wf(),
        ensures
            tk@ == Lexeme::Identifier(old(self).token@),
            forall|n: Seq<char>|
                final(self).knows_word(n) <==> (old(self).knows_word(n) || n == old(self).token@),
            final(self).wf(),
            *final(self) == (Lexer { word_table: final(self).word_table, ..*old(self) }),
    {
        let mut i: usize = 0;
        let mut found = false;
        while i < self.word_table.len() && !found
            invariant
                *self == *old(self),
                i <= self.word_table.len(),
                found ==> self.knows_word(self.token@),
                !found ==> forall|j: int| 0 <= j < i ==> self.word_table[j]@ != self.token@,
            decreases self.word_table.len() - i + if found { 0int } else { 1int },
        {
            if self.word_table[i] == self.token {
                found = true;
            } else {
                i = i + 1;
            }
        }
        if !found {
            let name = self.token.clone();
            self.word_table.push(name);
            assert(self.word_table[old(self).word_table.len() as int]@ == old(self).token@);
            assert forall|n: Seq<char>|
                self.knows_word(n) <==> (old(self).knows_word(n) || n == old(self).token@) by {
                if old(self).knows_word(n) {
                    let k = choose|k: int|
                        0 <= k < old(self).word_table.len() && old(self).word_table[k]@ == n;
                    assert(self.word_table[k]@ == n);
                }
                if self.knows_word(n) {
                    let k = choose|k: int|
                        0 <= k < self.word_table.len() && self.word_table[k]@ == n;
                    if k < old(self).word_table.len() {
                        assert(old(self).word_table[k]@ == n);
                    }
                }
            }
        }
        Token::Identifier(self.token.clone())
    }

    /// The literal token for `num`. The number is entered in the table of
    /// numbers seen unless it is there; the token is the same either way.
    fn literal(&mut self, num: i64) -> (tk: Token)
        requires
            old(self).wf(),
        ensures
            tk@ == Lexeme::IntegerLiteral(num),
            final(self).literal_table@.dom() == old(self).literal_table@.dom().insert(num),
            *final(self) == (Lexer { literal_table: final(self).literal_table, ..*old(self) }),
    {
        broadcast use vstd::std_specs::hash::group_hash_axioms;

        match self.literal_table.get(&num) {
            Some(_) => {
                assert(self.literal_table@.dom().insert(num) =~= self.literal_table@.dom());
                Token::IntegerLiteral(num)
            },
            None => {
                let tk = Token::IntegerLiteral(num);
                self.literal_table.insert(num, tk.clone());
                tk
            },
        }
    }

    /// Scans a word, a reserved one or a name, that begins at the cursor. A
    /// word of more than sixteen characters is cut after the sixteenth, a
    /// diagnostic is raised and the rest of its line is discarded.
    fn lex_identifier(&mut self) -> (tk: Token)
        requires
            old(self).wf(),
            old(self).pos < old(self).chars.len(),
            old(self).token@.len() == 0,
        ensures
            tk@ == scan_word(old(self).chars@, old(self).pos as int).token,
            final(self).scanned(old(self), scan_word(old(self).chars@, old(self).pos as int)),
    {
        let ghost src = self.chars@;
        let ghost start = self.pos as int;
        self.concat();
        self.getchar();
        let mut n: usize = 1;
        assert(self.token@ =~= spelling(src.subrange(start, start + 1)));
        while n < self.max_len && self.is_dlu()
            invariant
                self.wf(),
                self.name == old(self).name,
                self.mode == old(self).mode,
                self.chars == old(self).chars,
                self.stream == old(self).stream,
                self.errors == old(self).errors,
                src == self.chars@,
                start == old(self).pos,
                self.pos == start + n,
                1 <= n <= 16,
                self.token@ == spelling(src.subrange(start, start + n)),
                name_end(src, self.pos as int) == name_end(src, start + 1),
            decreases 16 - n,
        {
            self.concat();
            self.getchar();
            assert(self.token@ =~= spelling(src.subrange(start, start + n + 1)));
            n = n + 1;
        }
        if self.is_dlu() {
            proof {
                lemma_newlines_bound(src, self.pos as int);
                lemma_run_end_bounds(src, self.pos + 1, name_parts());
            }
            self.error(ErrorMessage::OverflowIdentifier);
            self.skip_bad_line();
        }
        match self.reserve() {
            Some(tk) => tk,
            None => self.word(),
        }
    }

    /// Scans a number that begins at the cursor. A letter right behind the
    /// digits raises a diagnostic; the rest of the line is then discarded.
    fn lex_digits_str(&mut self) -> (tk: Token)
        requires
            old(self).wf(),
            old(self).pos < old(self).chars.len(),
            is_decimal_digit(old(self).chars[old(self).pos as int].c),
        ensures
            tk@ == scan_number(old(self).chars@, old(self).pos as int).token,
            final(self).scanned(old(self), scan_number(old(self).chars@, old(self).pos as int)),
    {
        let ghost src = self.chars@;
        let ghost start = self.pos as int;
        let mut res: i64 = 0;
        assert(spelling(src.subrange(start, start)) =~= Seq::<char>::empty());
        loop
            invariant_except_break
                self.wf(),
                self.name == old(self).name,
                self.mode == old(self).mode,
                self.chars == old(self).chars,
                self.stream == old(self).stream,
                self.errors == old(self).errors,
                src == self.chars@,
                start == old(self).pos,
                start <= self.pos < src.len(),
                is_decimal_digit(src[self.pos as int].c),
                digits_end(src, self.pos as int) == digits_end(src, start + 1),
                res == signed_crop(decimal_value(spelling(src.subrange(start, self.pos as int)))),
            ensures
                self.wf(),
                self.name == old(self).name,
                self.mode == old(self).mode,
                self.chars == old(self).chars,
                self.stream == old(self).stream,
                self.errors == old(self).errors,
                src == self.chars@,
                start <= self.pos < src.len(),
                is_decimal_digit(src[self.pos as int].c),
                self.pos + 1 == digits_end(src, start + 1),
                self.peek == glyph_at(src, self.pos + 1),
                res == signed_crop(decimal_value(spelling(src.subrange(start, self.pos + 1)))),
            decreases src.len() - self.pos,
        {
            let c = self.chars[self.pos].c;
            let d = digit_of(c);
            proof {
                let done = spelling(src.subrange(start, self.pos as int));
                lemma_crop_step(decimal_value(done), d as int);
                lemma_decimal_value_push(done, c);
                assert(done.push(c) =~= spelling(src.subrange(start, self.pos + 1)));
            }
            res = res.wrapping_mul(10).wrapping_add(d);
            self.get_peek();
            if !self.peek_is_d() {
                assert(digits_end(src, self.pos + 1) == self.pos + 1);
                break;
            }
            self.getchar();
        }
        if self.peek_is_a() {
            proof {
                lemma_newlines_bound(src, self.pos as int);
            }
            self.error(ErrorMessage::InvalidNumber);
            let mark = self.skip_bad_line();
            return Token::Illegal(mark);
        }
        self.getchar();
        self.literal(res)
    }

    /// Scans one token: skips the blanks at the cursor and recognises the
    /// longest token that begins behind them.
    fn current_token(&mut self) -> (tk: Token)
        requires
            old(self).wf(),
        ensures
            tk@ == scan_token(
                old(self).chars@,
                skip_blanks(old(self).chars@, old(self).pos as int),
            ).token,
            final(self).scanned(
                old(self),
                scan_token(old(self).chars@, skip_blanks(old(self).chars@, old(self).pos as int)),
            ),
    {
        self.getnbc();
        self.token = String::new();
        proof {
            lemma_run_end_bounds(old(self).chars@, old(self).pos as int, blanks());
        }
        match self.cha {
            None => Token::Eof,
            Some(g) => {
                let c = g.c;
                if c == '\n' {
                    self.getchar();
                    Token::Eol
                } else if c == ';' {
                    self.getchar();
                    Token::Semicolon
                } else if c == '=' {
                    self.getchar();
                    Token::Equal
                } else if c == '(' {
                    self.getchar();
                    Token::LeftParenthesis
                } else if c == ')' {
                    self.getchar();
                    Token::RightParenthesis
                } else if c == '-' {
                    self.getchar();
                    Token::Minus
                } else if c == '*' {
                    self.getchar();
                    Token::Multiply
                } else if c == '<' {
                    let follower = self.getchar();
                    if follower == Some('=') {
                        self.getchar();
                        Token::LessEqual
                    } else if follower == Some('>') {
                        self.getchar();
                        Token::NotEqual
                    } else {
                        Token::Less
                    }
                } else if c == '>' {
                    let follower = self.getchar();
                    if follower == Some('=') {
                        self.getchar();
                        Token::GreaterEqual
                    } else {
                        Token::Greater
                    }
                } else if c == ':' {
                    let follower = self.getchar();
                    if follower == Some('=') {
                        self.getchar();
                        Token::Assign
                    } else {
                        proof {
                            lemma_newlines_bound(self.chars@, self.pos - 1);
                        }
                        self.error(ErrorMessage::FailMatchingSemicolon);
                        let mark = self.skip_bad_line();
                        Token::Illegal(mark)
                    }
                } else if self.is_lu() {
                    self.lex_identifier()
                } else if self.is_d() {
                    self.lex_digits_str()
                } else {
                    self.getchar();
                    Token::Illegal(c)
                }
            },
        }
    }

    /// Scans the text from the cursor to its end. The tokens, the last of
    /// them the end-of-text token, are added to those produced so far, and
    /// the diagnostics raised to those raised so far.
    pub fn analyse(&mut self)
        requires
            old(self).wf(),
        ensures
            final(self).wf(),
            final(self).text() == old(self).text(),
            final(self).name_text() == old(self).name_text(),
            final(self).mode_text() == old(self).mode_text(),
            final(self).cursor() == old(self).text().len(),
            final(self).tokens() == old(self).tokens() + lex_from(
                old(self).text(),
                old(self).cursor(),
            ),
            final(self).faults() == old(self).faults() + faults_from(
                old(self).text(),
                old(self).cursor(),
            ),
            final(self).tokens().len() > old(self).tokens().len(),
            final(self).tokens().last() == Lexeme::Eof,
    {
        let ghost src = self.chars@;
        proof {
            lemma_one_end_of_text(src, self.pos as int);
        }
        loop
            invariant_except_break
                self.wf(),
                self.chars@ == src,
                self.name == old(self).name,
                self.mode == old(self).mode,
                old(self).stream.deep_view() + lex_from(src, old(self).pos as int)
                    == self.stream.deep_view() + lex_from(src, self.pos as int),
                old(self).errors.deep_view() + faults_from(src, old(self).pos as int)
                    == self.errors.deep_view() + faults_from(src, self.pos as int),
            ensures
                self.wf(),
                self.chars@ == src,
                self.name == old(self).name,
                self.mode == old(self).mode,
                self.pos == src.len(),
                self.stream.deep_view() == old(self).stream.deep_view() + lex_from(
                    src,
                    old(self).pos as int,
                ),
                self.errors.deep_view() == old(self).errors.deep_view() + faults_from(
                    src,
                    old(self).pos as int,
                ),
            decreases src.len() - self.pos,
        {
            let ghost before = *self;
            let ghost start = skip_blanks(src, self.pos as int);
            let ghost scan = scan_token(src, start);
            proof {
                lemma_run_end_bounds(src, self.pos as int, blanks());
                if start < src.len() {
                    lemma_scan_advances(src, start);
                }
            }
            let tk = self.current_token();
            let done = tk == Token::Eof;
            self.stream.push(tk);
            self.token = String::new();
            self.peek = None;
            proof {
                assert(self.stream.deep_view() =~= before.stream.deep_view().push(scan.token));
                if done {
                    assert(before.stream.deep_view() + lex_from(src, before.pos as int)
                        =~= self.stream.deep_view());
                    assert(self.errors.deep_view() + faults_from(src, before.pos as int)
                        =~= self.errors.deep_view());
                } else {
                    assert(before.stream.deep_view() + lex_from(src, before.pos as int)
                        =~= self.stream.deep_view() + lex_from(src, self.pos as int));
                    assert(before.errors.deep_view() + faults_from(src, before.pos as int)
                        =~= self.errors.deep_view() + faults_from(src, self.pos as int));
                }
            }
            if done {
                break;
            }
        }
    }

    /// The tokens and the diagnostics of a source text. The tokens end with
    /// the end-of-text token, which occurs nowhere else among them.
    pub fn tokenize(source: String) -> (r: (Vec<Token>, Vec<Diagnostic>))
        ensures
            r.0.deep_view() == tokens_of(glyphs_of(source@)),
            r.1.deep_view() == faults_of(glyphs_of(source@)),
            r.0.len() >= 1,
            r.0.deep_view().last() == Lexeme::Eof,
            forall|i: int| 0 <= i < r.0.len() - 1 ==> r.0.deep_view()[i] != Lexeme::Eof,
    {
        Lexer::tokenize_glyphs(classify_text(source.as_str()))
    }

    /// The tokens and the diagnostics of a text whose characters are classed
    /// already. The tokens end with the end-of-text token, which occurs
    /// nowhere else among them.
    pub fn tokenize_glyphs(glyphs: Vec<Glyph>) -> (r: (Vec<Token>, Vec<Diagnostic>))
        ensures
            r.0.deep_view() == tokens_of(glyphs@),
            r.1.deep_view() == faults_of(glyphs@),
            r.0.len() >= 1,
            r.0.deep_view().last() == Lexeme::Eof,
            forall|i: int| 0 <= i < r.0.len() - 1 ==> r.0.deep_view()[i] != Lexeme::Eof,
    {
        let ghost src = glyphs@;
        let mut lexer = Lexer::from_glyphs(glyphs, "", "");
        lexer.analyse();
        proof {
            lemma_one_end_of_text(src, 0);
            assert(lexer.tokens() =~= tokens_of(src));
            assert(lexer.faults() =~= faults_of(src));
        }
        (lexer.stream, lexer.errors)
    }

    /// The tokens produced so far.
    pub fn get_stream(&self) -> (stream: Vec<Token>)
        ensures
            stream.deep_view() == self.tokens(),
    {
        self.stream.clone()
    }

    /// The diagnostics raised so far.
    pub fn get_errors(&self) -> (errors: Vec<Diagnostic>)
        ensures
            errors.deep_view() == self.faults(),
    {
        self.errors.clone()
    }

    /// The text that stands for a token in the listing.
    pub fn get_symbol(&self, tk: &Token) -> (symbol: String)
        ensures
            symbol@ == tk@.symbol(),
    {
        match tk {
            Token::Begin => "begin".to_owned(),
            Token::End => "end".to_owned(),
            Token::Integer => "integer".to_owned(),
            Token::If => "if".to_owned(),
            Token::Then => "then".to_owned(),
            Token::Else => "else".to_owned(),
            Token::Function => "function".to_owned(),
            Token::Read => "read".to_owned(),
            Token::Write => "write".to_owned(),
            Token::Identifier(s) => s.clone(),
            Token::IntegerLiteral(n) => {
                let mut symbol = String::new();
                push_signed_decimal(&mut symbol, *n);
                assert(symbol@ =~= tk@.symbol());
                symbol
            },
            Token::Equal => "=".to_owned(),
            Token::NotEqual => "<>".to_owned(),
            Token::LessEqual => "<=".to_owned(),
            Token::Less => "<".to_owned(),
            Token::GreaterEqual => ">=".to_owned(),
            Token::Greater => ">".to_owned(),
            Token::Minus => "-".to_owned(),
            Token::Multiply => "*".to_owned(),
            Token::Assign => ":=".to_owned(),
            Token::LeftParenthesis => "(".to_owned(),
            Token::RightParenthesis => ")".to_owned(),
            Token::Semicolon => ";".to_owned(),
            Token::Eol => "\\EOL".to_owned(),
            Token::Eof => "\\EOF".to_owned(),
            Token::Illegal(c) => {
                let mut symbol = String::new();
                symbol.push(*c);
                assert(symbol@ =~= tk@.symbol());
                symbol
            },
        }
    }

    /// The number of a token's category in the listing.
    pub fn get_label(&self, tk: &Token) -> (label: i32)
        ensures
            label == tk@.label(),
            0 <= label <= 25,
    {
        match tk {
            Token::Begin => 1,
            Token::End => 2,
            Token::Integer => 3,
            Token::If => 4,
            Token::Then => 5,
            Token::Else => 6,
            Token::Function => 7,
            Token::Read => 8,
            Token::Write => 9,
            Token::Identifier(_) => 10,
            Token::IntegerLiteral(_) => 11,
            Token::Equal => 12,
            Token::NotEqual => 13,
            Token::LessEqual => 14,
            Token::Less => 15,
            Token::GreaterEqual => 16,
            Token::Greater => 17,
            Token::Minus => 18,
            Token::Multiply => 19,
            Token::Assign => 20,
            Token::LeftParenthesis => 21,
            Token::RightParenthesis => 22,
            Token::Semicolon => 23,
            Token::Eol => 24,
            Token::Eof => 25,
            Token::Illegal(_) => 0,
        }
    }

    /// The listing of the tokens produced so far: a line for each token, with
    /// its symbol flush right in sixteen columns and the number of its
    /// category in two digits.
    pub fn dump(&self) -> (listing: String)
        ensures
            listing@ == dump_text(self.tokens()),
    {
        let mut listing = String::new();
        let mut i: usize = 0;
        while i < self.stream.len()
            invariant
                i <= self.stream.len(),
                listing@ == dump_text(self.stream.deep_view().take(i as int)),
            decreases self.stream.len() - i,
        {
            let tk = &self.stream[i];
            let ghost before = listing@;
            let symbol = self.get_symbol(tk);
            push_padded(&mut listing, symbol.as_str(), 16);
            listing.push(' ');
            let label = self.get_label(tk);
            if label < 10 {
                listing.push('0');
            }
            push_decimal(&mut listing, label as u64);
            listing.push('\n');
            proof {
                let toks = self.stream.deep_view();
                reveal_strlit(" ");
                reveal_strlit("0");
                reveal_strlit("\n");
                assert(toks.take(i + 1).drop_last() =~= toks.take(i as int));
                assert(toks.take(i + 1).last() == tk@);
                assert(listing@ =~= before + dump_line(tk@));
            }
            i = i + 1;
        }
        assert(self.stream.deep_view().take(i as int) =~= self.stream.deep_view());
        listing
    }

    /// Where the diagnostics of this run go.
    pub fn get_sink(&self) -> (s: Sink)
        ensures
            s == sink_of(self.mode_text()),
    {
        sink(self.mode)
    }

    /// The name of the file that takes the listing: the program's name with
    /// the extension `dyd`.
    pub fn dump_path(&self) -> (path: String)
        ensures
            path@ == self.name_text() + "."@ + "dyd"@,
    {
        companion_path(self.name, "dyd")
    }

    /// The name of the file that takes the diagnostics: the program's name
    /// with the extension `err`.
    pub fn error_path(&self) -> (path: String)
        ensures
            path@ == self.name_text() + "."@ + "err"@,
    {
        companion_path(self.name, "err")
    }

    /// The line that the console shows for a diagnostic.
    pub fn console_error(&self, d: &Diagnostic) -> (text: String)
        ensures
            text@ == scan_console_line(d@),
    {
        scan_console_entry(d)
    }

    /// The entry of a diagnostic in the error file.
    pub fn file_error(&self, d: &Diagnostic) -> (text: String)
        ensures
            text@ == file_line(d@),
    {
        file_entry(d)
    }
}

} // verus!
