//! Tokens, their mathematical model, and the diagnostic kinds.

use vstd::prelude::*;
use crate::text::signed_decimal;

verus! {

/// The longest name the tokenizer accepts, counted in characters.
pub const MAX_IDENTIFIER_LENGTH: usize = 16;

/// One lexical unit of the source text.
#[derive(Debug)]
pub enum Token {
    /// A name.
    Identifier(String),
    /// A number.
    IntegerLiteral(i64),
    /// `-`
    Minus,
    /// `*`
    Multiply,
    /// `:=`
    Assign,
    /// `=`
    Equal,
    /// `<>`
    NotEqual,
    /// `<`
    Less,
    /// `<=`
    LessEqual,
    /// `>`
    Greater,
    /// `>=`
    GreaterEqual,
    /// `begin`
    Begin,
    /// `end`
    End,
    /// `(`
    LeftParenthesis,
    /// `)`
    RightParenthesis,
    /// `;`
    Semicolon,
    /// The end of a line.
    Eol,
    /// The end of the text.
    Eof,
    /// `integer`
    Integer,
    /// `function`
    Function,
    /// `if`
    If,
    /// `then`
    Then,
    /// `else`
    Else,
    /// `read`
    Read,
    /// `write`
    Write,
    /// A character that begins no token; behind a malformed token, the character
    /// that ended its line.
    Illegal(char),
}

/// What a [`Token`] stands for: the same categories, with a name held as
/// its sequence of characters.
pub ghost enum Lexeme {
    /// A name.
    Identifier(Seq<char>),
    /// A number.
    IntegerLiteral(i64),
    /// `-`
    Minus,
    /// `*`
    Multiply,
    /// `:=`
    Assign,
    /// `=`
    Equal,
    /// `<>`
    NotEqual,
    /// `<`
    Less,
    /// `<=`
    LessEqual,
    /// `>`
    Greater,
    /// `>=`
    GreaterEqual,
    /// `begin`
    Begin,
    /// `end`
    End,
    /// `(`
    LeftParenthesis,
    /// `)`
    RightParenthesis,
    /// `;`
    Semicolon,
    /// The end of a line.
    Eol,
    /// The end of the text.
    Eof,
    /// `integer`
    Integer,
    /// `function`
    Function,
    /// `if`
    If,
    /// `then`
    Then,
    /// `else`
    Else,
    /// `read`
    Read,
    /// `write`
    Write,
    /// A character that begins no token; behind a malformed token, the character
    /// that ended its line.
    Illegal(char),
}

impl Lexeme {
    /// The text that stands for the token in a listing: its spelling, its
    /// name, its value, or a mark for the end of a line and of the text.
    pub open spec fn symbol(self) -> Seq<char> {
        match self {
            Lexeme::Begin => "begin"@,
            Lexeme::End => "end"@,
            Lexeme::Integer => "integer"@,
            Lexeme::If => "if"@,
            Lexeme::Then => "then"@,
            Lexeme::Else => "else"@,
            Lexeme::Function => "function"@,
            Lexeme::Read => "read"@,
            Lexeme::Write => "write"@,
            Lexeme::Identifier(name) => name,
            Lexeme::IntegerLiteral(n) => signed_decimal(n as int),
            Lexeme::Equal => "="@,
            Lexeme::NotEqual => "<>"@,
            Lexeme::LessEqual => "<="@,
            Lexeme::Less => "<"@,
            Lexeme::GreaterEqual => ">="@,
            Lexeme::Greater => ">"@,
            Lexeme::Minus => "-"@,
            Lexeme::Multiply => "*"@,
            Lexeme::Assign => ":="@,
            Lexeme::LeftParenthesis => "("@,
            Lexeme::RightParenthesis => ")"@,
            Lexeme::Semicolon => ";"@,
            Lexeme::Eol => "\\EOL"@,
            Lexeme::Eof => "\\EOF"@,
            Lexeme::Illegal(c) => seq![c],
        }
    }

    /// The number of the token's category in a listing, from 1 to 25; an
    /// illegal character has the number 0.
    pub open spec fn label(self) -> int {
        match self {
            Lexeme::Begin => 1,
            Lexeme::End => 2,
            Lexeme::Integer => 3,
            Lexeme::If => 4,
            Lexeme::Then => 5,
            Lexeme::Else => 6,
            Lexeme::Function => 7,
            Lexeme::Read => 8,
            Lexeme::Write => 9,
            Lexeme::Identifier(_) => 10,
            Lexeme::IntegerLiteral(_) => 11,
            Lexeme::Equal => 12,
            Lexeme::NotEqual => 13,
            Lexeme::LessEqual => 14,
            Lexeme::Less => 15,
            Lexeme::GreaterEqual => 16,
            Lexeme::Greater => 17,
            Lexeme::Minus => 18,
            Lexeme::Multiply => 19,
            Lexeme::Assign => 20,
            Lexeme::LeftParenthesis => 21,
            Lexeme::RightParenthesis => 22,
            Lexeme::Semicolon => 23,
            Lexeme::Eol => 24,
            Lexeme::Eof => 25,
            Lexeme::Illegal(_) => 0,
        }
    }
}

impl View for Token {
    type V = Lexeme;

    open spec fn view(&self) -> Lexeme {
        match *self {
            Token::Identifier(s) => Lexeme::Identifier(s@),
            Token::IntegerLiteral(n) => Lexeme::IntegerLiteral(n),
            Token::Minus => Lexeme::Minus,
            Token::Multiply => Lexeme::Multiply,
            Token::Assign => Lexeme::Assign,
            Token::Equal => Lexeme::Equal,
            Token::NotEqual => Lexeme::NotEqual,
            Token::Less => Lexeme::Less,
            Token::LessEqual => Lexeme::LessEqual,
            Token::Greater => Lexeme::Greater,
            Token::GreaterEqual => Lexeme::GreaterEqual,
            Token::Begin => Lexeme::Begin,
            Token::End => Lexeme::End,
            Token::LeftParenthesis => Lexeme::LeftParenthesis,
            Token::RightParenthesis => Lexeme::RightParenthesis,
            Token::Semicolon => Lexeme::Semicolon,
            Token::Eol => Lexeme::Eol,
            Token::Eof => Lexeme::Eof,
            Token::Integer => Lexeme::Integer,
            Token::Function => Lexeme::Function,
            Token::If => Lexeme::If,
            Token::Then => Lexeme::Then,
            Token::Else => Lexeme::Else,
            Token::Read => Lexeme::Read,
            Token::Write => Lexeme::Write,
            Token::Illegal(c) => Lexeme::Illegal(c),
        }
    }
}

impl DeepView for Token {
    type V = Lexeme;

    open spec fn deep_view(&self) -> Lexeme {
        self.view()
    }
}

impl Clone for Token {
    fn clone(&self) -> (res: Self)
        ensures
            res@ == self@,
    {
        match self {
            Token::Identifier(s) => Token::Identifier(s.clone()),
            Token::IntegerLiteral(n) => Token::IntegerLiteral(*n),
            Token::Minus => Token::Minus,
            Token::Multiply => Token::Multiply,
            Token::Assign => Token::Assign,
            Token::Equal => Token::Equal,
            Token::NotEqual => Token::NotEqual,
            Token::Less => Token::Less,
            Token::LessEqual => Token::LessEqual,
            Token::Greater => Token::Greater,
            Token::GreaterEqual => Token::GreaterEqual,
            Token::Begin => Token::Begin,
            Token::End => Token::End,
            Token::LeftParenthesis => Token::LeftParenthesis,
            Token::RightParenthesis => Token::RightParenthesis,
            Token::Semicolon => Token::Semicolon,
            Token::Eol => Token::Eol,
            Token::Eof => Token::Eof,
            Token::Integer => Token::Integer,
            Token::Function => Token::Function,
            Token::If => Token::If,
            Token::Then => Token::Then,
            Token::Else => Token::Else,
            Token::Read => Token::Read,
            Token::Write => Token::Write,
            Token::Illegal(c) => Token::Illegal(*c),
        }
    }
}

impl PartialEq for Token {
    fn eq(&self, other: &Token) -> (res: bool) {
        match (self, other) {
            (Token::Identifier(a), Token::Identifier(b)) => *a == *b,
            (Token::IntegerLiteral(a), Token::IntegerLiteral(b)) => *a == *b,
            (Token::Minus, Token::Minus) => true,
            (Token::Multiply, Token::Multiply) => true,
            (Token::Assign, Token::Assign) => true,
            (Token::Equal, Token::Equal) => true,
            (Token::NotEqual, Token::NotEqual) => true,
            (Token::Less, Token::Less) => true,
            (Token::LessEqual, Token::LessEqual) => true,
            (Token::Greater, Token::Greater) => true,
            (Token::GreaterEqual, Token::GreaterEqual) => true,
            (Token::Begin, Token::Begin) => true,
            (Token::End, Token::End) => true,
            (Token::LeftParenthesis, Token::LeftParenthesis) => true,
            (Token::RightParenthesis, Token::RightParenthesis) => true,
            (Token::Semicolon, Token::Semicolon) => true,
            (Token::Eol, Token::Eol) => true,
            (Token::Eof, Token::Eof) => true,
            (Token::Integer, Token::Integer) => true,
            (Token::Function, Token::Function) => true,
            (Token::If, Token::If) => true,
            (Token::Then, Token::Then) => true,
            (Token::Else, Token::Else) => true,
            (Token::Read, Token::Read) => true,
            (Token::Write, Token::Write) => true,
            (Token::Illegal(a), Token::Illegal(b)) => *a == *b,
            _ => false,
        }
    }
}

impl vstd::std_specs::cmp::PartialEqSpecImpl for Token {
    open spec fn obeys_eq_spec() -> bool {
        true
    }

    open spec fn eq_spec(&self, other: &Token) -> bool {
        self@ == other@
    }
}

/// The kinds of diagnostic that scanning and parsing report.
#[derive(Clone, Copy, Debug, PartialEq, Eq, Structural)]
pub enum ErrorMessage {
    /// A token that no rule has a place for.
    SyntaxError,
    /// `function` was wanted.
    WrongReserveYouMeanFunction,
    /// `read` was wanted.
    WrongReserveYouMeanRead,
    /// `write` was wanted.
    WrongReserveYouMeanWrite,
    /// `:=` was wanted.
    WrongAssignToken,
    /// A declaration that does not begin with `integer`.
    InvalidTypeExpectedInterger,
    /// A number with a letter right behind its digits.
    InvalidNumber,
    /// A name of more than sixteen characters.
    OverflowIdentifier,
    /// A colon that no equal sign follows.
    FailMatchingSemicolon,
    /// `;` was wanted.
    MissingSemicolon,
    /// `(` was wanted.
    MissingLeftParenthesis,
    /// `)` was wanted.
    MissingRightParenthesis,
    /// `if` was wanted.
    MissingIf,
    /// `then` was wanted.
    MissingThen,
    /// `else` was wanted.
    MissingElse,
    /// `*` was wanted.
    MissingMultiply,
    /// `begin` was wanted.
    SyntaxErrorExpectedABlock,
    /// A symbol that does not match.
    FailMatching,
    /// `end` was wanted.
    MissingEnd,
    /// A name was wanted.
    ExpectedIdentifier,
    /// A name that its scope declares already.
    FoundRepeatDeclarationInThisField,
}

} // verus!
