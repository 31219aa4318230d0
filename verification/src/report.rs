//! Diagnostics: what was found wrong, and on which line.

use vstd::prelude::*;
use vstd::string::StringExecFns;
use crate::text::{decimal, push_decimal, same_text};
use crate::token::ErrorMessage;

verus! {

/// A diagnostic as the contracts speak of it: a kind and the line, counted
/// from one, on which it was raised.
pub ghost struct Report {
    /// The line, counted from one.
    pub line: nat,
    /// What was found wrong.
    pub kind: ErrorMessage,
}

/// A diagnostic: a kind and the line, counted from one, on which it was
/// raised.
#[derive(Clone, Copy, Debug, PartialEq, Eq, Structural)]
pub struct Diagnostic {
    /// The line, counted from one.
    pub line: usize,
    /// What was found wrong.
    pub kind: ErrorMessage,
}

impl View for Diagnostic {
    type V = Report;

    open spec fn view(&self) -> Report {
        Report { line: self.line as nat, kind: self.kind }
    }
}

impl DeepView for Diagnostic {
    type V = Report;

    open spec fn deep_view(&self) -> Report {
        self.view()
    }
}

/// What the error file says of a diagnostic kind.
pub open spec fn file_text(kind: ErrorMessage) -> Seq<char> {
    match kind {
        ErrorMessage::SyntaxError => "unknown token!"@,
        ErrorMessage::WrongReserveYouMeanFunction => "wrong reserve: you mean 'function'?"@,
        ErrorMessage::WrongReserveYouMeanRead => "wrong reserve: you mean 'read'?"@,
        ErrorMessage::WrongReserveYouMeanWrite => "wrong reserve: you mean 'write'?"@,
        ErrorMessage::WrongAssignToken => "wrong assign operator: you mean ':='?"@,
        ErrorMessage::InvalidTypeExpectedInterger => "invalid type: expected INTEGER"@,
        ErrorMessage::InvalidNumber => "Invalid number!"@,
        ErrorMessage::OverflowIdentifier => "Identifier length overflow!"@,
        ErrorMessage::FailMatchingSemicolon => "Semicolon matching failed!"@,
        ErrorMessage::MissingSemicolon => "missing a ';' at the end of the statement"@,
        ErrorMessage::MissingLeftParenthesis => "expected '(' following the function statement"@,
        ErrorMessage::MissingRightParenthesis => "expected ')' to cover the block"@,
        ErrorMessage::MissingIf => "expected 'if' "@,
        ErrorMessage::MissingThen => "expected 'then' "@,
        ErrorMessage::MissingElse => "expected 'else' "@,
        ErrorMessage::MissingMultiply => "expected '*' "@,
        ErrorMessage::SyntaxErrorExpectedABlock => "syntax error, expected a block"@,
        ErrorMessage::FailMatching => "Symbol matching error!"@,
        ErrorMessage::MissingEnd => "missing END: this block is not covered"@,
        ErrorMessage::ExpectedIdentifier => "Expected identifier in this field"@,
        ErrorMessage::FoundRepeatDeclarationInThisField => "this symbol's declaration repeated in this field"@,
    }
}

/// The words of the error file for a diagnostic kind.
pub fn file_words(kind: ErrorMessage) -> (words: &'static str)
    ensures
        words@ == file_text(kind),
{
    match kind {
        ErrorMessage::SyntaxError => "unknown token!",
        ErrorMessage::WrongReserveYouMeanFunction => "wrong reserve: you mean 'function'?",
        ErrorMessage::WrongReserveYouMeanRead => "wrong reserve: you mean 'read'?",
        ErrorMessage::WrongReserveYouMeanWrite => "wrong reserve: you mean 'write'?",
        ErrorMessage::WrongAssignToken => "wrong assign operator: you mean ':='?",
        ErrorMessage::InvalidTypeExpectedInterger => "invalid type: expected INTEGER",
        ErrorMessage::InvalidNumber => "Invalid number!",
        ErrorMessage::OverflowIdentifier => "Identifier length overflow!",
        ErrorMessage::FailMatchingSemicolon => "Semicolon matching failed!",
        ErrorMessage::MissingSemicolon => "missing a ';' at the end of the statement",
        ErrorMessage::MissingLeftParenthesis => "expected '(' following the function statement",
        ErrorMessage::MissingRightParenthesis => "expected ')' to cover the block",
        ErrorMessage::MissingIf => "expected 'if' ",
        ErrorMessage::MissingThen => "expected 'then' ",
        ErrorMessage::MissingElse => "expected 'else' ",
        ErrorMessage::MissingMultiply => "expected '*' ",
        ErrorMessage::SyntaxErrorExpectedABlock => "syntax error, expected a block",
        ErrorMessage::FailMatching => "Symbol matching error!",
        ErrorMessage::MissingEnd => "missing END: this block is not covered",
        ErrorMessage::ExpectedIdentifier => "Expected identifier in this field",
        ErrorMessage::FoundRepeatDeclarationInThisField => "this symbol's declaration repeated in this field",
    }
}

/// What the console says of a diagnostic kind that the tokenizer reports.
pub open spec fn scan_console_text(kind: ErrorMessage) -> Seq<char> {
    match kind {
        ErrorMessage::SyntaxError => "语法错误!"@,
        ErrorMessage::WrongReserveYouMeanFunction => "wrong reserve: you mean 'function'?"@,
        ErrorMessage::WrongReserveYouMeanRead => "wrong reserve: you mean 'read'?"@,
        ErrorMessage::WrongReserveYouMeanWrite => "wrong reserve: you mean 'write'?"@,
        ErrorMessage::WrongAssignToken => "wrong assign operator: you mean ':='?"@,
        ErrorMessage::InvalidTypeExpectedInterger => "非法的类型,expected integer!"@,
        ErrorMessage::InvalidNumber => "非法数字!"@,
        ErrorMessage::OverflowIdentifier => "标识符长度溢出!"@,
        ErrorMessage::FailMatchingSemicolon => "冒号匹配失败!"@,
        ErrorMessage::MissingSemicolon => "句尾缺少分号!"@,
        ErrorMessage::MissingLeftParenthesis => "expected '(' following the function statement"@,
        ErrorMessage::MissingRightParenthesis => "expected ')' to cover the block"@,
        ErrorMessage::MissingIf => "expected 'if' "@,
        ErrorMessage::MissingThen => "expected 'then' "@,
        ErrorMessage::MissingElse => "expected 'else' "@,
        ErrorMessage::MissingMultiply => "expected '*' "@,
        ErrorMessage::SyntaxErrorExpectedABlock => "syntax error, expected a block!"@,
        ErrorMessage::FailMatching => "符号匹配错误!"@,
        ErrorMessage::MissingEnd => "missing END: this block is not covered"@,
        ErrorMessage::ExpectedIdentifier => "expected indentifier"@,
        ErrorMessage::FoundRepeatDeclarationInThisField => "the declaration of this indentifier repeated in this scope"@,
    }
}

/// The words of the console for a diagnostic kind that the tokenizer reports.
pub fn scan_console_words(kind: ErrorMessage) -> (words: &'static str)
    ensures
        words@ == scan_console_text(kind),
{
    match kind {
        ErrorMessage::SyntaxError => "语法错误!",
        ErrorMessage::WrongReserveYouMeanFunction => "wrong reserve: you mean 'function'?",
        ErrorMessage::WrongReserveYouMeanRead => "wrong reserve: you mean 'read'?",
        ErrorMessage::WrongReserveYouMeanWrite => "wrong reserve: you mean 'write'?",
        ErrorMessage::WrongAssignToken => "wrong assign operator: you mean ':='?",
        ErrorMessage::InvalidTypeExpectedInterger => "非法的类型,expected integer!",
        ErrorMessage::InvalidNumber => "非法数字!",
        ErrorMessage::OverflowIdentifier => "标识符长度溢出!",
        ErrorMessage::FailMatchingSemicolon => "冒号匹配失败!",
        ErrorMessage::MissingSemicolon => "句尾缺少分号!",
        ErrorMessage::MissingLeftParenthesis => "expected '(' following the function statement",
        ErrorMessage::MissingRightParenthesis => "expected ')' to cover the block",
        ErrorMessage::MissingIf => "expected 'if' ",
        ErrorMessage::MissingThen => "expected 'then' ",
        ErrorMessage::MissingElse => "expected 'else' ",
        ErrorMessage::MissingMultiply => "expected '*' ",
        ErrorMessage::SyntaxErrorExpectedABlock => "syntax error, expected a block!",
        ErrorMessage::FailMatching => "符号匹配错误!",
        ErrorMessage::MissingEnd => "missing END: this block is not covered",
        ErrorMessage::ExpectedIdentifier => "expected indentifier",
        ErrorMessage::FoundRepeatDeclarationInThisField => "the declaration of this indentifier repeated in this scope",
    }
}

/// What the console says of a diagnostic kind that the parser reports.
pub open spec fn parse_console_text(kind: ErrorMessage) -> Seq<char> {
    match kind {
        ErrorMessage::SyntaxError => "syntax error, exited"@,
        ErrorMessage::WrongReserveYouMeanFunction => "wrong reserve: you mean 'function'?"@,
        ErrorMessage::WrongReserveYouMeanRead => "wrong reserve: you mean 'read'?"@,
        ErrorMessage::WrongReserveYouMeanWrite => "wrong reserve: you mean 'write'?"@,
        ErrorMessage::WrongAssignToken => "wrong assign operator: you mean ':='?"@,
        ErrorMessage::InvalidTypeExpectedInterger => "invalid type here, expected integer"@,
        ErrorMessage::InvalidNumber => "invalid number"@,
        ErrorMessage::OverflowIdentifier => "the length of identifier overflows"@,
        ErrorMessage::FailMatchingSemicolon => "fail in matching semicolon"@,
        ErrorMessage::MissingSemicolon => "missing a ';' at the end of the statement"@,
        ErrorMessage::MissingLeftParenthesis => "missing a '(' following the function statement"@,
        ErrorMessage::MissingRightParenthesis => "missing a ')' to cover the block"@,
        ErrorMessage::MissingIf => "expected 'if' "@,
        ErrorMessage::MissingThen => "expected 'then' "@,
        ErrorMessage::MissingElse => "expected 'else' "@,
        ErrorMessage::MissingMultiply => "expected '*' "@,
        ErrorMessage::SyntaxErrorExpectedABlock => "syntax error, expected a block"@,
        ErrorMessage::FailMatching => "符号匹配错误!"@,
        ErrorMessage::MissingEnd => "missing END: this block is not covered"@,
        ErrorMessage::ExpectedIdentifier => "expected indentifier"@,
        ErrorMessage::FoundRepeatDeclarationInThisField => "the declaration of this indentifier repeated in this scope"@,
    }
}

/// The words of the console for a diagnostic kind that the parser reports.
pub fn parse_console_words(kind: ErrorMessage) -> (words: &'static str)
    ensures
        words@ == parse_console_text(kind),
{
    match kind {
        ErrorMessage::SyntaxError => "syntax error, exited",
        ErrorMessage::WrongReserveYouMeanFunction => "wrong reserve: you mean 'function'?",
        ErrorMessage::WrongReserveYouMeanRead => "wrong reserve: you mean 'read'?",
        ErrorMessage::WrongReserveYouMeanWrite => "wrong reserve: you mean 'write'?",
        ErrorMessage::WrongAssignToken => "wrong assign operator: you mean ':='?",
        ErrorMessage::InvalidTypeExpectedInterger => "invalid type here, expected integer",
        ErrorMessage::InvalidNumber => "invalid number",
        ErrorMessage::OverflowIdentifier => "the length of identifier overflows",
        ErrorMessage::FailMatchingSemicolon => "fail in matching semicolon",
        ErrorMessage::MissingSemicolon => "missing a ';' at the end of the statement",
        ErrorMessage::MissingLeftParenthesis => "missing a '(' following the function statement",
        ErrorMessage::MissingRightParenthesis => "missing a ')' to cover the block",
        ErrorMessage::MissingIf => "expected 'if' ",
        ErrorMessage::MissingThen => "expected 'then' ",
        ErrorMessage::MissingElse => "expected 'else' ",
        ErrorMessage::MissingMultiply => "expected '*' ",
        ErrorMessage::SyntaxErrorExpectedABlock => "syntax error, expected a block",
        ErrorMessage::FailMatching => "符号匹配错误!",
        ErrorMessage::MissingEnd => "missing END: this block is not covered",
        ErrorMessage::ExpectedIdentifier => "expected indentifier",
        ErrorMessage::FoundRepeatDeclarationInThisField => "the declaration of this indentifier repeated in this scope",
    }
}

/// The line of a diagnostic without its end: `LINE`, the line number, a
/// colon and a blank, and the words.
pub open spec fn headed(line: nat, words: Seq<char>) -> Seq<char> {
    "LINE"@ + decimal(line) + ": "@ + words
}

/// The entry of a diagnostic in the error file: its line, ended by a line
/// feed.
pub open spec fn file_line(d: Report) -> Seq<char> {
    headed(d.line, file_text(d.kind)) + "\n"@
}

/// The line that the console shows for a diagnostic of the tokenizer.
pub open spec fn scan_console_line(d: Report) -> Seq<char> {
    headed(d.line, scan_console_text(d.kind))
}

/// The lines that the console shows for a diagnostic of the parser: the
/// diagnostic, and a rule of dashes under it.
pub open spec fn parse_console_line(d: Report) -> Seq<char> {
    headed(d.line, parse_console_text(d.kind)) + "\n-------------------------"@
}

/// Writes the line of a diagnostic without its end.
fn head(line: usize, words: &str) -> (text: String)
    ensures
        text@ == headed(line as nat, words@),
{
    let mut text = String::new();
    text.append("LINE");
    push_decimal(&mut text, line as u64);
    text.append(": ");
    text.append(words);
    assert(text@ =~= headed(line as nat, words@));
    text
}

/// The entry of a diagnostic in the error file.
pub fn file_entry(d: &Diagnostic) -> (text: String)
    ensures
        text@ == file_line(d@),
{
    let mut text = head(d.line, file_words(d.kind));
    text.append("\n");
    text
}

/// The line that the console shows for a diagnostic of the tokenizer.
pub fn scan_console_entry(d: &Diagnostic) -> (text: String)
    ensures
        text@ == scan_console_line(d@),
{
    head(d.line, scan_console_words(d.kind))
}

/// The lines that the console shows for a diagnostic of the parser.
pub fn parse_console_entry(d: &Diagnostic) -> (text: String)
    ensures
        text@ == parse_console_line(d@),
{
    let mut text = head(d.line, parse_console_words(d.kind));
    text.append("\n-------------------------");
    text
}

/// Where diagnostics go, as the mode of a run names it.
#[derive(Clone, Copy, Debug, PartialEq, Eq, Structural)]
pub enum Sink {
    /// The mode `console`: diagnostics are shown and not kept.
    Console,
    /// The mode `file`: diagnostics go to the error file.
    File,
    /// Any other mode: diagnostics cannot be delivered.
    Invalid,
}

/// The sink that a mode names.
pub open spec fn sink_of(mode: Seq<char>) -> Sink {
    if mode == "console"@ {
        Sink::Console
    } else if mode == "file"@ {
        Sink::File
    } else {
        Sink::Invalid
    }
}

/// The sink that a mode names.
pub fn sink(mode: &str) -> (s: Sink)
    ensures
        s == sink_of(mode@),
{
    if same_text(mode, "console") {
        Sink::Console
    } else if same_text(mode, "file") {
        Sink::File
    } else {
        Sink::Invalid
    }
}

/// The name of a file that belongs to the program `name`: the name, a dot,
/// and the extension.
pub fn companion_path(name: &str, extension: &str) -> (path: String)
    ensures
        path@ == name@ + "."@ + extension@,
{
    let mut path = String::new();
    path.append(name);
    path.append(".");
    path.append(extension);
    assert(path@ =~= name@ + "."@ + extension@);
    path
}

} // verus!
