use pascal_front::lex::Lexer;
use pascal_front::parse::Parser;
use pascal_front::prep::Preprocessor;
use pascal_front::report::{
    companion_path, file_entry, file_words, parse_console_entry, parse_console_words,
    scan_console_entry, scan_console_words, sink, Diagnostic, Sink,
};
use pascal_front::text::{digit, push_decimal, push_padded, push_signed_decimal, same_text};
use pascal_front::token::ErrorMessage;

fn all_kinds() -> Vec<ErrorMessage> {
    vec![
        ErrorMessage::SyntaxError,
        ErrorMessage::WrongReserveYouMeanFunction,
        ErrorMessage::WrongReserveYouMeanRead,
        ErrorMessage::WrongReserveYouMeanWrite,
        ErrorMessage::WrongAssignToken,
        ErrorMessage::InvalidTypeExpectedInterger,
        ErrorMessage::InvalidNumber,
        ErrorMessage::OverflowIdentifier,
        ErrorMessage::FailMatchingSemicolon,
        ErrorMessage::MissingSemicolon,
        ErrorMessage::MissingLeftParenthesis,
        ErrorMessage::MissingRightParenthesis,
        ErrorMessage::MissingIf,
        ErrorMessage::MissingThen,
        ErrorMessage::MissingElse,
        ErrorMessage::MissingMultiply,
        ErrorMessage::SyntaxErrorExpectedABlock,
        ErrorMessage::FailMatching,
        ErrorMessage::MissingEnd,
        ErrorMessage::ExpectedIdentifier,
        ErrorMessage::FoundRepeatDeclarationInThisField,
    ]
}

#[test]
fn file_entry_has_line_words_and_line_feed() {
    let d = Diagnostic { line: 3, kind: ErrorMessage::FoundRepeatDeclarationInThisField };
    assert_eq!(file_entry(&d), "LINE3: this symbol's declaration repeated in this field\n");
    let d = Diagnostic { line: 120, kind: ErrorMessage::MissingEnd };
    assert_eq!(file_entry(&d), "LINE120: missing END: this block is not covered\n");
    let d = Diagnostic { line: 1, kind: ErrorMessage::MissingIf };
    assert_eq!(file_entry(&d), "LINE1: expected 'if' \n");
}

#[test]
fn words_of_the_error_file() {
    let expected = [
        "unknown token!",
        "wrong reserve: you mean 'function'?",
        "wrong reserve: you mean 'read'?",
        "wrong reserve: you mean 'write'?",
        "wrong assign operator: you mean ':='?",
        "invalid type: expected INTEGER",
        "Invalid number!",
        "Identifier length overflow!",
        "Semicolon matching failed!",
        "missing a ';' at the end of the statement",
        "expected '(' following the function statement",
        "expected ')' to cover the block",
        "expected 'if' ",
        "expected 'then' ",
        "expected 'else' ",
        "expected '*' ",
        "syntax error, expected a block",
        "Symbol matching error!",
        "missing END: this block is not covered",
        "Expected identifier in this field",
        "this symbol's declaration repeated in this field",
    ];
    for (kind, words) in all_kinds().into_iter().zip(expected) {
        assert_eq!(file_words(kind), words);
    }
}

#[test]
fn words_of_the_console_for_the_tokenizer() {
    let expected = [
        "语法错误!",
        "wrong reserve: you mean 'function'?",
        "wrong reserve: you mean 'read'?",
        "wrong reserve: you mean 'write'?",
        "wrong assign operator: you mean ':='?",
        "非法的类型,expected integer!",
        "非法数字!",
        "标识符长度溢出!",
        "冒号匹配失败!",
        "句尾缺少分号!",
        "expected '(' following the function statement",
        "expected ')' to cover the block",
        "expected 'if' ",
        "expected 'then' ",
        "expected 'else' ",
        "expected '*' ",
        "syntax error, expected a block!",
        "符号匹配错误!",
        "missing END: this block is not covered",
        "expected indentifier",
        "the declaration of this indentifier repeated in this scope",
    ];
    for (kind, words) in all_kinds().into_iter().zip(expected) {
        assert_eq!(scan_console_words(kind), words);
    }
}

#[test]
fn words_of_the_console_for_the_parser() {
    let expected = [
        "syntax error, exited",
        "wrong reserve: you mean 'function'?",
        "wrong reserve: you mean 'read'?",
        "wrong reserve: you mean 'write'?",
        "wrong assign operator: you mean ':='?",
        "invalid type here, expected integer",
        "invalid number",
        "the length of identifier overflows",
        "fail in matching semicolon",
        "missing a ';' at the end of the statement",
        "missing a '(' following the function statement",
        "missing a ')' to cover the block",
        "expected 'if' ",
        "expected 'then' ",
        "expected 'else' ",
        "expected '*' ",
        "syntax error, expected a block",
        "符号匹配错误!",
        "missing END: this block is not covered",
        "expected indentifier",
        "the declaration of this indentifier repeated in this scope",
    ];
    for (kind, words) in all_kinds().into_iter().zip(expected) {
        assert_eq!(parse_console_words(kind), words);
    }
}

#[test]
fn console_lines() {
    let d = Diagnostic { line: 7, kind: ErrorMessage::OverflowIdentifier };
    assert_eq!(scan_console_entry(&d), "LINE7: 标识符长度溢出!");
    assert_eq!(
        parse_console_entry(&d),
        "LINE7: the length of identifier overflows\n-------------------------"
    );
}

#[test]
fn tokenizer_and_parser_render_their_diagnostics() {
    let p = Preprocessor { path: String::from("a.pas"), content: String::new() };
    let lexer = Lexer::new(p, "a", "file");
    let parser = Parser::new(Vec::new(), "console", String::from("b"));
    let d = Diagnostic { line: 2, kind: ErrorMessage::InvalidNumber };
    assert_eq!(lexer.console_error(&d), "LINE2: 非法数字!");
    assert_eq!(lexer.file_error(&d), "LINE2: Invalid number!\n");
    assert_eq!(parser.console_error(&d), "LINE2: invalid number\n-------------------------");
    assert_eq!(parser.file_error(&d), "LINE2: Invalid number!\n");
    assert_eq!(lexer.get_sink(), Sink::File);
    assert_eq!(parser.get_sink(), Sink::Console);
    assert_eq!(parser.error_path(), "b.err");
}

#[test]
fn modes_name_their_sinks() {
    assert_eq!(sink("console"), Sink::Console);
    assert_eq!(sink("file"), Sink::File);
    assert_eq!(sink(""), Sink::Invalid);
    assert_eq!(sink("File"), Sink::Invalid);
    assert_eq!(sink("consoles"), Sink::Invalid);
}

#[test]
fn companion_paths() {
    assert_eq!(companion_path("test/6", "dyd"), "test/6.dyd");
    assert_eq!(companion_path("", "err"), ".err");
}

#[test]
fn decimal_writing() {
    let mut s = String::from("n=");
    push_decimal(&mut s, 0);
    assert_eq!(s, "n=0");
    let mut s = String::new();
    push_decimal(&mut s, 9);
    push_decimal(&mut s, 10);
    push_decimal(&mut s, 1234567890);
    assert_eq!(s, "9101234567890");
    let mut s = String::new();
    push_decimal(&mut s, u64::MAX);
    assert_eq!(s, "18446744073709551615");
    let mut s = String::new();
    push_signed_decimal(&mut s, -1);
    push_signed_decimal(&mut s, 0);
    push_signed_decimal(&mut s, 25);
    assert_eq!(s, "-1025");
    let mut s = String::new();
    push_signed_decimal(&mut s, i64::MIN);
    assert_eq!(s, "-9223372036854775808");
    let mut s = String::new();
    push_signed_decimal(&mut s, i64::MAX);
    assert_eq!(s, "9223372036854775807");
    assert_eq!(digit(0), '0');
    assert_eq!(digit(5), '5');
    assert_eq!(digit(9), '9');
}

#[test]
fn padding_counts_characters() {
    let mut s = String::new();
    push_padded(&mut s, "ab", 5);
    assert_eq!(s, "   ab");
    let mut s = String::from(">");
    push_padded(&mut s, "abcdef", 3);
    assert_eq!(s, ">abcdef");
    let mut s = String::new();
    push_padded(&mut s, "变量", 4);
    assert_eq!(s, "  变量");
    let mut s = String::new();
    push_padded(&mut s, "", 2);
    assert_eq!(s, "  ");
}

#[test]
fn texts_compare_by_their_characters() {
    assert!(same_text("begin", "begin"));
    assert!(!same_text("begin", "begi"));
    assert!(!same_text("begin", "begin "));
    assert!(!same_text("abc", "abd"));
    assert!(same_text("", ""));
    assert!(same_text("变量", "变量"));
}
