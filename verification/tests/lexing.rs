use pascal_front::chars::{classify_text, Glyph};
use pascal_front::lex::Lexer;
use pascal_front::prep::Preprocessor;
use pascal_front::report::Diagnostic;
use pascal_front::token::{ErrorMessage, Token};

fn lexer_for(text: &str) -> Lexer {
    let p = Preprocessor { path: String::from("test.pas"), content: String::from(text) };
    Lexer::new(p, "test", "console")
}

fn lex(text: &str) -> (Vec<Token>, Vec<Diagnostic>) {
    let mut lexer = lexer_for(text);
    lexer.analyse();
    (lexer.get_stream(), lexer.get_errors())
}

fn name(s: &str) -> Token {
    Token::Identifier(String::from(s))
}

#[test]
fn declaration_block_lexes_to_its_tokens() {
    let (tokens, errors) = lex("begin integer x ; end");
    assert_eq!(
        tokens,
        vec![Token::Begin, Token::Integer, name("x"), Token::Semicolon, Token::End, Token::Eof]
    );
    assert!(errors.is_empty());
}

#[test]
fn line_feeds_become_end_of_line_tokens() {
    let (tokens, errors) = lex("begin\n  integer x ;\nend\n");
    assert_eq!(
        tokens,
        vec![
            Token::Begin,
            Token::Eol,
            Token::Integer,
            name("x"),
            Token::Semicolon,
            Token::Eol,
            Token::End,
            Token::Eol,
            Token::Eof
        ]
    );
    assert!(errors.is_empty());
}

#[test]
fn empty_text_is_just_the_end() {
    let (tokens, errors) = lex("");
    assert_eq!(tokens, vec![Token::Eof]);
    assert!(errors.is_empty());
}

#[test]
fn blanks_alone_are_just_the_end() {
    let (tokens, _) = lex(" \t \r ");
    assert_eq!(tokens, vec![Token::Eof]);
}

#[test]
fn end_of_text_occurs_once_and_last() {
    for text in ["", "\n", "begin end", "x := 1 ;\n", "123abc", ": : :", "#\n#"] {
        let (tokens, _) = lex(text);
        let count = tokens.iter().filter(|t| **t == Token::Eof).count();
        assert_eq!(count, 1);
        assert_eq!(tokens[tokens.len() - 1], Token::Eof);
    }
}

#[test]
fn tokenize_gives_tokens_and_diagnostics() {
    let (tokens, errors) = Lexer::tokenize(String::from("x := 12abc\ny"));
    assert_eq!(tokens, vec![name("x"), Token::Assign, Token::Illegal('\n'), name("y"), Token::Eof]);
    assert_eq!(errors, vec![Diagnostic { line: 1, kind: ErrorMessage::InvalidNumber }]);
}

#[test]
fn single_character_tokens() {
    let (tokens, errors) = lex("; = ( ) - *");
    assert_eq!(
        tokens,
        vec![
            Token::Semicolon,
            Token::Equal,
            Token::LeftParenthesis,
            Token::RightParenthesis,
            Token::Minus,
            Token::Multiply,
            Token::Eof
        ]
    );
    assert!(errors.is_empty());
}

#[test]
fn relational_operators_take_the_longest_match() {
    let (tokens, errors) = lex("a<=b<>c<d>=e>f:=g=h");
    assert_eq!(
        tokens,
        vec![
            name("a"),
            Token::LessEqual,
            name("b"),
            Token::NotEqual,
            name("c"),
            Token::Less,
            name("d"),
            Token::GreaterEqual,
            name("e"),
            Token::Greater,
            name("f"),
            Token::Assign,
            name("g"),
            Token::Equal,
            name("h"),
            Token::Eof
        ]
    );
    assert!(errors.is_empty());
}

#[test]
fn operator_at_the_end_of_the_text() {
    assert_eq!(lex("<").0, vec![Token::Less, Token::Eof]);
    assert_eq!(lex(">").0, vec![Token::Greater, Token::Eof]);
    assert_eq!(lex("<=").0, vec![Token::LessEqual, Token::Eof]);
    assert_eq!(lex(">=").0, vec![Token::GreaterEqual, Token::Eof]);
}

#[test]
fn reserved_words_are_not_names() {
    let (tokens, _) = lex("integer function if then else read write begin end");
    assert_eq!(
        tokens,
        vec![
            Token::Integer,
            Token::Function,
            Token::If,
            Token::Then,
            Token::Else,
            Token::Read,
            Token::Write,
            Token::Begin,
            Token::End,
            Token::Eof
        ]
    );
}

#[test]
fn words_that_only_look_reserved_are_names() {
    let (tokens, _) = lex("Begin ends _if integer1");
    assert_eq!(tokens, vec![name("Begin"), name("ends"), name("_if"), name("integer1"), Token::Eof]);
}

#[test]
fn names_may_hold_letters_of_any_script() {
    let (tokens, errors) = lex("变量 := été_2");
    assert_eq!(tokens, vec![name("变量"), Token::Assign, name("été_2"), Token::Eof]);
    assert!(errors.is_empty());
}

#[test]
fn name_of_sixteen_characters_is_accepted() {
    let (tokens, errors) = lex("abcdefghijklmnop");
    assert_eq!(tokens, vec![name("abcdefghijklmnop"), Token::Eof]);
    assert!(errors.is_empty());
}

#[test]
fn name_of_seventeen_characters_overflows() {
    let (tokens, errors) = lex("abcdefghijklmnopq := 1 ;\nnext");
    assert_eq!(tokens, vec![name("abcdefghijklmnop"), name("next"), Token::Eof]);
    assert_eq!(errors, vec![Diagnostic { line: 1, kind: ErrorMessage::OverflowIdentifier }]);
}

#[test]
fn overflow_at_the_end_of_the_text() {
    let (tokens, errors) = lex("x\nabcdefghijklmnopqrstuvwxyz");
    assert_eq!(tokens, vec![name("x"), Token::Eol, name("abcdefghijklmnop"), Token::Eof]);
    assert_eq!(errors, vec![Diagnostic { line: 2, kind: ErrorMessage::OverflowIdentifier }]);
}

#[test]
fn number_followed_by_letter_is_invalid() {
    let (tokens, errors) = lex("123abc\nx");
    assert_eq!(tokens, vec![Token::Illegal('\n'), name("x"), Token::Eof]);
    assert_eq!(errors, vec![Diagnostic { line: 1, kind: ErrorMessage::InvalidNumber }]);
}

#[test]
fn invalid_number_at_the_end_of_the_text() {
    let (tokens, errors) = lex("123abc");
    assert_eq!(tokens, vec![Token::Illegal('\0'), Token::Eof]);
    assert_eq!(errors, vec![Diagnostic { line: 1, kind: ErrorMessage::InvalidNumber }]);
}

#[test]
fn number_then_separated_name() {
    let (tokens, errors) = lex("123 abc");
    assert_eq!(tokens, vec![Token::IntegerLiteral(123), name("abc"), Token::Eof]);
    assert!(errors.is_empty());
}

#[test]
fn number_at_the_end_of_the_text() {
    let (tokens, errors) = lex("42");
    assert_eq!(tokens, vec![Token::IntegerLiteral(42), Token::Eof]);
    assert!(errors.is_empty());
}

#[test]
fn number_followed_by_underscore_is_a_number_and_a_name() {
    let (tokens, errors) = lex("7_x");
    assert_eq!(tokens, vec![Token::IntegerLiteral(7), name("_x"), Token::Eof]);
    assert!(errors.is_empty());
}

#[test]
fn literal_value_is_decimal() {
    assert_eq!(lex("0").0[0], Token::IntegerLiteral(0));
    assert_eq!(lex("007").0[0], Token::IntegerLiteral(7));
    assert_eq!(lex("1234567890").0[0], Token::IntegerLiteral(1234567890));
    assert_eq!(lex("9223372036854775807").0[0], Token::IntegerLiteral(i64::MAX));
}

#[test]
fn literal_beyond_sixty_four_bits_wraps() {
    assert_eq!(lex("9223372036854775808").0[0], Token::IntegerLiteral(i64::MIN));
    assert_eq!(lex("18446744073709551616").0[0], Token::IntegerLiteral(0));
    assert_eq!(lex("18446744073709551617").0[0], Token::IntegerLiteral(1));
}

#[test]
fn colon_without_equal_sign_fails() {
    let (tokens, errors) = lex("x : 1\ny");
    assert_eq!(tokens, vec![name("x"), Token::Illegal('\n'), name("y"), Token::Eof]);
    assert_eq!(errors, vec![Diagnostic { line: 1, kind: ErrorMessage::FailMatchingSemicolon }]);
}

#[test]
fn colon_at_the_end_of_the_text_fails() {
    let (tokens, errors) = lex(":");
    assert_eq!(tokens, vec![Token::Illegal('\0'), Token::Eof]);
    assert_eq!(errors, vec![Diagnostic { line: 1, kind: ErrorMessage::FailMatchingSemicolon }]);
}

#[test]
fn colon_before_a_line_feed_fails_on_its_own_line() {
    let (tokens, errors) = lex("\n:\nx");
    assert_eq!(tokens, vec![Token::Eol, Token::Illegal('\n'), name("x"), Token::Eof]);
    assert_eq!(errors, vec![Diagnostic { line: 2, kind: ErrorMessage::FailMatchingSemicolon }]);
}

#[test]
fn other_characters_are_illegal_tokens() {
    let (tokens, errors) = lex("x # +");
    assert_eq!(tokens, vec![name("x"), Token::Illegal('#'), Token::Illegal('+'), Token::Eof]);
    assert!(errors.is_empty());
}

#[test]
fn diagnostics_carry_their_lines() {
    let (_, errors) = lex("x\n\n12ab\nabcdefghijklmnopqr\n:\n");
    assert_eq!(
        errors,
        vec![
            Diagnostic { line: 3, kind: ErrorMessage::InvalidNumber },
            Diagnostic { line: 4, kind: ErrorMessage::OverflowIdentifier },
            Diagnostic { line: 5, kind: ErrorMessage::FailMatchingSemicolon },
        ]
    );
}

#[test]
fn one_bad_token_costs_one_line() {
    let (tokens, errors) = lex("1x 2y 3z\nok");
    assert_eq!(tokens, vec![Token::Illegal('\n'), name("ok"), Token::Eof]);
    assert_eq!(errors.len(), 1);
}

#[test]
fn scanning_twice_gives_the_same() {
    let text = "begin\n  integer k ;\n  k := 10 - 3 * (k) ;\n  12ab\nend";
    let mut first = lexer_for(text);
    first.analyse();
    let mut second = lexer_for(text);
    second.analyse();
    assert_eq!(first.get_stream(), second.get_stream());
    assert_eq!(first.get_errors(), second.get_errors());
    assert_eq!(first.dump(), second.dump());
}

#[test]
fn analysing_again_adds_one_end_of_text() {
    let mut lexer = lexer_for("x");
    lexer.analyse();
    lexer.analyse();
    assert_eq!(lexer.get_stream(), vec![name("x"), Token::Eof, Token::Eof]);
}

#[test]
fn listing_has_a_line_for_each_token() {
    let mut lexer = lexer_for("begin x 12\n");
    lexer.analyse();
    assert_eq!(
        lexer.dump(),
        "           begin 01\n               x 10\n              12 11\n            \\EOL 24\n            \\EOF 25\n"
    );
}

#[test]
fn listing_of_operators_and_illegal_characters() {
    let mut lexer = lexer_for("<= <> := #");
    lexer.analyse();
    assert_eq!(
        lexer.dump(),
        "              <= 14\n              <> 13\n              := 20\n               # 00\n            \\EOF 25\n"
    );
}

#[test]
fn listing_does_not_cut_long_symbols() {
    let lexer = lexer_for("");
    let long = Token::IntegerLiteral(i64::MIN);
    assert_eq!(lexer.get_symbol(&long), "-9223372036854775808");
    let mut lexer = lexer_for("9223372036854775808");
    lexer.analyse();
    assert_eq!(lexer.dump(), "-9223372036854775808 11\n            \\EOF 25\n");
}

#[test]
fn symbols_of_tokens() {
    let lexer = lexer_for("");
    assert_eq!(lexer.get_symbol(&Token::Begin), "begin");
    assert_eq!(lexer.get_symbol(&Token::Function), "function");
    assert_eq!(lexer.get_symbol(&name("total")), "total");
    assert_eq!(lexer.get_symbol(&Token::IntegerLiteral(0)), "0");
    assert_eq!(lexer.get_symbol(&Token::IntegerLiteral(-45)), "-45");
    assert_eq!(lexer.get_symbol(&Token::IntegerLiteral(1203)), "1203");
    assert_eq!(lexer.get_symbol(&Token::GreaterEqual), ">=");
    assert_eq!(lexer.get_symbol(&Token::Eol), "\\EOL");
    assert_eq!(lexer.get_symbol(&Token::Eof), "\\EOF");
    assert_eq!(lexer.get_symbol(&Token::Illegal('?')), "?");
}

#[test]
fn labels_of_tokens() {
    let lexer = lexer_for("");
    let expected = [
        (Token::Begin, 1),
        (Token::End, 2),
        (Token::Integer, 3),
        (Token::If, 4),
        (Token::Then, 5),
        (Token::Else, 6),
        (Token::Function, 7),
        (Token::Read, 8),
        (Token::Write, 9),
        (name("x"), 10),
        (Token::IntegerLiteral(5), 11),
        (Token::Equal, 12),
        (Token::NotEqual, 13),
        (Token::LessEqual, 14),
        (Token::Less, 15),
        (Token::GreaterEqual, 16),
        (Token::Greater, 17),
        (Token::Minus, 18),
        (Token::Multiply, 19),
        (Token::Assign, 20),
        (Token::LeftParenthesis, 21),
        (Token::RightParenthesis, 22),
        (Token::Semicolon, 23),
        (Token::Eol, 24),
        (Token::Eof, 25),
        (Token::Illegal('x'), 0),
    ];
    for (token, label) in expected {
        assert_eq!(lexer.get_label(&token), label);
    }
}

#[test]
fn tokens_compare_by_what_they_hold() {
    assert_eq!(name("x"), name("x"));
    assert_ne!(name("x"), name("y"));
    assert_ne!(Token::IntegerLiteral(1), Token::IntegerLiteral(2));
    assert_ne!(Token::Less, Token::LessEqual);
    assert_eq!(name("x").clone(), name("x"));
    assert_eq!(Token::Illegal('a').clone(), Token::Illegal('a'));
}

#[test]
fn paths_of_the_output_files() {
    let lexer = lexer_for("");
    assert_eq!(lexer.dump_path(), "test.dyd");
    assert_eq!(lexer.error_path(), "test.err");
}

#[test]
fn listing_counts_characters_not_bytes() {
    let mut lexer = lexer_for("变量");
    lexer.analyse();
    assert_eq!(lexer.dump(), "              变量 10\n            \\EOF 25\n");
}

#[test]
fn nothing_is_produced_before_the_analysis() {
    let lexer = lexer_for("begin end");
    assert!(lexer.get_stream().is_empty());
    assert!(lexer.get_errors().is_empty());
    assert_eq!(lexer.dump(), "");
}

fn glyph(c: char, white_space: bool, alphabetic: bool, alphanumeric: bool) -> Glyph {
    Glyph { c, white_space, alphabetic, alphanumeric }
}

#[test]
fn characters_classed_by_hand_are_scanned_by_their_classes() {
    let glyphs = vec![
        glyph('x', false, true, true),
        glyph('1', false, false, true),
        glyph(' ', true, false, false),
        glyph('#', false, true, true),
        glyph(';', false, false, false),
        glyph('7', false, false, true),
    ];
    let (tokens, errors) = Lexer::tokenize_glyphs(glyphs);
    assert_eq!(
        tokens,
        vec![name("x1"), name("#"), Token::Semicolon, Token::IntegerLiteral(7), Token::Eof]
    );
    assert!(errors.is_empty());
}

#[test]
fn letter_behind_a_number_is_what_its_class_says() {
    let glyphs = vec![glyph('1', false, false, true), glyph('a', false, false, true)];
    let (tokens, errors) = Lexer::tokenize_glyphs(glyphs);
    assert_eq!(tokens, vec![Token::IntegerLiteral(1), Token::Illegal('a'), Token::Eof]);
    assert!(errors.is_empty());
    let glyphs = vec![glyph('1', false, false, true), glyph('?', false, true, false)];
    let (tokens, errors) = Lexer::tokenize_glyphs(glyphs);
    assert_eq!(tokens, vec![Token::Illegal('\0'), Token::Eof]);
    assert_eq!(errors, vec![Diagnostic { line: 1, kind: ErrorMessage::InvalidNumber }]);
}

#[test]
fn tokenizer_over_classed_characters_agrees_with_the_one_over_text() {
    let text = "begin\n  integer k ;\n  k := 12ab\n  k := k - 1 ;\nend";
    let mut lexer = Lexer::from_glyphs(classify_text(text), "test", "console");
    lexer.analyse();
    let (tokens, errors) = lex(text);
    assert_eq!(lexer.get_stream(), tokens);
    assert_eq!(lexer.get_errors(), errors);
    assert_eq!(Lexer::tokenize(String::from(text)), (tokens, errors));
}
