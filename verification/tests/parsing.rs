use pascal_front::env::Env;
use pascal_front::lex::Lexer;
use pascal_front::parse::Parser;
use pascal_front::report::Diagnostic;
use pascal_front::token::{ErrorMessage, Token};

fn parse(text: &str) -> (Result<(), ErrorMessage>, Env, Parser) {
    let (tokens, _) = Lexer::tokenize(String::from(text));
    let mut parser = Parser::new(tokens, "console", String::from("test"));
    let mut env = Env::new();
    let r = parser.analyse(&mut env);
    (r, env, parser)
}

fn outcome(text: &str) -> Result<(), ErrorMessage> {
    parse(text).0
}

#[test]
fn declaration_block_parses_and_closes_its_scope() {
    let (r, env, parser) = parse("begin integer x ; end");
    assert_eq!(r, Ok(()));
    assert_eq!(env.stack.len(), 0);
    assert!(parser.get_errors().is_empty());
}

#[test]
fn empty_block_parses() {
    assert_eq!(outcome("begin end"), Ok(()));
}

#[test]
fn program_over_several_lines_parses() {
    let text = "begin\n  integer k ;\n  integer function f ( k ) ;\n  begin\n    integer m ;\n    if k <= 0 then f := 1 else f := k * f ( k - 1 ) ;\n  end ;\n  read ( k ) ;\n  k := f ( k ) ;\n  write ( k ) ;\nend\n";
    let (r, env, parser) = parse(text);
    assert_eq!(r, Ok(()));
    assert_eq!(env.stack.len(), 0);
    assert!(parser.get_errors().is_empty());
    assert_eq!(parser.line, 12);
    assert_eq!(parser.pos, parser.stream.len() - 1);
}

#[test]
fn leading_line_feeds_are_passed_over() {
    let (r, _, parser) = parse("\n\nbegin end");
    assert_eq!(r, Ok(()));
    assert_eq!(parser.line, 3);
}

#[test]
fn use_of_an_undeclared_name_is_accepted() {
    assert_eq!(outcome("begin x := y - 1 ; end"), Ok(()));
}

#[test]
fn repeated_declaration_fails_on_its_line() {
    let (r, _, parser) = parse("begin\ninteger x ;\ninteger x ;\nend");
    assert_eq!(r, Err(ErrorMessage::FoundRepeatDeclarationInThisField));
    let kind = ErrorMessage::FoundRepeatDeclarationInThisField;
    assert_eq!(
        parser.get_errors(),
        vec![
            Diagnostic { line: 3, kind },
            Diagnostic { line: 4, kind },
            Diagnostic { line: 4, kind },
        ]
    );
}

#[test]
fn repeated_declaration_on_one_line_fails() {
    let (r, _, parser) = parse("begin integer x ; integer x ; end");
    assert_eq!(r, Err(ErrorMessage::FoundRepeatDeclarationInThisField));
    assert_eq!(parser.get_errors()[0].line, 1);
}

#[test]
fn function_may_not_take_the_name_of_a_variable_of_its_scope() {
    assert_eq!(
        outcome("begin integer x ; integer function x ( 1 ) ; begin end ; end"),
        Err(ErrorMessage::FoundRepeatDeclarationInThisField)
    );
}

#[test]
fn missing_end_is_reported() {
    let (r, env, _) = parse("begin integer x ; read(x) ; write(x) ;");
    assert_eq!(r, Err(ErrorMessage::MissingEnd));
    assert_eq!(env.stack.len(), 1);
}

#[test]
fn inner_declaration_shadows_outer_one() {
    let (r, env, _) = parse(
        "begin\n  integer x ;\n  integer function f ( x ) ;\n  begin\n    integer x ;\n    x := 1 ;\n  end ;\n  x := 2 ;\nend\n",
    );
    assert_eq!(r, Ok(()));
    assert_eq!(env.stack.len(), 0);
}

#[test]
fn function_body_may_declare_the_name_of_its_function() {
    assert_eq!(outcome("begin integer function f ( 1 ) ; begin integer f ; end ; end"), Ok(()));
}

#[test]
fn failure_leaves_the_scopes_of_the_failure_open() {
    let (r, env, _) = parse("begin integer function f ( 1 ) ; begin integer x ; integer x ; end ; end");
    assert_eq!(r, Err(ErrorMessage::FoundRepeatDeclarationInThisField));
    assert_eq!(env.stack.len(), 2);
    assert_eq!(env.stack[0].level, 0);
    assert_eq!(env.stack[1].level, 1);
    assert!(env.find_symbol(String::from("f")));
    assert!(env.check_repeat(String::from("x")));
    assert!(!env.check_repeat(String::from("f")));
}

#[test]
fn text_without_a_block_fails() {
    let (r, env, parser) = parse("");
    assert_eq!(r, Err(ErrorMessage::SyntaxErrorExpectedABlock));
    assert_eq!(env.stack.len(), 0);
    assert_eq!(
        parser.get_errors(),
        vec![Diagnostic { line: 1, kind: ErrorMessage::SyntaxErrorExpectedABlock }]
    );
    assert_eq!(outcome("integer x ;"), Err(ErrorMessage::SyntaxErrorExpectedABlock));
}

#[test]
fn function_without_a_body_fails() {
    assert_eq!(
        outcome("begin integer function f ( 1 ) ; x := 1 ; end"),
        Err(ErrorMessage::SyntaxErrorExpectedABlock)
    );
}

#[test]
fn stray_token_is_a_syntax_error() {
    assert_eq!(outcome("begin ; end"), Err(ErrorMessage::SyntaxError));
    assert_eq!(outcome("begin x := 1 ; ) end"), Err(ErrorMessage::SyntaxError));
    assert_eq!(outcome("begin x := ; end"), Err(ErrorMessage::SyntaxError));
    assert_eq!(outcome("begin if x 1 then x := 1 else x := 2 ; end"), Err(ErrorMessage::SyntaxError));
    assert_eq!(outcome("begin if x < 1 then 5 else x := 2 ; end"), Err(ErrorMessage::SyntaxError));
}

#[test]
fn illegal_character_is_a_syntax_error_where_it_is_met() {
    assert_eq!(outcome("begin x := # ; end"), Err(ErrorMessage::SyntaxError));
}

#[test]
fn assignment_wants_its_operator() {
    assert_eq!(outcome("begin x 1 ; end"), Err(ErrorMessage::WrongAssignToken));
    assert_eq!(outcome("begin x = 1 ; end"), Err(ErrorMessage::WrongAssignToken));
}

#[test]
fn statements_and_declarations_want_their_semicolon() {
    assert_eq!(outcome("begin integer x end"), Err(ErrorMessage::MissingSemicolon));
    assert_eq!(outcome("begin x := 1 end"), Err(ErrorMessage::MissingSemicolon));
    assert_eq!(
        outcome("begin integer function f ( 1 ) begin end ; end"),
        Err(ErrorMessage::MissingSemicolon)
    );
}

#[test]
fn parentheses_are_wanted() {
    assert_eq!(outcome("begin read x ; end"), Err(ErrorMessage::MissingLeftParenthesis));
    assert_eq!(outcome("begin write x ; end"), Err(ErrorMessage::MissingLeftParenthesis));
    assert_eq!(
        outcome("begin integer function f 1 ) ; begin end ; end"),
        Err(ErrorMessage::MissingLeftParenthesis)
    );
    assert_eq!(outcome("begin read ( x ; end"), Err(ErrorMessage::MissingRightParenthesis));
    assert_eq!(outcome("begin write ( x ; end"), Err(ErrorMessage::MissingRightParenthesis));
    assert_eq!(outcome("begin x := ( 1 - 2 ; end"), Err(ErrorMessage::MissingRightParenthesis));
    assert_eq!(outcome("begin x := f ( 1 ; end"), Err(ErrorMessage::MissingRightParenthesis));
}

#[test]
fn names_are_wanted() {
    assert_eq!(outcome("begin integer 5 ; end"), Err(ErrorMessage::ExpectedIdentifier));
    assert_eq!(outcome("begin integer function ( 1 ) ; begin end ; end"), Err(ErrorMessage::ExpectedIdentifier));
    assert_eq!(outcome("begin read ( 1 ) ; end"), Err(ErrorMessage::ExpectedIdentifier));
    assert_eq!(outcome("begin write ( ) ; end"), Err(ErrorMessage::ExpectedIdentifier));
}

#[test]
fn conditional_wants_then_and_else() {
    assert_eq!(
        outcome("begin if x < 1 x := 1 else x := 2 ; end"),
        Err(ErrorMessage::MissingThen)
    );
    assert_eq!(outcome("begin if x < 1 then x := 1 ; end"), Err(ErrorMessage::MissingElse));
}

#[test]
fn every_relational_operator_is_accepted() {
    for op in ["=", "<>", "<", "<=", ">", ">="] {
        let text = format!("begin if a {} b then a := 1 else b := 2 ; end", op);
        assert_eq!(outcome(&text), Ok(()));
    }
}

#[test]
fn failure_is_reported_by_every_rule_it_passes() {
    let (r, _, parser) = parse("begin\nx := 1 - ;\nend\n");
    assert_eq!(r, Err(ErrorMessage::SyntaxError));
    let errors = parser.get_errors();
    assert_eq!(errors[0], Diagnostic { line: 2, kind: ErrorMessage::SyntaxError });
    assert!(errors.len() > 1);
    for e in &errors[1..] {
        assert_eq!(*e, Diagnostic { line: 4, kind: ErrorMessage::SyntaxError });
    }
}

#[test]
fn failure_gives_up_the_rest_of_the_input() {
    let (r, _, parser) = parse("begin\nx := ;\ny := ;\nend\n");
    assert_eq!(r, Err(ErrorMessage::SyntaxError));
    assert_eq!(parser.stream[parser.pos], Token::Eof);
    assert_eq!(parser.get_errors()[0].line, 2);
}

#[test]
fn new_parser_stands_at_the_start() {
    let parser = Parser::new(vec![Token::Begin, Token::End, Token::Eof], "file", String::from("p"));
    assert_eq!(parser.pos, 0);
    assert_eq!(parser.line, 1);
    assert_eq!(parser.stream.len(), 3);
    assert!(parser.get_errors().is_empty());
}

#[test]
fn token_sequence_without_end_of_text_is_analysed_too() {
    let mut parser = Parser::new(vec![Token::Begin, Token::End], "file", String::from("p"));
    let mut env = Env::new();
    assert_eq!(parser.analyse(&mut env), Ok(()));
    assert_eq!(parser.pos, 2);
    let mut parser = Parser::new(vec![Token::Begin], "file", String::from("p"));
    assert_eq!(parser.analyse(&mut env), Err(ErrorMessage::MissingEnd));
}

#[test]
fn analysis_keeps_the_scopes_that_were_open() {
    let (tokens, _) = Lexer::tokenize(String::from("begin integer x ; end"));
    let mut parser = Parser::new(tokens, "console", String::from("test"));
    let mut env = Env::new();
    env.enter_scope();
    env.add_variable(String::from("x"), String::from("global"), 0);
    assert_eq!(parser.analyse(&mut env), Ok(()));
    assert_eq!(env.stack.len(), 1);
    assert!(env.check_repeat(String::from("x")));
}
