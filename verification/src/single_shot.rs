//! The first failure ends the analysis. Of every rule of the grammar: a
//! rule that matches reports nothing; a rule that fails reports its
//! diagnostic, and nothing but it, at least once, and leaves the cursor
//! where the rest of the input was given up.

use vstd::prelude::*;
use crate::env::Scope;
use crate::grammar::{
    analysis, assignment_statement, block, call_statement, chain, condition, conditional_statement,
    current, declaration_statement, declaration_statement_prime, declaration_statement_table, done,
    eol_run, execution_statement, execution_statement_table, expect, expression, expression_prime,
    factor, factor_suffix, fail, function_body, identifier, lemma_block_unfold,
    lemma_conditional_statement_unfold, lemma_declaration_statement_prime_unfold,
    lemma_declaration_statement_table_unfold, lemma_declaration_statement_unfold,
    lemma_execution_statement_table_unfold, lemma_execution_statement_unfold,
    lemma_expression_prime_unfold, lemma_expression_unfold, lemma_factor_suffix_unfold,
    lemma_factor_unfold, lemma_function_body_unfold, lemma_parameter_unfold,
    lemma_term_prime_unfold, lemma_term_unfold, parameter, program, recover_by, relational_operator,
    remaining, retry, stride, term, term_prime, Step,
};
use crate::token::{ErrorMessage, Lexeme};

verus! {

/// Whether the cursor stands where the rest of the input was given up: on
/// an end-of-line token, or at the end of the text.
pub open spec fn gave_up(toks: Seq<Lexeme>, at: int) -> bool {
    current(toks, at) == Lexeme::Eol || current(toks, at) == Lexeme::Eof
}

/// Whether a step reports as a rule should: nothing where it matched, and
/// its own diagnostic only where it failed.
pub open spec fn consistent(s: Step) -> bool {
    match s.failure {
        None => s.reports.len() == 0,
        Some(kind) => forall|i: int|
            0 <= i < s.reports.len() ==> (#[trigger] s.reports[i]).kind == kind,
    }
}

/// Whether the step `s`, made at `pos`, is one that ends the analysis if it
/// fails: it reports as a rule should, and where it failed it reported at
/// least once and gave up the rest of the input.
pub open spec fn single_shot(toks: Seq<Lexeme>, pos: int, s: Step) -> bool {
    &&& consistent(s)
    &&& s.failure is Some ==> s.reports.len() >= 1 && gave_up(toks, pos + s.moved)
}

/// Giving up the rest of the input leaves the cursor on an end-of-line
/// token or at the end of the text.
pub proof fn lemma_recover_gives_up(toks: Seq<Lexeme>, pos: int)
    ensures
        gave_up(toks, pos + recover_by(toks, pos)),
    decreases remaining(toks, pos),
{
    if !gave_up(toks, pos) {
        lemma_recover_gives_up(toks, pos + stride(toks, pos));
    }
}

/// A failure that is reported where it is found ends the analysis.
pub proof fn lemma_fail(toks: Seq<Lexeme>, pos: int, kind: ErrorMessage)
    ensures
        single_shot(toks, pos, fail(toks, pos, kind)),
{
    lemma_recover_gives_up(toks, pos);
}

/// Wanting a token ends the analysis where the token is missing.
pub proof fn lemma_expect(toks: Seq<Lexeme>, pos: int, tok: Lexeme, kind: ErrorMessage)
    ensures
        single_shot(toks, pos, expect(toks, pos, tok, kind)),
{
    lemma_recover_gives_up(toks, pos);
}

/// A failure that is handed on ends the analysis.
pub proof fn lemma_retry(toks: Seq<Lexeme>, pos: int, s: Step)
    requires
        consistent(s),
    ensures
        single_shot(toks, pos, retry(toks, pos, s)),
{
    lemma_recover_gives_up(toks, pos + s.moved);
}

/// Two steps that each end the analysis on failure do so one after the
/// other.
pub proof fn lemma_chain(toks: Seq<Lexeme>, pos: int, first: Step, second: Step)
    requires
        single_shot(toks, pos, first),
        single_shot(toks, pos + first.moved, second),
    ensures
        single_shot(toks, pos, chain(first, second)),
{
}

/// `'(' expr ')'` behind a name, or nothing.
pub proof fn lemma_factor_suffix(toks: Seq<Lexeme>, pos: int)
    ensures
        single_shot(toks, pos, factor_suffix(toks, pos)),
    decreases remaining(toks, pos), 0int,
{
    lemma_factor_suffix_unfold(toks, pos);
    if current(toks, pos) == Lexeme::LeftParenthesis {
        let open = done(stride(toks, pos));
        let pos1 = pos + open.moved;
        lemma_parameter(toks, pos1);
        lemma_retry(toks, pos1, parameter(toks, pos1));
        let arg = retry(toks, pos1, parameter(toks, pos1));
        lemma_expect(
            toks,
            pos1 + arg.moved,
            Lexeme::RightParenthesis,
            ErrorMessage::MissingRightParenthesis,
        );
        let close = expect(
            toks,
            pos1 + arg.moved,
            Lexeme::RightParenthesis,
            ErrorMessage::MissingRightParenthesis,
        );
        lemma_chain(toks, pos1, arg, close);
        lemma_chain(toks, pos, open, chain(arg, close));
    }
}

/// `factor := '(' expr ')' | integer_literal | ident [ '(' expr ')' ]`
pub proof fn lemma_factor(toks: Seq<Lexeme>, pos: int)
    ensures
        single_shot(toks, pos, factor(toks, pos)),
    decreases remaining(toks, pos), 1int,
{
    lemma_factor_unfold(toks, pos);
    match current(toks, pos) {
        Lexeme::LeftParenthesis => {
            let open = done(stride(toks, pos));
            let pos1 = pos + open.moved;
            lemma_expression(toks, pos1);
            lemma_retry(toks, pos1, expression(toks, pos1));
            let inner = retry(toks, pos1, expression(toks, pos1));
            lemma_expect(
                toks,
                pos1 + inner.moved,
                Lexeme::RightParenthesis,
                ErrorMessage::MissingRightParenthesis,
            );
            let close = expect(
                toks,
                pos1 + inner.moved,
                Lexeme::RightParenthesis,
                ErrorMessage::MissingRightParenthesis,
            );
            lemma_chain(toks, pos1, inner, close);
            lemma_chain(toks, pos, open, chain(inner, close));
        },
        Lexeme::IntegerLiteral(_) => {},
        Lexeme::Identifier(_) => {
            let name = done(stride(toks, pos));
            let pos1 = pos + name.moved;
            lemma_factor_suffix(toks, pos1);
            lemma_retry(toks, pos1, factor_suffix(toks, pos1));
            lemma_chain(toks, pos, name, retry(toks, pos1, factor_suffix(toks, pos1)));
        },
        _ => {
            lemma_fail(toks, pos, ErrorMessage::SyntaxError);
        },
    }
}

/// `{ '*' factor }`
pub proof fn lemma_term_prime(toks: Seq<Lexeme>, pos: int)
    ensures
        single_shot(toks, pos, term_prime(toks, pos)),
    decreases remaining(toks, pos), 0int,
{
    lemma_term_prime_unfold(toks, pos);
    if current(toks, pos) == Lexeme::Multiply {
        let star = done(stride(toks, pos));
        let pos1 = pos + star.moved;
        lemma_factor(toks, pos1);
        lemma_retry(toks, pos1, factor(toks, pos1));
        let f = retry(toks, pos1, factor(toks, pos1));
        lemma_term_prime(toks, pos1 + f.moved);
        lemma_retry(toks, pos1 + f.moved, term_prime(toks, pos1 + f.moved));
        let rest = retry(toks, pos1 + f.moved, term_prime(toks, pos1 + f.moved));
        lemma_chain(toks, pos1, f, rest);
        lemma_chain(toks, pos, star, chain(f, rest));
    }
}

/// `term := factor { '*' factor }`
pub proof fn lemma_term(toks: Seq<Lexeme>, pos: int)
    ensures
        single_shot(toks, pos, term(toks, pos)),
    decreases remaining(toks, pos), 2int,
{
    lemma_term_unfold(toks, pos);
    lemma_factor(toks, pos);
    lemma_retry(toks, pos, factor(toks, pos));
    let f = retry(toks, pos, factor(toks, pos));
    lemma_term_prime(toks, pos + f.moved);
    lemma_retry(toks, pos + f.moved, term_prime(toks, pos + f.moved));
    lemma_chain(toks, pos, f, retry(toks, pos + f.moved, term_prime(toks, pos + f.moved)));
}

/// `{ '-' term }`
pub proof fn lemma_expression_prime(toks: Seq<Lexeme>, pos: int)
    ensures
        single_shot(toks, pos, expression_prime(toks, pos)),
    decreases remaining(toks, pos), 0int,
{
    lemma_expression_prime_unfold(toks, pos);
    if current(toks, pos) == Lexeme::Minus {
        let minus = done(stride(toks, pos));
        let pos1 = pos + minus.moved;
        lemma_term(toks, pos1);
        lemma_retry(toks, pos1, term(toks, pos1));
        let t = retry(toks, pos1, term(toks, pos1));
        lemma_expression_prime(toks, pos1 + t.moved);
        lemma_retry(toks, pos1 + t.moved, expression_prime(toks, pos1 + t.moved));
        let rest = retry(toks, pos1 + t.moved, expression_prime(toks, pos1 + t.moved));
        lemma_chain(toks, pos1, t, rest);
        lemma_chain(toks, pos, minus, chain(t, rest));
    }
}

/// `expr := term { '-' term }`
pub proof fn lemma_expression(toks: Seq<Lexeme>, pos: int)
    ensures
        single_shot(toks, pos, expression(toks, pos)),
    decreases remaining(toks, pos), 3int,
{
    lemma_expression_unfold(toks, pos);
    lemma_term(toks, pos);
    lemma_retry(toks, pos, term(toks, pos));
    let t = retry(toks, pos, term(toks, pos));
    lemma_expression_prime(toks, pos + t.moved);
    lemma_retry(toks, pos + t.moved, expression_prime(toks, pos + t.moved));
    lemma_chain(toks, pos, t, retry(toks, pos + t.moved, expression_prime(toks, pos + t.moved)));
}

/// The argument of a function.
pub proof fn lemma_parameter(toks: Seq<Lexeme>, pos: int)
    ensures
        single_shot(toks, pos, parameter(toks, pos)),
    decreases remaining(toks, pos), 4int,
{
    lemma_parameter_unfold(toks, pos);
    lemma_expression(toks, pos);
    lemma_retry(toks, pos, expression(toks, pos));
}

/// `condition := expr relop expr`
pub proof fn lemma_condition(toks: Seq<Lexeme>, pos: int)
    ensures
        single_shot(toks, pos, condition(toks, pos)),
{
    reveal(condition);
    lemma_expression(toks, pos);
    lemma_retry(toks, pos, expression(toks, pos));
    let left = retry(toks, pos, expression(toks, pos));
    let pos1 = pos + left.moved;
    lemma_fail(toks, pos1, ErrorMessage::SyntaxError);
    lemma_retry(toks, pos1, relational_operator(toks, pos1));
    let found = retry(toks, pos1, relational_operator(toks, pos1));
    let op = chain(found, done(stride(toks, pos1)));
    lemma_chain(toks, pos1, found, done(stride(toks, pos1)));
    lemma_expression(toks, pos1 + op.moved);
    lemma_retry(toks, pos1 + op.moved, expression(toks, pos1 + op.moved));
    let right = retry(toks, pos1 + op.moved, expression(toks, pos1 + op.moved));
    lemma_chain(toks, pos1, op, right);
    lemma_chain(toks, pos, left, chain(op, right));
}

/// `keyword '(' ident ')'`
pub proof fn lemma_call_statement(
    toks: Seq<Lexeme>,
    pos: int,
    keyword: Lexeme,
    kind: ErrorMessage,
)
    ensures
        single_shot(toks, pos, call_statement(toks, pos, keyword, kind)),
{
    reveal(call_statement);
    lemma_expect(toks, pos, keyword, kind);
    let word = expect(toks, pos, keyword, kind);
    let pos1 = pos + word.moved;
    lemma_expect(toks, pos1, Lexeme::LeftParenthesis, ErrorMessage::MissingLeftParenthesis);
    let open = expect(toks, pos1, Lexeme::LeftParenthesis, ErrorMessage::MissingLeftParenthesis);
    let pos2 = pos1 + open.moved;
    lemma_retry(toks, pos2, identifier(toks, pos2));
    let var = retry(toks, pos2, identifier(toks, pos2));
    let pos3 = pos2 + var.moved;
    lemma_expect(toks, pos3, Lexeme::RightParenthesis, ErrorMessage::MissingRightParenthesis);
    let close = expect(
        toks,
        pos3,
        Lexeme::RightParenthesis,
        ErrorMessage::MissingRightParenthesis,
    );
    lemma_chain(toks, pos2, var, close);
    lemma_chain(toks, pos1, open, chain(var, close));
    lemma_chain(toks, pos, word, chain(open, chain(var, close)));
}

/// `assign_stmt := ident ':=' expr`
pub proof fn lemma_assignment_statement(toks: Seq<Lexeme>, pos: int)
    ensures
        single_shot(toks, pos, assignment_statement(toks, pos)),
{
    reveal(assignment_statement);
    lemma_retry(toks, pos, identifier(toks, pos));
    let var = retry(toks, pos, identifier(toks, pos));
    let pos1 = pos + var.moved;
    lemma_expect(toks, pos1, Lexeme::Assign, ErrorMessage::WrongAssignToken);
    let assign = expect(toks, pos1, Lexeme::Assign, ErrorMessage::WrongAssignToken);
    lemma_chain(toks, pos, var, assign);
    if var.failure is None && assign.failure is None {
        let pos2 = pos1 + assign.moved;
        lemma_expression(toks, pos2);
        lemma_retry(toks, pos2, expression(toks, pos2));
        let value = retry(toks, pos2, expression(toks, pos2));
        lemma_chain(toks, pos1, assign, value);
        lemma_chain(toks, pos, var, chain(assign, value));
    }
}

/// `if_stmt := 'if' condition 'then' exec_stmt 'else' exec_stmt`
pub proof fn lemma_conditional_statement(toks: Seq<Lexeme>, pos: int)
    ensures
        single_shot(toks, pos, conditional_statement(toks, pos)),
    decreases remaining(toks, pos), 5int,
{
    lemma_conditional_statement_unfold(toks, pos);
    lemma_expect(toks, pos, Lexeme::If, ErrorMessage::MissingIf);
    let word = expect(toks, pos, Lexeme::If, ErrorMessage::MissingIf);
    if word.failure is None {
        let pos1 = pos + word.moved;
        lemma_condition(toks, pos1);
        lemma_retry(toks, pos1, condition(toks, pos1));
        let cond = retry(toks, pos1, condition(toks, pos1));
        lemma_expect(toks, pos1 + cond.moved, Lexeme::Then, ErrorMessage::MissingThen);
        let then_word = expect(toks, pos1 + cond.moved, Lexeme::Then, ErrorMessage::MissingThen);
        let pos2 = pos1 + cond.moved + then_word.moved;
        lemma_execution_statement(toks, pos2);
        lemma_retry(toks, pos2, execution_statement(toks, pos2));
        let first = retry(toks, pos2, execution_statement(toks, pos2));
        lemma_expect(toks, pos2 + first.moved, Lexeme::Else, ErrorMessage::MissingElse);
        let else_word = expect(toks, pos2 + first.moved, Lexeme::Else, ErrorMessage::MissingElse);
        let pos3 = pos2 + first.moved + else_word.moved;
        lemma_execution_statement(toks, pos3);
        lemma_retry(toks, pos3, execution_statement(toks, pos3));
        let second = retry(toks, pos3, execution_statement(toks, pos3));
        lemma_chain(toks, pos2 + first.moved, else_word, second);
        lemma_chain(toks, pos2, first, chain(else_word, second));
        lemma_chain(toks, pos1 + cond.moved, then_word, chain(first, chain(else_word, second)));
        lemma_chain(toks, pos1, cond, chain(then_word, chain(first, chain(else_word, second))));
        lemma_chain(
            toks,
            pos,
            word,
            chain(cond, chain(then_word, chain(first, chain(else_word, second)))),
        );
    }
}

/// `exec_stmt := read_stmt | write_stmt | if_stmt | assign_stmt`
pub proof fn lemma_execution_statement(toks: Seq<Lexeme>, pos: int)
    ensures
        single_shot(toks, pos, execution_statement(toks, pos)),
    decreases remaining(toks, pos), 6int,
{
    lemma_execution_statement_unfold(toks, pos);
    match current(toks, pos) {
        Lexeme::Read => {
            lemma_call_statement(toks, pos, Lexeme::Read, ErrorMessage::WrongReserveYouMeanRead);
        },
        Lexeme::Write => {
            lemma_call_statement(
                toks,
                pos,
                Lexeme::Write,
                ErrorMessage::WrongReserveYouMeanWrite,
            );
        },
        Lexeme::If => {
            lemma_conditional_statement(toks, pos);
        },
        Lexeme::Identifier(_) => {
            lemma_assignment_statement(toks, pos);
        },
        _ => {
            lemma_fail(toks, pos, ErrorMessage::SyntaxError);
        },
    }
}

/// `exec_table := { exec_stmt ';' }`
pub proof fn lemma_execution_statement_table(toks: Seq<Lexeme>, pos: int)
    ensures
        single_shot(toks, pos, execution_statement_table(toks, pos)),
    decreases remaining(toks, pos), 7int,
{
    lemma_execution_statement_table_unfold(toks, pos);
    lemma_fail(toks, pos, ErrorMessage::SyntaxError);
    lemma_execution_statement(toks, pos);
    lemma_retry(toks, pos, execution_statement(toks, pos));
    let stmt = retry(toks, pos, execution_statement(toks, pos));
    let pos1 = pos + stmt.moved;
    lemma_expect(toks, pos1, Lexeme::Semicolon, ErrorMessage::MissingSemicolon);
    let semi = expect(toks, pos1, Lexeme::Semicolon, ErrorMessage::MissingSemicolon);
    lemma_chain(toks, pos, stmt, semi);
    if current(toks, pos) != Lexeme::Eof && stmt.failure is None && semi.failure is None {
        let rest = execution_statement_table(toks, pos1 + semi.moved);
        lemma_execution_statement_table(toks, pos1 + semi.moved);
        lemma_chain(toks, pos1, semi, rest);
        lemma_chain(toks, pos, stmt, chain(semi, rest));
    }
}

/// `block := 'begin' decl_table exec_table 'end'`
pub proof fn lemma_block(toks: Seq<Lexeme>, pos: int, scopes: Seq<Scope>)
    ensures
        single_shot(toks, pos, block(toks, pos, scopes).step),
    decreases remaining(toks, pos), 0int,
{
    lemma_block_unfold(toks, pos, scopes);
    lemma_expect(toks, pos, Lexeme::Begin, ErrorMessage::SyntaxErrorExpectedABlock);
    let word = expect(toks, pos, Lexeme::Begin, ErrorMessage::SyntaxErrorExpectedABlock);
    if word.failure is None {
        let inner = scopes.push(crate::env::empty_scope(scopes.len() as i32));
        let pos1 = pos + word.moved;
        lemma_declaration_statement_table(toks, pos1, inner);
        let decls = declaration_statement_table(toks, pos1, inner);
        lemma_retry(toks, pos1, decls.step);
        let d = retry(toks, pos1, decls.step);
        lemma_execution_statement_table(toks, pos1 + d.moved);
        lemma_retry(toks, pos1 + d.moved, execution_statement_table(toks, pos1 + d.moved));
        let stmts = retry(toks, pos1 + d.moved, execution_statement_table(toks, pos1 + d.moved));
        let pos2 = pos1 + d.moved + stmts.moved;
        lemma_expect(toks, pos2, Lexeme::End, ErrorMessage::MissingEnd);
        let end = expect(toks, pos2, Lexeme::End, ErrorMessage::MissingEnd);
        lemma_chain(toks, pos1 + d.moved, stmts, end);
        lemma_chain(toks, pos1, d, chain(stmts, end));
        lemma_chain(toks, pos, word, chain(d, chain(stmts, end)));
    }
}

/// `function_body := block`
pub proof fn lemma_function_body(toks: Seq<Lexeme>, pos: int, scopes: Seq<Scope>)
    ensures
        single_shot(toks, pos, function_body(toks, pos, scopes).step),
    decreases remaining(toks, pos), 1int,
{
    lemma_function_body_unfold(toks, pos, scopes);
    lemma_block(toks, pos, scopes);
}

/// `decl_tail := ident | 'function' ident '(' expr ')' ';' function_body`
pub proof fn lemma_declaration_statement_prime(toks: Seq<Lexeme>, pos: int, scopes: Seq<Scope>)
    ensures
        single_shot(toks, pos, declaration_statement_prime(toks, pos, scopes).step),
    decreases remaining(toks, pos), 0int,
{
    lemma_declaration_statement_prime_unfold(toks, pos, scopes);
    if current(toks, pos) == Lexeme::Function {
        let word = done(stride(toks, pos));
        let pos1 = pos + word.moved;
        lemma_retry(toks, pos1, identifier(toks, pos1));
        let name = retry(toks, pos1, identifier(toks, pos1));
        let pos2 = pos1 + name.moved;
        lemma_chain(toks, pos, word, name);
        lemma_fail(toks, pos2, ErrorMessage::FoundRepeatDeclarationInThisField);
        let repeated = fail(toks, pos2, ErrorMessage::FoundRepeatDeclarationInThisField);
        lemma_chain(toks, pos1, name, repeated);
        lemma_chain(toks, pos, word, chain(name, repeated));
        let declared = crate::grammar::with_procedure(scopes, crate::grammar::name_at(toks, pos1));
        lemma_expect(toks, pos2, Lexeme::LeftParenthesis, ErrorMessage::MissingLeftParenthesis);
        let open = expect(
            toks,
            pos2,
            Lexeme::LeftParenthesis,
            ErrorMessage::MissingLeftParenthesis,
        );
        let pos3 = pos2 + open.moved;
        lemma_parameter(toks, pos3);
        lemma_retry(toks, pos3, parameter(toks, pos3));
        let arg = retry(toks, pos3, parameter(toks, pos3));
        let pos4 = pos3 + arg.moved;
        lemma_expect(toks, pos4, Lexeme::RightParenthesis, ErrorMessage::MissingRightParenthesis);
        let close = expect(
            toks,
            pos4,
            Lexeme::RightParenthesis,
            ErrorMessage::MissingRightParenthesis,
        );
        let pos5 = pos4 + close.moved;
        lemma_expect(toks, pos5, Lexeme::Semicolon, ErrorMessage::MissingSemicolon);
        let semi = expect(toks, pos5, Lexeme::Semicolon, ErrorMessage::MissingSemicolon);
        lemma_chain(toks, pos4, close, semi);
        lemma_chain(toks, pos3, arg, chain(close, semi));
        lemma_chain(toks, pos2, open, chain(arg, chain(close, semi)));
        lemma_chain(toks, pos1, name, chain(open, chain(arg, chain(close, semi))));
        let head = chain(word, chain(name, chain(open, chain(arg, chain(close, semi)))));
        lemma_chain(toks, pos, word, chain(name, chain(open, chain(arg, chain(close, semi)))));
        if name.failure is None && head.failure is None {
            lemma_function_body(toks, pos + head.moved, declared);
            let body = function_body(toks, pos + head.moved, declared);
            lemma_retry(toks, pos + head.moved, body.step);
            lemma_chain(toks, pos, head, retry(toks, pos + head.moved, body.step));
        }
    } else {
        lemma_retry(toks, pos, identifier(toks, pos));
        let name = retry(toks, pos, identifier(toks, pos));
        lemma_fail(toks, pos + name.moved, ErrorMessage::FoundRepeatDeclarationInThisField);
        lemma_chain(
            toks,
            pos,
            name,
            fail(toks, pos + name.moved, ErrorMessage::FoundRepeatDeclarationInThisField),
        );
    }
}

/// `decl := 'integer' decl_tail`
pub proof fn lemma_declaration_statement(toks: Seq<Lexeme>, pos: int, scopes: Seq<Scope>)
    ensures
        single_shot(toks, pos, declaration_statement(toks, pos, scopes).step),
    decreases remaining(toks, pos), 1int,
{
    lemma_declaration_statement_unfold(toks, pos, scopes);
    lemma_expect(toks, pos, Lexeme::Integer, ErrorMessage::InvalidTypeExpectedInterger);
    let word = expect(toks, pos, Lexeme::Integer, ErrorMessage::InvalidTypeExpectedInterger);
    if word.failure is None {
        lemma_declaration_statement_prime(toks, pos + word.moved, scopes);
        lemma_chain(
            toks,
            pos,
            word,
            declaration_statement_prime(toks, pos + word.moved, scopes).step,
        );
    }
}

/// `decl_table := { decl ';' }`
pub proof fn lemma_declaration_statement_table(toks: Seq<Lexeme>, pos: int, scopes: Seq<Scope>)
    ensures
        single_shot(toks, pos, declaration_statement_table(toks, pos, scopes).step),
    decreases remaining(toks, pos), 2int,
{
    lemma_declaration_statement_table_unfold(toks, pos, scopes);
    lemma_fail(toks, pos, ErrorMessage::SyntaxError);
    if current(toks, pos) == Lexeme::Integer {
        lemma_declaration_statement(toks, pos, scopes);
        let decl = declaration_statement(toks, pos, scopes);
        lemma_retry(toks, pos, decl.step);
        let d = retry(toks, pos, decl.step);
        let pos1 = pos + d.moved;
        lemma_expect(toks, pos1, Lexeme::Semicolon, ErrorMessage::MissingSemicolon);
        let semi = expect(toks, pos1, Lexeme::Semicolon, ErrorMessage::MissingSemicolon);
        lemma_chain(toks, pos, d, semi);
        if d.failure is None && semi.failure is None {
            lemma_declaration_statement_table(toks, pos1 + semi.moved, decl.scopes);
            lemma_chain(
                toks,
                pos,
                chain(d, semi),
                declaration_statement_table(toks, pos1 + semi.moved, decl.scopes).step,
            );
        }
    }
}

/// The first failure ends the analysis: an analysis that succeeds reports
/// nothing; one that fails reports the diagnostic that it hands back, at
/// least once and no other, and leaves the cursor where the rest of the
/// input was given up.
pub proof fn lemma_analysis_is_single_shot(toks: Seq<Lexeme>, pos: int, scopes: Seq<Scope>)
    ensures
        single_shot(toks, pos, analysis(toks, pos, scopes).step),
{
    let skipped = done(eol_run(toks, pos));
    lemma_block(toks, pos + skipped.moved, scopes);
    lemma_chain(toks, pos, skipped, program(toks, pos + skipped.moved, scopes).step);
}

} // verus!
