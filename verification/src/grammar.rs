//! What parsing means. The grammar, one function for each of its rules:
//!
//! ```text
//! program        := block
//! block          := 'begin' decl_table exec_table 'end'
//! decl_table     := { decl ';' }
//! decl           := 'integer' decl_tail
//! decl_tail      := ident | 'function' ident '(' expr ')' ';' function_body
//! function_body  := block
//! exec_table     := { exec_stmt ';' }
//! exec_stmt      := read_stmt | write_stmt | if_stmt | assign_stmt
//! assign_stmt    := ident ':=' expr
//! if_stmt        := 'if' condition 'then' exec_stmt 'else' exec_stmt
//! read_stmt      := 'read' '(' ident ')'
//! write_stmt     := 'write' '(' ident ')'
//! condition      := expr relop expr
//! expr           := term { '-' term }
//! term           := factor { '*' factor }
//! factor         := '(' expr ')' | integer_literal | ident [ '(' expr ')' ]
//! relop          := '=' | '<>' | '<' | '<=' | '>' | '>='
//! ```
//!
//! Each function tells, for a token sequence and a position in it, whether
//! the rule matches there, how far the cursor moves, and which diagnostics
//! are reported on the way. A rule that fails reports its diagnostic, moves
//! the cursor to the end of the text, and hands the failure to the rule that
//! asked for it, which does the same: the first failure ends the analysis.
//!
//! The rules refer to one another. So that a proof about one rule need not
//! look into all of them, each rule is opaque and is followed by a lemma
//! that spells it out: the lemma gives the shape of its own rule and leaves
//! the rules that the shape mentions closed.

use vstd::prelude::*;
use crate::env::{declares, empty_scope, ProcedureEntry, Scope, VariableEntry};
use crate::report::Report;
use crate::token::{ErrorMessage, Lexeme};

verus! {

/// The token under the cursor; behind the last token, the end of the text.
pub open spec fn current(toks: Seq<Lexeme>, pos: int) -> Lexeme {
    if 0 <= pos < toks.len() {
        toks[pos]
    } else {
        Lexeme::Eof
    }
}

/// The number of tokens from `pos` on.
pub open spec fn remaining(toks: Seq<Lexeme>, pos: int) -> nat {
    if pos < toks.len() {
        (toks.len() - pos) as nat
    } else {
        0
    }
}

/// The number of end-of-line tokens in a row that begin at `pos`.
pub open spec fn eol_run(toks: Seq<Lexeme>, pos: int) -> nat
    decreases remaining(toks, pos),
{
    if 0 <= pos < toks.len() && toks[pos] == Lexeme::Eol {
        1 + eol_run(toks, pos + 1)
    } else {
        0
    }
}

/// How far the cursor moves when it advances from `pos`: over the token
/// there and the end-of-line tokens behind it. Behind the last token it
/// stays.
pub open spec fn stride(toks: Seq<Lexeme>, pos: int) -> nat {
    if 0 <= pos < toks.len() {
        1 + eol_run(toks, pos + 1)
    } else {
        0
    }
}

/// The number of end-of-line tokens among the first `pos` tokens.
pub open spec fn eols_before(toks: Seq<Lexeme>, pos: int) -> nat
    decreases pos,
{
    if pos <= 0 || pos > toks.len() {
        0
    } else if toks[pos - 1] == Lexeme::Eol {
        eols_before(toks, pos - 1) + 1
    } else {
        eols_before(toks, pos - 1)
    }
}

/// The line, counted from one, of the token at `pos`.
pub open spec fn line_at(toks: Seq<Lexeme>, pos: int) -> nat {
    eols_before(toks, pos) + 1
}

/// How far the cursor moves when the rest of the input is given up: it
/// advances until it stands on an end-of-line or end-of-text token.
pub open spec fn recover_by(toks: Seq<Lexeme>, pos: int) -> nat
    decreases remaining(toks, pos),
{
    if current(toks, pos) == Lexeme::Eol || current(toks, pos) == Lexeme::Eof {
        0
    } else {
        stride(toks, pos) + recover_by(toks, pos + stride(toks, pos))
    }
}

/// What applying a rule at a position did.
pub ghost struct Step {
    /// The diagnostic of the failure, if the rule did not match.
    pub failure: Option<ErrorMessage>,
    /// How many tokens the cursor moved on.
    pub moved: nat,
    /// The diagnostics reported, in their order.
    pub reports: Seq<Report>,
}

/// What applying a rule that declares names did.
pub ghost struct Decl {
    pub step: Step,
    /// The scopes that are open afterwards.
    pub scopes: Seq<Scope>,
}

/// What a step hands back to the rule that asked for it.
pub open spec fn verdict(step: Step) -> Result<(), ErrorMessage> {
    match step.failure {
        None => Ok(()),
        Some(kind) => Err(kind),
    }
}

/// A match that moved the cursor by `moved` tokens.
pub open spec fn done(moved: nat) -> Step {
    Step { failure: None, moved, reports: Seq::empty() }
}

/// A failure found at `pos`: the diagnostic is reported on the line of
/// `pos`, and the rest of the input is given up.
pub open spec fn fail(toks: Seq<Lexeme>, pos: int, kind: ErrorMessage) -> Step {
    Step {
        failure: Some(kind),
        moved: recover_by(toks, pos),
        reports: seq![Report { line: line_at(toks, pos), kind }],
    }
}

/// What a rule makes of the step `s` of a rule that it applied at `pos`: a
/// failure is reported once more, where the cursor then stands.
pub open spec fn retry(toks: Seq<Lexeme>, pos: int, s: Step) -> Step {
    match s.failure {
        None => s,
        Some(kind) => Step {
            failure: s.failure,
            moved: s.moved + recover_by(toks, pos + s.moved),
            reports: s.reports.push(Report { line: line_at(toks, pos + s.moved), kind }),
        },
    }
}

/// One step after another: the second counts only if the first matched.
pub open spec fn chain(first: Step, second: Step) -> Step {
    if first.failure is Some {
        first
    } else {
        Step {
            failure: second.failure,
            moved: first.moved + second.moved,
            reports: first.reports + second.reports,
        }
    }
}

/// The token `tok` is wanted at `pos`: the cursor advances over it, or
/// `kind` is reported.
pub open spec fn expect(toks: Seq<Lexeme>, pos: int, tok: Lexeme, kind: ErrorMessage) -> Step {
    if current(toks, pos) == tok {
        done(stride(toks, pos))
    } else {
        fail(toks, pos, kind)
    }
}

/// A name is wanted at `pos`. The failure is not reported here: that is
/// left to the rule that asked.
pub open spec fn identifier(toks: Seq<Lexeme>, pos: int) -> Step {
    if current(toks, pos) is Identifier {
        done(stride(toks, pos))
    } else {
        Step { failure: Some(ErrorMessage::ExpectedIdentifier), moved: 0, reports: Seq::empty() }
    }
}

/// The name at `pos`, where there is one.
pub open spec fn name_at(toks: Seq<Lexeme>, pos: int) -> Seq<char> {
    current(toks, pos)->Identifier_0
}

/// `<factor suffix> := '(' expr ')' | nothing`
#[verifier::opaque]
pub open spec fn factor_suffix(toks: Seq<Lexeme>, pos: int) -> Step
    decreases remaining(toks, pos), 0int,
{
    if current(toks, pos) == Lexeme::LeftParenthesis {
        let open = done(stride(toks, pos));
        let arg = retry(toks, pos + open.moved, parameter(toks, pos + open.moved));
        let close = expect(
            toks,
            pos + open.moved + arg.moved,
            Lexeme::RightParenthesis,
            ErrorMessage::MissingRightParenthesis,
        );
        chain(open, chain(arg, close))
    } else {
        done(0)
    }
}

/// The rule for what may follow a name in a factor, spelled out.
pub proof fn lemma_factor_suffix_unfold(toks: Seq<Lexeme>, pos: int)
    ensures
        factor_suffix(toks, pos) == ({
            if current(toks, pos) == Lexeme::LeftParenthesis {
                let open = done(stride(toks, pos));
                let arg = retry(toks, pos + open.moved, parameter(toks, pos + open.moved));
                let close = expect(
                    toks,
                    pos + open.moved + arg.moved,
                    Lexeme::RightParenthesis,
                    ErrorMessage::MissingRightParenthesis,
                );
                chain(open, chain(arg, close))
            } else {
                done(0)
            }
        }),
{
    reveal(factor_suffix);
    reveal(parameter);
}

/// `factor := '(' expr ')' | integer_literal | ident [ '(' expr ')' ]`
#[verifier::opaque]
pub open spec fn factor(toks: Seq<Lexeme>, pos: int) -> Step
    decreases remaining(toks, pos), 1int,
{
    match current(toks, pos) {
        Lexeme::LeftParenthesis => {
            let open = done(stride(toks, pos));
            let inner = retry(toks, pos + open.moved, expression(toks, pos + open.moved));
            let close = expect(
                toks,
                pos + open.moved + inner.moved,
                Lexeme::RightParenthesis,
                ErrorMessage::MissingRightParenthesis,
            );
            chain(open, chain(inner, close))
        },
        Lexeme::IntegerLiteral(_) => done(stride(toks, pos)),
        Lexeme::Identifier(_) => {
            let name = done(stride(toks, pos));
            let suffix = retry(toks, pos + name.moved, factor_suffix(toks, pos + name.moved));
            chain(name, suffix)
        },
        _ => fail(toks, pos, ErrorMessage::SyntaxError),
    }
}

/// The rule for a factor, spelled out.
pub proof fn lemma_factor_unfold(toks: Seq<Lexeme>, pos: int)
    ensures
        factor(toks, pos) == ({
            match current(toks, pos) {
                Lexeme::LeftParenthesis => {
                    let open = done(stride(toks, pos));
                    let inner = retry(toks, pos + open.moved, expression(toks, pos + open.moved));
                    let close = expect(
                        toks,
                        pos + open.moved + inner.moved,
                        Lexeme::RightParenthesis,
                        ErrorMessage::MissingRightParenthesis,
                    );
                    chain(open, chain(inner, close))
                },
                Lexeme::IntegerLiteral(_) => done(stride(toks, pos)),
                Lexeme::Identifier(_) => {
                    let name = done(stride(toks, pos));
                    let suffix = retry(
                        toks,
                        pos + name.moved,
                        factor_suffix(toks, pos + name.moved),
                    );
                    chain(name, suffix)
                },
                _ => fail(toks, pos, ErrorMessage::SyntaxError),
            }
        }),
{
    reveal(factor);
    reveal(expression);
    reveal(factor_suffix);
}

/// `{ '*' factor }`
#[verifier::opaque]
pub open spec fn term_prime(toks: Seq<Lexeme>, pos: int) -> Step
    decreases remaining(toks, pos), 0int,
{
    if current(toks, pos) == Lexeme::Multiply {
        let star = done(stride(toks, pos));
        let f = retry(toks, pos + star.moved, factor(toks, pos + star.moved));
        let rest = retry(
            toks,
            pos + star.moved + f.moved,
            term_prime(toks, pos + star.moved + f.moved),
        );
        chain(star, chain(f, rest))
    } else {
        done(0)
    }
}

/// The rule for the factors that follow the first one of a term, spelled out.
pub proof fn lemma_term_prime_unfold(toks: Seq<Lexeme>, pos: int)
    ensures
        term_prime(toks, pos) == ({
            if current(toks, pos) == Lexeme::Multiply {
                let star = done(stride(toks, pos));
                let f = retry(toks, pos + star.moved, factor(toks, pos + star.moved));
                let rest = retry(
                    toks,
                    pos + star.moved + f.moved,
                    term_prime(toks, pos + star.moved + f.moved),
                );
                chain(star, chain(f, rest))
            } else {
                done(0)
            }
        }),
{
    reveal(term_prime);
    reveal(factor);
}

/// `term := factor { '*' factor }`
#[verifier::opaque]
pub open spec fn term(toks: Seq<Lexeme>, pos: int) -> Step
    decreases remaining(toks, pos), 2int,
{
    let f = retry(toks, pos, factor(toks, pos));
    let rest = retry(toks, pos + f.moved, term_prime(toks, pos + f.moved));
    chain(f, rest)
}

/// The rule for a term, spelled out.
pub proof fn lemma_term_unfold(toks: Seq<Lexeme>, pos: int)
    ensures
        term(toks, pos) == ({
            let f = retry(toks, pos, factor(toks, pos));
            let rest = retry(toks, pos + f.moved, term_prime(toks, pos + f.moved));
            chain(f, rest)
        }),
{
    reveal(term);
    reveal(factor);
    reveal(term_prime);
}

/// `{ '-' term }`
#[verifier::opaque]
pub open spec fn expression_prime(toks: Seq<Lexeme>, pos: int) -> Step
    decreases remaining(toks, pos), 0int,
{
    if current(toks, pos) == Lexeme::Minus {
        let minus = done(stride(toks, pos));
        let t = retry(toks, pos + minus.moved, term(toks, pos + minus.moved));
        let rest = retry(
            toks,
            pos + minus.moved + t.moved,
            expression_prime(toks, pos + minus.moved + t.moved),
        );
        chain(minus, chain(t, rest))
    } else {
        done(0)
    }
}

/// The rule for the terms that follow the first one of an expression, spelled out.
pub proof fn lemma_expression_prime_unfold(toks: Seq<Lexeme>, pos: int)
    ensures
        expression_prime(toks, pos) == ({
            if current(toks, pos) == Lexeme::Minus {
                let minus = done(stride(toks, pos));
                let t = retry(toks, pos + minus.moved, term(toks, pos + minus.moved));
                let rest = retry(
                    toks,
                    pos + minus.moved + t.moved,
                    expression_prime(toks, pos + minus.moved + t.moved),
                );
                chain(minus, chain(t, rest))
            } else {
                done(0)
            }
        }),
{
    reveal(expression_prime);
    reveal(term);
}

/// `expr := term { '-' term }`
#[verifier::opaque]
pub open spec fn expression(toks: Seq<Lexeme>, pos: int) -> Step
    decreases remaining(toks, pos), 3int,
{
    let t = retry(toks, pos, term(toks, pos));
    let rest = retry(toks, pos + t.moved, expression_prime(toks, pos + t.moved));
    chain(t, rest)
}

/// The rule for an expression, spelled out.
pub proof fn lemma_expression_unfold(toks: Seq<Lexeme>, pos: int)
    ensures
        expression(toks, pos) == ({
            let t = retry(toks, pos, term(toks, pos));
            let rest = retry(toks, pos + t.moved, expression_prime(toks, pos + t.moved));
            chain(t, rest)
        }),
{
    reveal(expression);
    reveal(term);
    reveal(expression_prime);
}

/// The argument of a function: an expression.
#[verifier::opaque]
pub open spec fn parameter(toks: Seq<Lexeme>, pos: int) -> Step
    decreases remaining(toks, pos), 4int,
{
    retry(toks, pos, expression(toks, pos))
}

/// The rule for an argument, spelled out.
pub proof fn lemma_parameter_unfold(toks: Seq<Lexeme>, pos: int)
    ensures
        parameter(toks, pos) == ({
            retry(toks, pos, expression(toks, pos))
        }),
{
    reveal(parameter);
    reveal(expression);
}

/// Whether the token compares two values.
pub open spec fn is_relational(tok: Lexeme) -> bool {
    tok == Lexeme::Equal || tok == Lexeme::NotEqual || tok == Lexeme::Less || tok
        == Lexeme::LessEqual || tok == Lexeme::Greater || tok == Lexeme::GreaterEqual
}

/// `relop := '=' | '<>' | '<' | '<=' | '>' | '>='`, which the cursor does
/// not advance over.
pub open spec fn relational_operator(toks: Seq<Lexeme>, pos: int) -> Step {
    if is_relational(current(toks, pos)) {
        done(0)
    } else {
        fail(toks, pos, ErrorMessage::SyntaxError)
    }
}

/// `condition := expr relop expr`
#[verifier::opaque]
pub open spec fn condition(toks: Seq<Lexeme>, pos: int) -> Step {
    let left = retry(toks, pos, expression(toks, pos));
    let op = chain(
        retry(toks, pos + left.moved, relational_operator(toks, pos + left.moved)),
        done(stride(toks, pos + left.moved)),
    );
    let right = retry(
        toks,
        pos + left.moved + op.moved,
        expression(toks, pos + left.moved + op.moved),
    );
    chain(left, chain(op, right))
}

/// `read_stmt := 'read' '(' ident ')'` and `write_stmt := 'write' '(' ident
/// ')'`: `keyword` is the reserved word and `kind` the diagnostic for its
/// absence.
#[verifier::opaque]
pub open spec fn call_statement(
    toks: Seq<Lexeme>,
    pos: int,
    keyword: Lexeme,
    kind: ErrorMessage,
) -> Step {
    let word = expect(toks, pos, keyword, kind);
    let open = expect(
        toks,
        pos + word.moved,
        Lexeme::LeftParenthesis,
        ErrorMessage::MissingLeftParenthesis,
    );
    let var = retry(
        toks,
        pos + word.moved + open.moved,
        identifier(toks, pos + word.moved + open.moved),
    );
    let close = expect(
        toks,
        pos + word.moved + open.moved + var.moved,
        Lexeme::RightParenthesis,
        ErrorMessage::MissingRightParenthesis,
    );
    chain(word, chain(open, chain(var, close)))
}

/// `read_stmt := 'read' '(' ident ')'`
pub open spec fn read_statement(toks: Seq<Lexeme>, pos: int) -> Step {
    call_statement(toks, pos, Lexeme::Read, ErrorMessage::WrongReserveYouMeanRead)
}

/// `write_stmt := 'write' '(' ident ')'`
pub open spec fn write_statement(toks: Seq<Lexeme>, pos: int) -> Step {
    call_statement(toks, pos, Lexeme::Write, ErrorMessage::WrongReserveYouMeanWrite)
}

/// `assign_stmt := ident ':=' expr`
#[verifier::opaque]
pub open spec fn assignment_statement(toks: Seq<Lexeme>, pos: int) -> Step {
    let var = retry(toks, pos, identifier(toks, pos));
    let assign = expect(toks, pos + var.moved, Lexeme::Assign, ErrorMessage::WrongAssignToken);
    if var.failure is None && assign.failure is None {
        let value = retry(
            toks,
            pos + var.moved + assign.moved,
            expression(toks, pos + var.moved + assign.moved),
        );
        chain(var, chain(assign, value))
    } else {
        chain(var, assign)
    }
}

/// `if_stmt := 'if' condition 'then' exec_stmt 'else' exec_stmt`
#[verifier::opaque]
pub open spec fn conditional_statement(toks: Seq<Lexeme>, pos: int) -> Step
    decreases remaining(toks, pos), 5int,
{
    let word = expect(toks, pos, Lexeme::If, ErrorMessage::MissingIf);
    if word.failure is Some {
        word
    } else {
        let pos1 = pos + word.moved;
        let cond = retry(toks, pos1, condition(toks, pos1));
        let then_word = expect(toks, pos1 + cond.moved, Lexeme::Then, ErrorMessage::MissingThen);
        let pos2 = pos1 + cond.moved + then_word.moved;
        let first = retry(toks, pos2, execution_statement(toks, pos2));
        let else_word = expect(toks, pos2 + first.moved, Lexeme::Else, ErrorMessage::MissingElse);
        let pos3 = pos2 + first.moved + else_word.moved;
        let second = retry(toks, pos3, execution_statement(toks, pos3));
        chain(word, chain(cond, chain(then_word, chain(first, chain(else_word, second)))))
    }
}

/// The rule for a conditional statement, spelled out.
pub proof fn lemma_conditional_statement_unfold(toks: Seq<Lexeme>, pos: int)
    ensures
        conditional_statement(toks, pos) == ({
            let word = expect(toks, pos, Lexeme::If, ErrorMessage::MissingIf);
            if word.failure is Some {
                word
            } else {
                let pos1 = pos + word.moved;
                let cond = retry(toks, pos1, condition(toks, pos1));
                let then_word = expect(
                    toks,
                    pos1 + cond.moved,
                    Lexeme::Then,
                    ErrorMessage::MissingThen,
                );
                let pos2 = pos1 + cond.moved + then_word.moved;
                let first = retry(toks, pos2, execution_statement(toks, pos2));
                let else_word = expect(
                    toks,
                    pos2 + first.moved,
                    Lexeme::Else,
                    ErrorMessage::MissingElse,
                );
                let pos3 = pos2 + first.moved + else_word.moved;
                let second = retry(toks, pos3, execution_statement(toks, pos3));
                chain(word, chain(cond, chain(then_word, chain(first, chain(else_word, second)))))
            }
        }),
{
    reveal(conditional_statement);
    reveal(execution_statement);
}

/// `exec_stmt := read_stmt | write_stmt | if_stmt | assign_stmt`
#[verifier::opaque]
pub open spec fn execution_statement(toks: Seq<Lexeme>, pos: int) -> Step
    decreases remaining(toks, pos), 6int,
{
    match current(toks, pos) {
        Lexeme::Read => read_statement(toks, pos),
        Lexeme::Write => write_statement(toks, pos),
        Lexeme::If => conditional_statement(toks, pos),
        Lexeme::Identifier(_) => assignment_statement(toks, pos),
        _ => fail(toks, pos, ErrorMessage::SyntaxError),
    }
}

/// The rule for a statement, spelled out.
pub proof fn lemma_execution_statement_unfold(toks: Seq<Lexeme>, pos: int)
    ensures
        execution_statement(toks, pos) == ({
            match current(toks, pos) {
                Lexeme::Read => read_statement(toks, pos),
                Lexeme::Write => write_statement(toks, pos),
                Lexeme::If => conditional_statement(toks, pos),
                Lexeme::Identifier(_) => assignment_statement(toks, pos),
                _ => fail(toks, pos, ErrorMessage::SyntaxError),
            }
        }),
{
    reveal(execution_statement);
    reveal(conditional_statement);
}

/// Whether a statement can begin with the token.
pub open spec fn starts_statement(tok: Lexeme) -> bool {
    tok == Lexeme::Read || tok == Lexeme::Write || tok == Lexeme::If || tok is Identifier
}

/// Whether the token can follow the statements of a block.
pub open spec fn ends_statements(tok: Lexeme) -> bool {
    tok == Lexeme::End || tok == Lexeme::Eof
}

/// `exec_table := { exec_stmt ';' }`, up to a token that no statement
/// begins with: `end` and the end of the text close the table, any other
/// token is a syntax error.
#[verifier::opaque]
pub open spec fn execution_statement_table(toks: Seq<Lexeme>, pos: int) -> Step
    decreases remaining(toks, pos), 7int,
{
    if starts_statement(current(toks, pos)) {
        let stmt = retry(toks, pos, execution_statement(toks, pos));
        let semi = expect(
            toks,
            pos + stmt.moved,
            Lexeme::Semicolon,
            ErrorMessage::MissingSemicolon,
        );
        if stmt.failure is None && semi.failure is None {
            chain(
                stmt,
                chain(semi, execution_statement_table(toks, pos + stmt.moved + semi.moved)),
            )
        } else {
            chain(stmt, semi)
        }
    } else if ends_statements(current(toks, pos)) {
        done(0)
    } else {
        fail(toks, pos, ErrorMessage::SyntaxError)
    }
}

/// The rule for the statements of a block, spelled out.
pub proof fn lemma_execution_statement_table_unfold(toks: Seq<Lexeme>, pos: int)
    ensures
        execution_statement_table(toks, pos) == ({
            if starts_statement(current(toks, pos)) {
                let stmt = retry(toks, pos, execution_statement(toks, pos));
                let semi = expect(
                    toks,
                    pos + stmt.moved,
                    Lexeme::Semicolon,
                    ErrorMessage::MissingSemicolon,
                );
                if stmt.failure is None && semi.failure is None {
                    chain(
                        stmt,
                        chain(semi, execution_statement_table(toks, pos + stmt.moved + semi.moved)),
                    )
                } else {
                    chain(stmt, semi)
                }
            } else if ends_statements(current(toks, pos)) {
                done(0)
            } else {
                fail(toks, pos, ErrorMessage::SyntaxError)
            }
        }),
{
    reveal(execution_statement_table);
}

/// The innermost scope after it has declared the variable `name`.
pub open spec fn with_variable(scopes: Seq<Scope>, name: Seq<char>) -> Seq<Scope> {
    scopes.update(
        scopes.len() - 1,
        Scope {
            variables: scopes.last().variables.insert(
                name,
                VariableEntry {
                    name,
                    owner: "F"@,
                    kind: 0,
                    level: scopes.last().level,
                    vtype: Seq::empty(),
                },
            ),
            ..scopes.last()
        },
    )
}

/// The innermost scope after it has declared the procedure `name`.
pub open spec fn with_procedure(scopes: Seq<Scope>, name: Seq<char>) -> Seq<Scope> {
    scopes.update(
        scopes.len() - 1,
        Scope {
            procedures: scopes.last().procedures.insert(
                name,
                ProcedureEntry { name, ptype: Seq::empty(), level: scopes.last().level },
            ),
            ..scopes.last()
        },
    )
}

/// One declaring step after another: the second counts only if the first
/// matched.
pub open spec fn chain_decl(first: Step, second: Decl) -> Decl {
    Decl { step: chain(first, second.step), scopes: second.scopes }
}

/// `block := 'begin' decl_table exec_table 'end'`. The block opens a scope
/// for what it declares and closes it behind its `end`; a block that fails
/// leaves its scope open.
#[verifier::opaque]
pub open spec fn block(toks: Seq<Lexeme>, pos: int, scopes: Seq<Scope>) -> Decl
    decreases remaining(toks, pos), 0int,
{
    let word = expect(toks, pos, Lexeme::Begin, ErrorMessage::SyntaxErrorExpectedABlock);
    if word.failure is Some {
        Decl { step: word, scopes }
    } else {
        let inner = scopes.push(empty_scope(scopes.len() as i32));
        let pos1 = pos + word.moved;
        let decls = declaration_statement_table(toks, pos1, inner);
        let d = retry(toks, pos1, decls.step);
        let stmts = retry(toks, pos1 + d.moved, execution_statement_table(toks, pos1 + d.moved));
        let end = expect(
            toks,
            pos1 + d.moved + stmts.moved,
            Lexeme::End,
            ErrorMessage::MissingEnd,
        );
        let step = chain(word, chain(d, chain(stmts, end)));
        Decl {
            step,
            scopes: if step.failure is None {
                decls.scopes.drop_last()
            } else {
                decls.scopes
            },
        }
    }
}

/// The rule for a block, spelled out.
pub proof fn lemma_block_unfold(toks: Seq<Lexeme>, pos: int, scopes: Seq<Scope>)
    ensures
        block(toks, pos, scopes) == ({
            let word = expect(toks, pos, Lexeme::Begin, ErrorMessage::SyntaxErrorExpectedABlock);
            if word.failure is Some {
                Decl { step: word, scopes }
            } else {
                let inner = scopes.push(empty_scope(scopes.len() as i32));
                let pos1 = pos + word.moved;
                let decls = declaration_statement_table(toks, pos1, inner);
                let d = retry(toks, pos1, decls.step);
                let stmts = retry(
                    toks,
                    pos1 + d.moved,
                    execution_statement_table(toks, pos1 + d.moved),
                );
                let end = expect(
                    toks,
                    pos1 + d.moved + stmts.moved,
                    Lexeme::End,
                    ErrorMessage::MissingEnd,
                );
                let step = chain(word, chain(d, chain(stmts, end)));
                Decl {
                    step,
                    scopes: if step.failure is None {
                        decls.scopes.drop_last()
                    } else {
                        decls.scopes
                    },
                }
            }
        }),
{
    reveal(block);
    reveal(declaration_statement_table);
}

/// `function_body := block`
#[verifier::opaque]
pub open spec fn function_body(toks: Seq<Lexeme>, pos: int, scopes: Seq<Scope>) -> Decl
    decreases remaining(toks, pos), 1int,
{
    block(toks, pos, scopes)
}

/// The rule for the body of a function, spelled out.
pub proof fn lemma_function_body_unfold(toks: Seq<Lexeme>, pos: int, scopes: Seq<Scope>)
    ensures
        function_body(toks, pos, scopes) == ({
            block(toks, pos, scopes)
        }),
{
    reveal(function_body);
    reveal(block);
}

/// `decl_tail := ident | 'function' ident '(' expr ')' ';' function_body`.
/// The name is entered in the innermost scope unless that scope has it
/// already, which is an error.
#[verifier::opaque]
pub open spec fn declaration_statement_prime(
    toks: Seq<Lexeme>,
    pos: int,
    scopes: Seq<Scope>,
) -> Decl
    decreases remaining(toks, pos), 0int,
{
    if current(toks, pos) == Lexeme::Function {
        let word = done(stride(toks, pos));
        let pos1 = pos + word.moved;
        let name = retry(toks, pos1, identifier(toks, pos1));
        let pos2 = pos1 + name.moved;
        if name.failure is Some {
            Decl { step: chain(word, name), scopes }
        } else if declares(scopes.last(), name_at(toks, pos1)) {
            Decl {
                step: chain(
                    word,
                    chain(name, fail(toks, pos2, ErrorMessage::FoundRepeatDeclarationInThisField)),
                ),
                scopes,
            }
        } else {
            let declared = with_procedure(scopes, name_at(toks, pos1));
            let open = expect(
                toks,
                pos2,
                Lexeme::LeftParenthesis,
                ErrorMessage::MissingLeftParenthesis,
            );
            let arg = retry(toks, pos2 + open.moved, parameter(toks, pos2 + open.moved));
            let close = expect(
                toks,
                pos2 + open.moved + arg.moved,
                Lexeme::RightParenthesis,
                ErrorMessage::MissingRightParenthesis,
            );
            let semi = expect(
                toks,
                pos2 + open.moved + arg.moved + close.moved,
                Lexeme::Semicolon,
                ErrorMessage::MissingSemicolon,
            );
            let head = chain(word, chain(name, chain(open, chain(arg, chain(close, semi)))));
            if head.failure is Some {
                Decl { step: head, scopes: declared }
            } else {
                let body = function_body(toks, pos + head.moved, declared);
                Decl {
                    step: chain(head, retry(toks, pos + head.moved, body.step)),
                    scopes: body.scopes,
                }
            }
        }
    } else {
        let name = retry(toks, pos, identifier(toks, pos));
        if name.failure is Some {
            Decl { step: name, scopes }
        } else if declares(scopes.last(), name_at(toks, pos)) {
            Decl {
                step: chain(
                    name,
                    fail(
                        toks,
                        pos + name.moved,
                        ErrorMessage::FoundRepeatDeclarationInThisField,
                    ),
                ),
                scopes,
            }
        } else {
            Decl { step: name, scopes: with_variable(scopes, name_at(toks, pos)) }
        }
    }
}

/// The rule for the tail of a declaration, spelled out.
pub proof fn lemma_declaration_statement_prime_unfold(
    toks: Seq<Lexeme>,
    pos: int,
    scopes: Seq<Scope>,
)
    ensures
        declaration_statement_prime(toks, pos, scopes) == ({
            if current(toks, pos) == Lexeme::Function {
                let word = done(stride(toks, pos));
                let pos1 = pos + word.moved;
                let name = retry(toks, pos1, identifier(toks, pos1));
                let pos2 = pos1 + name.moved;
                if name.failure is Some {
                    Decl { step: chain(word, name), scopes }
                } else if declares(scopes.last(), name_at(toks, pos1)) {
                    Decl {
                        step: chain(
                            word,
                            chain(
                                name,
                                fail(toks, pos2, ErrorMessage::FoundRepeatDeclarationInThisField),
                            ),
                        ),
                        scopes,
                    }
                } else {
                    let declared = with_procedure(scopes, name_at(toks, pos1));
                    let open = expect(
                        toks,
                        pos2,
                        Lexeme::LeftParenthesis,
                        ErrorMessage::MissingLeftParenthesis,
                    );
                    let arg = retry(toks, pos2 + open.moved, parameter(toks, pos2 + open.moved));
                    let close = expect(
                        toks,
                        pos2 + open.moved + arg.moved,
                        Lexeme::RightParenthesis,
                        ErrorMessage::MissingRightParenthesis,
                    );
                    let semi = expect(
                        toks,
                        pos2 + open.moved + arg.moved + close.moved,
                        Lexeme::Semicolon,
                        ErrorMessage::MissingSemicolon,
                    );
                    let head = chain(
                        word,
                        chain(name, chain(open, chain(arg, chain(close, semi)))),
                    );
                    if head.failure is Some {
                        Decl { step: head, scopes: declared }
                    } else {
                        let body = function_body(toks, pos + head.moved, declared);
                        Decl {
                            step: chain(head, retry(toks, pos + head.moved, body.step)),
                            scopes: body.scopes,
                        }
                    }
                }
            } else {
                let name = retry(toks, pos, identifier(toks, pos));
                if name.failure is Some {
                    Decl { step: name, scopes }
                } else if declares(scopes.last(), name_at(toks, pos)) {
                    Decl {
                        step: chain(
                            name,
                            fail(
                                toks,
                                pos + name.moved,
                                ErrorMessage::FoundRepeatDeclarationInThisField,
                            ),
                        ),
                        scopes,
                    }
                } else {
                    Decl { step: name, scopes: with_variable(scopes, name_at(toks, pos)) }
                }
            }
        }),
{
    reveal(declaration_statement_prime);
    reveal(function_body);
}

/// `decl := 'integer' decl_tail`
#[verifier::opaque]
pub open spec fn declaration_statement(toks: Seq<Lexeme>, pos: int, scopes: Seq<Scope>) -> Decl
    decreases remaining(toks, pos), 1int,
{
    let word = expect(toks, pos, Lexeme::Integer, ErrorMessage::InvalidTypeExpectedInterger);
    if word.failure is Some {
        Decl { step: word, scopes }
    } else {
        chain_decl(word, declaration_statement_prime(toks, pos + word.moved, scopes))
    }
}

/// The rule for a declaration, spelled out.
pub proof fn lemma_declaration_statement_unfold(toks: Seq<Lexeme>, pos: int, scopes: Seq<Scope>)
    ensures
        declaration_statement(toks, pos, scopes) == ({
            let word = expect(
                toks,
                pos,
                Lexeme::Integer,
                ErrorMessage::InvalidTypeExpectedInterger,
            );
            if word.failure is Some {
                Decl { step: word, scopes }
            } else {
                chain_decl(word, declaration_statement_prime(toks, pos + word.moved, scopes))
            }
        }),
{
    reveal(declaration_statement);
    reveal(declaration_statement_prime);
}

/// Whether the token can follow the declarations of a block.
pub open spec fn ends_declarations(tok: Lexeme) -> bool {
    starts_statement(tok) || ends_statements(tok)
}

/// `decl_table := { decl ';' }`, up to a token other than `integer`: one
/// that a statement begins with, `end` and the end of the text close the
/// table, any other token is a syntax error.
#[verifier::opaque]
pub open spec fn declaration_statement_table(
    toks: Seq<Lexeme>,
    pos: int,
    scopes: Seq<Scope>,
) -> Decl
    decreases remaining(toks, pos), 2int,
{
    if current(toks, pos) == Lexeme::Integer {
        let decl = declaration_statement(toks, pos, scopes);
        let d = retry(toks, pos, decl.step);
        let semi = expect(toks, pos + d.moved, Lexeme::Semicolon, ErrorMessage::MissingSemicolon);
        if d.failure is None && semi.failure is None {
            chain_decl(
                chain(d, semi),
                declaration_statement_table(toks, pos + d.moved + semi.moved, decl.scopes),
            )
        } else {
            Decl { step: chain(d, semi), scopes: decl.scopes }
        }
    } else if ends_declarations(current(toks, pos)) {
        Decl { step: done(0), scopes }
    } else {
        Decl { step: fail(toks, pos, ErrorMessage::SyntaxError), scopes }
    }
}

/// The rule for the declarations of a block, spelled out.
pub proof fn lemma_declaration_statement_table_unfold(
    toks: Seq<Lexeme>,
    pos: int,
    scopes: Seq<Scope>,
)
    ensures
        declaration_statement_table(toks, pos, scopes) == ({
            if current(toks, pos) == Lexeme::Integer {
                let decl = declaration_statement(toks, pos, scopes);
                let d = retry(toks, pos, decl.step);
                let semi = expect(
                    toks,
                    pos + d.moved,
                    Lexeme::Semicolon,
                    ErrorMessage::MissingSemicolon,
                );
                if d.failure is None && semi.failure is None {
                    chain_decl(
                        chain(d, semi),
                        declaration_statement_table(toks, pos + d.moved + semi.moved, decl.scopes),
                    )
                } else {
                    Decl { step: chain(d, semi), scopes: decl.scopes }
                }
            } else if ends_declarations(current(toks, pos)) {
                Decl { step: done(0), scopes }
            } else {
                Decl { step: fail(toks, pos, ErrorMessage::SyntaxError), scopes }
            }
        }),
{
    reveal(declaration_statement_table);
    reveal(declaration_statement);
}

/// No more end-of-line tokens lie before a position than tokens do.
pub proof fn lemma_eols_bound(toks: Seq<Lexeme>, pos: int)
    requires
        0 <= pos <= toks.len(),
    ensures
        eols_before(toks, pos) <= pos,
    decreases pos,
{
    if pos > 0 {
        lemma_eols_bound(toks, pos - 1);
    }
}

/// What a block does to the scopes: those that were open stay as they
/// were, and a block that matches leaves no scope of its own open.
pub proof fn lemma_block_scopes(toks: Seq<Lexeme>, pos: int, scopes: Seq<Scope>)
    ensures
        block(toks, pos, scopes).scopes.len() >= scopes.len(),
        block(toks, pos, scopes).scopes.take(scopes.len() as int) == scopes,
        block(toks, pos, scopes).step.failure is None ==> block(toks, pos, scopes).scopes == scopes,
    decreases remaining(toks, pos), 0int,
{
    reveal(block);
    reveal(declaration_statement_table);
    let word = expect(toks, pos, Lexeme::Begin, ErrorMessage::SyntaxErrorExpectedABlock);
    if word.failure is Some {
        assert(scopes.take(scopes.len() as int) =~= scopes);
    } else {
        let inner = scopes.push(empty_scope(scopes.len() as i32));
        let pos1 = pos + word.moved;
        lemma_declaration_table_scopes(toks, pos1, inner);
        let decls = declaration_statement_table(toks, pos1, inner);
        assert(inner.take(inner.len() - 1) =~= scopes);
        assert(decls.scopes.take(scopes.len() as int) =~= decls.scopes.take(inner.len() - 1));
        if block(toks, pos, scopes).step.failure is None {
            assert(decls.step.failure is None);
            assert(decls.scopes.drop_last() =~= decls.scopes.take(inner.len() - 1));
        } else {
            assert(decls.scopes.take(scopes.len() as int) =~= scopes);
        }
    }
}

/// What the tail of a declaration does to the scopes: those around the
/// innermost one stay as they were, and a tail that matches opens none.
pub proof fn lemma_declaration_prime_scopes(toks: Seq<Lexeme>, pos: int, scopes: Seq<Scope>)
    requires
        scopes.len() > 0,
    ensures
        declaration_statement_prime(toks, pos, scopes).scopes.len() >= scopes.len(),
        declaration_statement_prime(toks, pos, scopes).scopes.take(scopes.len() - 1)
            == scopes.take(scopes.len() - 1),
        declaration_statement_prime(toks, pos, scopes).step.failure is None
            ==> declaration_statement_prime(toks, pos, scopes).scopes.len() == scopes.len(),
    decreases remaining(toks, pos), 0int,
{
    reveal(declaration_statement_prime);
    reveal(function_body);
    reveal(block);
    let outer = scopes.take(scopes.len() - 1);
    if current(toks, pos) == Lexeme::Function {
        let word = done(stride(toks, pos));
        let pos1 = pos + word.moved;
        let name = retry(toks, pos1, identifier(toks, pos1));
        let pos2 = pos1 + name.moved;
        if name.failure is None && !declares(scopes.last(), name_at(toks, pos1)) {
            let declared = with_procedure(scopes, name_at(toks, pos1));
            assert(declared.take(scopes.len() - 1) =~= outer);
            let open = expect(
                toks,
                pos2,
                Lexeme::LeftParenthesis,
                ErrorMessage::MissingLeftParenthesis,
            );
            let arg = retry(toks, pos2 + open.moved, parameter(toks, pos2 + open.moved));
            let close = expect(
                toks,
                pos2 + open.moved + arg.moved,
                Lexeme::RightParenthesis,
                ErrorMessage::MissingRightParenthesis,
            );
            let semi = expect(
                toks,
                pos2 + open.moved + arg.moved + close.moved,
                Lexeme::Semicolon,
                ErrorMessage::MissingSemicolon,
            );
            let head = chain(word, chain(name, chain(open, chain(arg, chain(close, semi)))));
            if head.failure is None {
                lemma_block_scopes(toks, pos + head.moved, declared);
                let body = function_body(toks, pos + head.moved, declared);
                assert(body.scopes.take(scopes.len() - 1) =~= body.scopes.take(
                    declared.len() as int,
                ).take(scopes.len() - 1));
            }
        }
    } else {
        let name = retry(toks, pos, identifier(toks, pos));
        if name.failure is None && !declares(scopes.last(), name_at(toks, pos)) {
            assert(with_variable(scopes, name_at(toks, pos)).take(scopes.len() - 1) =~= outer);
        }
    }
}

/// What a declaration does to the scopes: those around the innermost one
/// stay as they were, and a declaration that matches opens none.
pub proof fn lemma_declaration_scopes(toks: Seq<Lexeme>, pos: int, scopes: Seq<Scope>)
    requires
        scopes.len() > 0,
    ensures
        declaration_statement(toks, pos, scopes).scopes.len() >= scopes.len(),
        declaration_statement(toks, pos, scopes).scopes.take(scopes.len() - 1) == scopes.take(
            scopes.len() - 1,
        ),
        declaration_statement(toks, pos, scopes).step.failure is None ==> declaration_statement(
            toks,
            pos,
            scopes,
        ).scopes.len() == scopes.len(),
    decreases remaining(toks, pos), 1int,
{
    reveal(declaration_statement);
    reveal(declaration_statement_prime);
    let word = expect(toks, pos, Lexeme::Integer, ErrorMessage::InvalidTypeExpectedInterger);
    if word.failure is None {
        lemma_declaration_prime_scopes(toks, pos + word.moved, scopes);
    }
}

/// What the declarations of a block do to the scopes: those around the
/// innermost one stay as they were, and declarations that match open none.
pub proof fn lemma_declaration_table_scopes(toks: Seq<Lexeme>, pos: int, scopes: Seq<Scope>)
    requires
        scopes.len() > 0,
    ensures
        declaration_statement_table(toks, pos, scopes).scopes.len() >= scopes.len(),
        declaration_statement_table(toks, pos, scopes).scopes.take(scopes.len() - 1)
            == scopes.take(scopes.len() - 1),
        declaration_statement_table(toks, pos, scopes).step.failure is None
            ==> declaration_statement_table(toks, pos, scopes).scopes.len() == scopes.len(),
    decreases remaining(toks, pos), 2int,
{
    reveal(declaration_statement_table);
    reveal(declaration_statement);
    if current(toks, pos) == Lexeme::Integer {
        lemma_declaration_scopes(toks, pos, scopes);
        let decl = declaration_statement(toks, pos, scopes);
        let d = retry(toks, pos, decl.step);
        let semi = expect(toks, pos + d.moved, Lexeme::Semicolon, ErrorMessage::MissingSemicolon);
        if d.failure is None && semi.failure is None {
            lemma_declaration_table_scopes(toks, pos + d.moved + semi.moved, decl.scopes);
            let rest = declaration_statement_table(toks, pos + d.moved + semi.moved, decl.scopes);
            assert(rest.scopes.take(scopes.len() - 1) =~= rest.scopes.take(
                decl.scopes.len() - 1,
            ).take(scopes.len() - 1));
            assert(decl.scopes.take(scopes.len() - 1) =~= decl.scopes.take(
                decl.scopes.len() - 1,
            ).take(scopes.len() - 1));
        }
    }
}

/// `program := block`
pub open spec fn program(toks: Seq<Lexeme>, pos: int, scopes: Seq<Scope>) -> Decl {
    block(toks, pos, scopes)
}

/// The analysis of a token sequence from `pos` on: the end-of-line tokens
/// at `pos` are passed over, and a program is wanted behind them.
pub open spec fn analysis(toks: Seq<Lexeme>, pos: int, scopes: Seq<Scope>) -> Decl {
    chain_decl(done(eol_run(toks, pos)), program(toks, pos + eol_run(toks, pos), scopes))
}

} // verus!
