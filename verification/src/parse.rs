//! The parser: recursive descent over the token sequence, one function for
//! each rule of the grammar, with the scopes of the symbol environment
//! opened and closed as blocks are entered and left.

use vstd::prelude::*;
use crate::env::Env;
use crate::grammar::{
    analysis, assignment_statement, block, call_statement, chain, condition, conditional_statement,
    current, declaration_statement, declaration_statement_prime, declaration_statement_table, done,
    eol_run, execution_statement, execution_statement_table, expect, expression, expression_prime,
    factor, factor_suffix, fail, function_body, identifier, lemma_block_scopes, lemma_block_unfold,
    lemma_conditional_statement_unfold, lemma_declaration_scopes,
    lemma_declaration_statement_prime_unfold, lemma_declaration_statement_table_unfold,
    lemma_declaration_statement_unfold, lemma_declaration_table_scopes, lemma_eols_bound,
    lemma_execution_statement_table_unfold, lemma_execution_statement_unfold,
    lemma_expression_prime_unfold, lemma_expression_unfold, lemma_factor_suffix_unfold,
    lemma_factor_unfold, lemma_function_body_unfold, lemma_parameter_unfold,
    lemma_term_prime_unfold, lemma_term_unfold, line_at, name_at, parameter, program,
    read_statement, recover_by, relational_operator, remaining, retry, stride, term, term_prime,
    verdict, write_statement, Step,
};
use crate::report::{
    companion_path, file_entry, file_line, parse_console_entry, parse_console_line, sink, sink_of,
    Diagnostic, Report, Sink,
};
use crate::single_shot::{gave_up, lemma_analysis_is_single_shot};
use crate::token::{ErrorMessage, Lexeme, Token};

verus! {

/// The parser: the token sequence, the cursor into it, the line that the
/// cursor is on, and the diagnostics reported so far.
pub struct Parser {
    /// The token sequence.
    pub stream: Vec<Token>,
    /// The cursor: the position of the token to be read next.
    pub pos: usize,
    /// The line of the cursor, counted from one.
    pub line: usize,
    /// The mode of the run, which names the sink of the diagnostics.
    pub mode: &'static str,
    /// The name of the program, from which the names of its files derive.
    pub name: String,
    /// The diagnostics reported so far.
    pub reports: Vec<Diagnostic>,
}

impl Parser {
    /// The token sequence.
    pub open spec fn tokens(&self) -> Seq<Lexeme> {
        self.stream.deep_view()
    }

    /// The diagnostics reported so far.
    pub open spec fn reported(&self) -> Seq<Report> {
        self.reports.deep_view()
    }

    /// The cursor lies in the token sequence, the line is the line of the
    /// cursor, and the count of lines fits the machine.
    pub open spec fn wf(&self) -> bool {
        &&& self.pos <= self.stream.len()
        &&& self.stream.len() < usize::MAX
        &&& self.line == line_at(self.tokens(), self.pos as int)
    }

    /// `self` is `before` after the step `step`: the cursor has moved on and
    /// the diagnostics were added to the reports; the tokens are the same.
    pub open spec fn stepped(&self, before: &Parser, step: Step) -> bool {
        &&& self.wf()
        &&& self.stream == before.stream
        &&& self.mode == before.mode
        &&& self.name == before.name
        &&& self.pos == before.pos + step.moved
        &&& self.reports.deep_view() =~= before.reports.deep_view() + step.reports
    }

    /// A parser at the first token of `s`, on line one, with nothing
    /// reported.
    pub fn new(s: Vec<Token>, mode: &'static str, name: String) -> (p: Self)
        ensures
            p.stream == s,
            p.pos == 0,
            p.line == 1,
            p.mode == mode,
            p.name == name,
            p.reported() == Seq::<Report>::empty(),
            s.len() < usize::MAX ==> p.wf(),
    {
        let p = Parser { stream: s, pos: 0, line: 1, mode, name, reports: Vec::new() };
        assert(p.reports.deep_view() =~= Seq::<Report>::empty());
        p
    }

    /// The diagnostics reported so far.
    pub fn get_errors(&self) -> (errors: Vec<Diagnostic>)
        ensures
            errors.deep_view() == self.reported(),
    {
        self.reports.clone()
    }

    /// Where the diagnostics of this run go.
    pub fn get_sink(&self) -> (s: Sink)
        ensures
            s == sink_of(self.mode@),
    {
        sink(self.mode)
    }

    /// The name of the file that takes the diagnostics: the program's name
    /// with the extension `err`.
    pub fn error_path(&self) -> (path: String)
        ensures
            path@ == self.name@ + "."@ + "err"@,
    {
        companion_path(self.name.as_str(), "err")
    }

    /// The lines that the console shows for a diagnostic.
    pub fn console_error(&self, d: &Diagnostic) -> (text: String)
        ensures
            text@ == parse_console_line(d@),
    {
        parse_console_entry(d)
    }

    /// The entry of a diagnostic in the error file.
    pub fn file_error(&self, d: &Diagnostic) -> (text: String)
        ensures
            text@ == file_line(d@),
    {
        file_entry(d)
    }

    /// Analyses the token sequence from the cursor on: the end-of-line tokens
    /// at the cursor are passed over, and behind them a program is wanted.
    /// The result is the first failure, if there is one.
    pub fn analyse(&mut self, env: &mut Env) -> (r: Result<(), ErrorMessage>)
        requires
            old(self).wf(),
        ensures
            final(self).wf(),
            final(self).stream == old(self).stream,
            final(self).mode == old(self).mode,
            final(self).name == old(self).name,
            r == verdict(analysis(old(self).tokens(), old(self).pos as int, old(env)@).step),
            final(self).pos == old(self).pos + analysis(
                old(self).tokens(),
                old(self).pos as int,
                old(env)@,
            ).step.moved,
            final(self).reported() == old(self).reported() + analysis(
                old(self).tokens(),
                old(self).pos as int,
                old(env)@,
            ).step.reports,
            final(env)@ == analysis(old(self).tokens(), old(self).pos as int, old(env)@).scopes,
            old(env).wf() ==> final(env).wf(),
            r is Ok ==> final(env)@ == old(env)@ && final(self).reported() == old(self).reported(),
            r is Err ==> final(self).reported().len() > old(self).reported().len() && gave_up(
                final(self).tokens(),
                final(self).pos as int,
            ),
    {
        proof {
            lemma_analysis_is_single_shot(self.tokens(), self.pos as int, env@);
        }
        self.skip_eols();
        proof {
            lemma_block_scopes(self.tokens(), self.pos as int, env@);
        }
        self.parse_node_program(env)
    }

    /// Passes over the end-of-line tokens at the cursor.
    fn skip_eols(&mut self)
        requires
            old(self).wf(),
        ensures
            final(self).stepped(old(self), done(eol_run(old(self).tokens(), old(self).pos as int))),
    {
        while self.pos < self.stream.len() && self.at_eol()
            invariant
                self.wf(),
                self.stream == old(self).stream,
                self.mode == old(self).mode,
                self.name == old(self).name,
                self.reports == old(self).reports,
                self.pos + eol_run(self.tokens(), self.pos as int) == old(self).pos + eol_run(
                    old(self).tokens(),
                    old(self).pos as int,
                ),
            decreases self.stream.len() - self.pos,
        {
            proof {
                lemma_eols_bound(self.tokens(), self.pos as int);
            }
            self.line = self.line + 1;
            self.pos = self.pos + 1;
        }
    }

    /// Whether the token under the cursor is an end-of-line token.
    fn at_eol(&self) -> (b: bool)
        requires
            self.pos < self.stream.len(),
        ensures
            b == (self.tokens()[self.pos as int] == Lexeme::Eol),
    {
        match &self.stream[self.pos] {
            Token::Eol => true,
            _ => false,
        }
    }

    /// The token under the cursor; behind the last token, the end of the
    /// text.
    fn current_token(&self) -> (tk: Token)
        ensures
            tk@ == current(self.tokens(), self.pos as int),
    {
        if self.pos >= self.stream.len() {
            Token::Eof
        } else {
            self.stream[self.pos].clone()
        }
    }

    /// Moves the cursor over the token under it and over the end-of-line
    /// tokens behind that one, counting the lines.
    fn advance(&mut self)
        requires
            old(self).wf(),
        ensures
            final(self).stepped(old(self), done(stride(old(self).tokens(), old(self).pos as int))),
    {
        if self.pos >= self.stream.len() {
            return ;
        }
        if self.at_eol() {
            proof {
                lemma_eols_bound(self.tokens(), self.pos as int);
            }
            self.line = self.line + 1;
        }
        self.pos = self.pos + 1;
        self.skip_eols();
    }

    /// Whether the token under the cursor is `tk`.
    fn match_token(&self, tk: Token) -> (b: bool)
        ensures
            b == (current(self.tokens(), self.pos as int) == tk@),
    {
        self.current_token() == tk
    }

    /// Records a diagnostic on the current line.
    fn error(&mut self, errmsg: ErrorMessage)
        requires
            old(self).wf(),
        ensures
            final(self).stepped(
                old(self),
                Step {
                    failure: None,
                    moved: 0,
                    reports: seq![
                        Report {
                            line: line_at(old(self).tokens(), old(self).pos as int),
                            kind: errmsg,
                        },
                    ],
                },
            ),
    {
        let d = Diagnostic { line: self.line, kind: errmsg };
        self.reports.push(d);
        assert(self.reports.deep_view() =~= old(self).reports.deep_view().push(d@));
    }

    /// Gives up the rest of the input: the cursor advances until it stands
    /// on an end-of-line or end-of-text token.
    fn skip_bad_line(&mut self)
        requires
            old(self).wf(),
        ensures
            final(self).stepped(
                old(self),
                done(recover_by(old(self).tokens(), old(self).pos as int)),
            ),
    {
        loop
            invariant
                self.wf(),
                self.stream == old(self).stream,
                self.mode == old(self).mode,
                self.name == old(self).name,
                self.reports.deep_view() == old(self).reports.deep_view(),
                self.pos + recover_by(self.tokens(), self.pos as int) == old(self).pos
                    + recover_by(old(self).tokens(), old(self).pos as int),
            decreases remaining(self.tokens(), self.pos as int),
        {
            if self.pos >= self.stream.len() {
                return ;
            }
            match &self.stream[self.pos] {
                Token::Eol => {
                    return ;
                },
                Token::Eof => {
                    return ;
                },
                _ => {},
            }
            self.advance();
        }
    }

    /// Reports the failure `errmsg`, gives up the rest of the input, and
    /// hands the failure back.
    fn handle_error(&mut self, errmsg: ErrorMessage) -> (r: Result<(), ErrorMessage>)
        requires
            old(self).wf(),
        ensures
            r == Err::<(), ErrorMessage>(errmsg),
            final(self).stepped(
                old(self),
                fail(old(self).tokens(), old(self).pos as int, errmsg),
            ),
    {
        self.error(errmsg);
        self.skip_bad_line();
        Err(errmsg)
    }

    /// Wants the token `tk` under the cursor: advances over it, or reports
    /// `errmsg`.
    fn expect(&mut self, tk: Token, errmsg: ErrorMessage) -> (r: Result<(), ErrorMessage>)
        requires
            old(self).wf(),
        ensures
            r == verdict(expect(old(self).tokens(), old(self).pos as int, tk@, errmsg)),
            final(self).stepped(
                old(self),
                expect(old(self).tokens(), old(self).pos as int, tk@, errmsg),
            ),
    {
        if self.match_token(tk) {
            self.advance();
            Ok(())
        } else {
            self.handle_error(errmsg)
        }
    }

    /// `program := block`
    fn parse_node_program(&mut self, env: &mut Env) -> (r: Result<(), ErrorMessage>)
        requires
            old(self).wf(),
        ensures
            r == verdict(program(old(self).tokens(), old(self).pos as int, old(env)@).step),
            final(self).stepped(
                old(self),
                program(old(self).tokens(), old(self).pos as int, old(env)@).step,
            ),
            final(env)@ == program(old(self).tokens(), old(self).pos as int, old(env)@).scopes,
            old(env).wf() ==> final(env).wf(),
    {
        self.parse_node_block(env)
    }

    /// `block := 'begin' decl_table exec_table 'end'`, in a scope of its own.
    fn parse_node_block(&mut self, env: &mut Env) -> (r: Result<(), ErrorMessage>)
        requires
            old(self).wf(),
        ensures
            r == verdict(block(old(self).tokens(), old(self).pos as int, old(env)@).step),
            final(self).stepped(
                old(self),
                block(old(self).tokens(), old(self).pos as int, old(env)@).step,
            ),
            final(env)@ == block(old(self).tokens(), old(self).pos as int, old(env)@).scopes,
            old(env).wf() ==> final(env).wf(),
        decreases remaining(old(self).tokens(), old(self).pos as int), 0int,
    {
        proof {
            lemma_block_unfold(self.tokens(), self.pos as int, env@);
        }
        let ghost toks = self.tokens();
        let ghost start = self.pos as int;
        match self.expect(Token::Begin, ErrorMessage::SyntaxErrorExpectedABlock) {
            Ok(_) => (),
            Err(e) => return Err(e),
        }
        env.enter_scope();
        proof {
            lemma_declaration_table_scopes(toks, self.pos as int, env@);
        }
        match self.parse_node_declaration_statement_table(env) {
            Ok(_) => (),
            Err(e) => return self.handle_error(e),
        }
        match self.parse_node_execution_statement_table() {
            Ok(_) => (),
            Err(e) => return self.handle_error(e),
        }
        match self.expect(Token::End, ErrorMessage::MissingEnd) {
            Ok(_) => (),
            Err(e) => return Err(e),
        }
        env.exit_scope();
        Ok(())
    }

    /// `decl_table := { decl ';' }`
    fn parse_node_declaration_statement_table(&mut self, env: &mut Env) -> (r: Result<
        (),
        ErrorMessage,
    >)
        requires
            old(self).wf(),
            old(env)@.len() > 0,
        ensures
            r == verdict(declaration_statement_table(
                old(self).tokens(),
                old(self).pos as int,
                old(env)@,
            ).step),
            final(self).stepped(
                old(self),
                declaration_statement_table(
                    old(self).tokens(),
                    old(self).pos as int,
                    old(env)@,
                ).step,
            ),
            final(env)@ == declaration_statement_table(
                old(self).tokens(),
                old(self).pos as int,
                old(env)@,
            ).scopes,
            old(env).wf() ==> final(env).wf(),
        decreases remaining(old(self).tokens(), old(self).pos as int), 2int,
    {
        let ghost toks = self.tokens();
        let ghost start = self.pos as int;
        let ghost whole = declaration_statement_table(toks, start, old(env)@);
        loop
            invariant
                self.wf(),
                self.stream == old(self).stream,
                self.mode == old(self).mode,
                self.name == old(self).name,
                toks == self.tokens(),
                start == old(self).pos,
                start <= self.pos,
                env@.len() > 0,
                old(env).wf() ==> env.wf(),
                whole == declaration_statement_table(toks, start, old(env)@),
                whole.step.failure == declaration_statement_table(
                    toks,
                    self.pos as int,
                    env@,
                ).step.failure,
                start + whole.step.moved == self.pos + declaration_statement_table(
                    toks,
                    self.pos as int,
                    env@,
                ).step.moved,
                old(self).reports.deep_view() + whole.step.reports =~= self.reports.deep_view()
                    + declaration_statement_table(toks, self.pos as int, env@).step.reports,
                whole.scopes == declaration_statement_table(toks, self.pos as int, env@).scopes,
            decreases remaining(toks, self.pos as int),
        {
            proof {
                lemma_declaration_statement_table_unfold(self.tokens(), self.pos as int, env@);
            }
            if !self.match_token(Token::Integer) {
                match self.current_token() {
                    Token::Read | Token::Write | Token::If | Token::Identifier(_) | Token::End
                    | Token::Eof => {
                        return Ok(());
                    },
                    _ => {
                        return self.handle_error(ErrorMessage::SyntaxError);
                    },
                }
            }
            proof {
                lemma_declaration_scopes(toks, self.pos as int, env@);
            }
            match self.parse_node_declaration_statement(env) {
                Ok(_) => (),
                Err(e) => return self.handle_error(e),
            }
            match self.expect(Token::Semicolon, ErrorMessage::MissingSemicolon) {
                Ok(_) => (),
                Err(e) => return Err(e),
            }
        }
    }

    /// `decl := 'integer' decl_tail`
    fn parse_node_declaration_statement(&mut self, env: &mut Env) -> (r: Result<(), ErrorMessage>)
        requires
            old(self).wf(),
            old(env)@.len() > 0,
        ensures
            r == verdict(declaration_statement(
                old(self).tokens(),
                old(self).pos as int,
                old(env)@,
            ).step),
            final(self).stepped(
                old(self),
                declaration_statement(old(self).tokens(), old(self).pos as int, old(env)@).step,
            ),
            final(env)@ == declaration_statement(
                old(self).tokens(),
                old(self).pos as int,
                old(env)@,
            ).scopes,
            old(env).wf() ==> final(env).wf(),
        decreases remaining(old(self).tokens(), old(self).pos as int), 1int,
    {
        proof {
            lemma_declaration_statement_unfold(self.tokens(), self.pos as int, env@);
        }
        match self.expect(Token::Integer, ErrorMessage::InvalidTypeExpectedInterger) {
            Ok(_) => (),
            Err(e) => return Err(e),
        }
        self.parse_node_declaration_statement_prime(env)
    }

    /// `decl_tail := ident | 'function' ident '(' expr ')' ';' function_body`
    fn parse_node_declaration_statement_prime(&mut self, env: &mut Env) -> (r: Result<
        (),
        ErrorMessage,
    >)
        requires
            old(self).wf(),
            old(env)@.len() > 0,
        ensures
            r == verdict(declaration_statement_prime(
                old(self).tokens(),
                old(self).pos as int,
                old(env)@,
            ).step),
            final(self).stepped(
                old(self),
                declaration_statement_prime(
                    old(self).tokens(),
                    old(self).pos as int,
                    old(env)@,
                ).step,
            ),
            final(env)@ == declaration_statement_prime(
                old(self).tokens(),
                old(self).pos as int,
                old(env)@,
            ).scopes,
            old(env).wf() ==> final(env).wf(),
        decreases remaining(old(self).tokens(), old(self).pos as int), 0int,
    {
        proof {
            lemma_declaration_statement_prime_unfold(self.tokens(), self.pos as int, env@);
        }
        if self.match_token(Token::Function) {
            self.advance();
            let pname = match self.parse_node_identifier() {
                Ok(pname) => pname,
                Err(e) => return self.handle_error(e),
            };
            if env.check_repeat(pname.clone()) {
                return self.handle_error(ErrorMessage::FoundRepeatDeclarationInThisField);
            } else {
                env.add_procedure(pname);
            }
            match self.expect(Token::LeftParenthesis, ErrorMessage::MissingLeftParenthesis) {
                Ok(_) => (),
                Err(e) => return Err(e),
            }
            match self.parse_node_parameter() {
                Ok(_) => (),
                Err(e) => return self.handle_error(e),
            }
            match self.expect(Token::RightParenthesis, ErrorMessage::MissingRightParenthesis) {
                Ok(_) => (),
                Err(e) => return Err(e),
            }
            match self.expect(Token::Semicolon, ErrorMessage::MissingSemicolon) {
                Ok(_) => (),
                Err(e) => return Err(e),
            }
            match self.parse_node_function_body(env) {
                Ok(_) => Ok(()),
                Err(e) => self.handle_error(e),
            }
        } else {
            let vname = match self.parse_node_variable() {
                Ok(vname) => vname,
                Err(e) => return self.handle_error(e),
            };
            if env.check_repeat(vname.clone()) {
                self.handle_error(ErrorMessage::FoundRepeatDeclarationInThisField)
            } else {
                env.add_variable(vname, "F".to_owned(), 0);
                Ok(())
            }
        }
    }

    /// `function_body := block`
    fn parse_node_function_body(&mut self, env: &mut Env) -> (r: Result<(), ErrorMessage>)
        requires
            old(self).wf(),
        ensures
            r == verdict(function_body(old(self).tokens(), old(self).pos as int, old(env)@).step),
            final(self).stepped(
                old(self),
                function_body(old(self).tokens(), old(self).pos as int, old(env)@).step,
            ),
            final(env)@ == function_body(
                old(self).tokens(),
                old(self).pos as int,
                old(env)@,
            ).scopes,
            old(env).wf() ==> final(env).wf(),
        decreases remaining(old(self).tokens(), old(self).pos as int), 1int,
    {
        proof {
            lemma_function_body_unfold(self.tokens(), self.pos as int, env@);
        }
        self.parse_node_block(env)
    }

    /// The argument of a function: an expression.
    fn parse_node_parameter(&mut self) -> (r: Result<(), ErrorMessage>)
        requires
            old(self).wf(),
        ensures
            r == verdict(parameter(old(self).tokens(), old(self).pos as int)),
            final(self).stepped(old(self), parameter(old(self).tokens(), old(self).pos as int)),
        decreases remaining(old(self).tokens(), old(self).pos as int), 4int,
    {
        proof {
            lemma_parameter_unfold(self.tokens(), self.pos as int);
        }
        match self.parse_node_expression() {
            Ok(_) => Ok(()),
            Err(e) => self.handle_error(e),
        }
    }

    /// `exec_table := { exec_stmt ';' }`
    fn parse_node_execution_statement_table(&mut self) -> (r: Result<(), ErrorMessage>)
        requires
            old(self).wf(),
        ensures
            r == verdict(execution_statement_table(old(self).tokens(), old(self).pos as int)),
            final(self).stepped(
                old(self),
                execution_statement_table(old(self).tokens(), old(self).pos as int),
            ),
        decreases remaining(old(self).tokens(), old(self).pos as int), 7int,
    {
        let ghost toks = self.tokens();
        let ghost start = self.pos as int;
        let ghost whole = execution_statement_table(toks, start);
        loop
            invariant
                self.wf(),
                self.stream == old(self).stream,
                self.mode == old(self).mode,
                self.name == old(self).name,
                toks == self.tokens(),
                start == old(self).pos,
                start <= self.pos,
                whole == execution_statement_table(toks, start),
                whole.failure == execution_statement_table(toks, self.pos as int).failure,
                start + whole.moved == self.pos + execution_statement_table(
                    toks,
                    self.pos as int,
                ).moved,
                old(self).reports.deep_view() + whole.reports =~= self.reports.deep_view()
                    + execution_statement_table(toks, self.pos as int).reports,
            decreases remaining(toks, self.pos as int),
        {
            proof {
                lemma_execution_statement_table_unfold(self.tokens(), self.pos as int);
            }
            match self.current_token() {
                Token::Read | Token::Write | Token::If | Token::Identifier(_) => {},
                Token::End | Token::Eof => {
                    return Ok(());
                },
                _ => {
                    return self.handle_error(ErrorMessage::SyntaxError);
                },
            }
            match self.parse_node_execution_statement() {
                Ok(_) => (),
                Err(e) => return self.handle_error(e),
            }
            match self.expect(Token::Semicolon, ErrorMessage::MissingSemicolon) {
                Ok(_) => (),
                Err(e) => return Err(e),
            }
        }
    }

    /// `exec_stmt := read_stmt | write_stmt | if_stmt | assign_stmt`
    fn parse_node_execution_statement(&mut self) -> (r: Result<(), ErrorMessage>)
        requires
            old(self).wf(),
        ensures
            r == verdict(execution_statement(old(self).tokens(), old(self).pos as int)),
            final(self).stepped(
                old(self),
                execution_statement(old(self).tokens(), old(self).pos as int),
            ),
        decreases remaining(old(self).tokens(), old(self).pos as int), 6int,
    {
        proof {
            lemma_execution_statement_unfold(self.tokens(), self.pos as int);
        }
        match self.current_token() {
            Token::Read => self.parse_node_read_statement(),
            Token::Write => self.parse_node_write_statement(),
            Token::If => self.parse_node_conditional_statement(),
            Token::Identifier(_) => self.parse_node_assignment_statement(),
            _ => self.handle_error(ErrorMessage::SyntaxError),
        }
    }

    /// `assign_stmt := ident ':=' expr`
    fn parse_node_assignment_statement(&mut self) -> (r: Result<(), ErrorMessage>)
        requires
            old(self).wf(),
        ensures
            r == verdict(assignment_statement(old(self).tokens(), old(self).pos as int)),
            final(self).stepped(
                old(self),
                assignment_statement(old(self).tokens(), old(self).pos as int),
            ),
        decreases remaining(old(self).tokens(), old(self).pos as int), 5int,
    {
        proof {
            reveal(assignment_statement);
        }
        match self.parse_node_variable() {
            Ok(_) => (),
            Err(e) => return self.handle_error(e),
        }
        match self.expect(Token::Assign, ErrorMessage::WrongAssignToken) {
            Ok(_) => (),
            Err(e) => return Err(e),
        }
        match self.parse_node_expression() {
            Ok(_) => Ok(()),
            Err(e) => self.handle_error(e),
        }
    }

    /// `if_stmt := 'if' condition 'then' exec_stmt 'else' exec_stmt`
    fn parse_node_conditional_statement(&mut self) -> (r: Result<(), ErrorMessage>)
        requires
            old(self).wf(),
        ensures
            r == verdict(conditional_statement(old(self).tokens(), old(self).pos as int)),
            final(self).stepped(
                old(self),
                conditional_statement(old(self).tokens(), old(self).pos as int),
            ),
        decreases remaining(old(self).tokens(), old(self).pos as int), 5int,
    {
        proof {
            lemma_conditional_statement_unfold(self.tokens(), self.pos as int);
        }
        match self.expect(Token::If, ErrorMessage::MissingIf) {
            Ok(_) => (),
            Err(e) => return Err(e),
        }
        match self.parse_node_condition() {
            Ok(_) => (),
            Err(e) => return self.handle_error(e),
        }
        match self.expect(Token::Then, ErrorMessage::MissingThen) {
            Ok(_) => (),
            Err(e) => return Err(e),
        }
        proof {
            let toks = old(self).tokens();
            let pos = old(self).pos as int;
            let word = expect(toks, pos, Lexeme::If, ErrorMessage::MissingIf);
            let pos1 = pos + word.moved;
            let cond = retry(toks, pos1, condition(toks, pos1));
            let then_word = expect(
                toks,
                pos1 + cond.moved,
                Lexeme::Then,
                ErrorMessage::MissingThen,
            );
            assert(self.stepped(old(self), chain(word, chain(cond, then_word))));
        }
        match self.parse_node_execution_statement() {
            Ok(_) => (),
            Err(e) => return self.handle_error(e),
        }
        match self.expect(Token::Else, ErrorMessage::MissingElse) {
            Ok(_) => (),
            Err(e) => return Err(e),
        }
        match self.parse_node_execution_statement() {
            Ok(_) => Ok(()),
            Err(e) => self.handle_error(e),
        }
    }

    /// The statement `keyword '(' ident ')'`, with `errmsg` for a missing
    /// keyword.
    fn parse_node_call_statement(&mut self, keyword: Token, errmsg: ErrorMessage) -> (r: Result<
        (),
        ErrorMessage,
    >)
        requires
            old(self).wf(),
        ensures
            r == verdict(
                call_statement(old(self).tokens(), old(self).pos as int, keyword@, errmsg),
            ),
            final(self).stepped(
                old(self),
                call_statement(old(self).tokens(), old(self).pos as int, keyword@, errmsg),
            ),
    {
        proof {
            reveal(call_statement);
        }
        match self.expect(keyword, errmsg) {
            Ok(_) => (),
            Err(e) => return Err(e),
        }
        match self.expect(Token::LeftParenthesis, ErrorMessage::MissingLeftParenthesis) {
            Ok(_) => (),
            Err(e) => return Err(e),
        }
        match self.parse_node_variable() {
            Ok(_) => (),
            Err(e) => return self.handle_error(e),
        }
        self.expect(Token::RightParenthesis, ErrorMessage::MissingRightParenthesis)
    }

    /// `read_stmt := 'read' '(' ident ')'`
    fn parse_node_read_statement(&mut self) -> (r: Result<(), ErrorMessage>)
        requires
            old(self).wf(),
        ensures
            r == verdict(read_statement(old(self).tokens(), old(self).pos as int)),
            final(self).stepped(
                old(self),
                read_statement(old(self).tokens(), old(self).pos as int),
            ),
    {
        self.parse_node_call_statement(Token::Read, ErrorMessage::WrongReserveYouMeanRead)
    }

    /// `write_stmt := 'write' '(' ident ')'`
    fn parse_node_write_statement(&mut self) -> (r: Result<(), ErrorMessage>)
        requires
            old(self).wf(),
        ensures
            r == verdict(write_statement(old(self).tokens(), old(self).pos as int)),
            final(self).stepped(
                old(self),
                write_statement(old(self).tokens(), old(self).pos as int),
            ),
    {
        self.parse_node_call_statement(Token::Write, ErrorMessage::WrongReserveYouMeanWrite)
    }

    /// `condition := expr relop expr`
    fn parse_node_condition(&mut self) -> (r: Result<(), ErrorMessage>)
        requires
            old(self).wf(),
        ensures
            r == verdict(condition(old(self).tokens(), old(self).pos as int)),
            final(self).stepped(old(self), condition(old(self).tokens(), old(self).pos as int)),
        decreases remaining(old(self).tokens(), old(self).pos as int), 4int,
    {
        proof {
            reveal(condition);
        }
        match self.parse_node_expression() {
            Ok(_) => (),
            Err(e) => return self.handle_error(e),
        }
        match self.parse_node_relational_operator() {
            Ok(_) => self.advance(),
            Err(e) => return self.handle_error(e),
        }
        match self.parse_node_expression() {
            Ok(_) => Ok(()),
            Err(e) => self.handle_error(e),
        }
    }

    /// `expr := term { '-' term }`
    fn parse_node_expression(&mut self) -> (r: Result<(), ErrorMessage>)
        requires
            old(self).wf(),
        ensures
            r == verdict(expression(old(self).tokens(), old(self).pos as int)),
            final(self).stepped(old(self), expression(old(self).tokens(), old(self).pos as int)),
        decreases remaining(old(self).tokens(), old(self).pos as int), 3int,
    {
        proof {
            lemma_expression_unfold(self.tokens(), self.pos as int);
        }
        match self.parse_node_term() {
            Ok(_) => (),
            Err(e) => return self.handle_error(e),
        }
        match self.parse_node_expression_prime() {
            Ok(_) => Ok(()),
            Err(e) => self.handle_error(e),
        }
    }

    /// `{ '-' term }`
    fn parse_node_expression_prime(&mut self) -> (r: Result<(), ErrorMessage>)
        requires
            old(self).wf(),
        ensures
            r == verdict(expression_prime(old(self).tokens(), old(self).pos as int)),
            final(self).stepped(
                old(self),
                expression_prime(old(self).tokens(), old(self).pos as int),
            ),
        decreases remaining(old(self).tokens(), old(self).pos as int), 0int,
    {
        proof {
            lemma_expression_prime_unfold(self.tokens(), self.pos as int);
        }
        if self.match_token(Token::Minus) {
            self.advance();
            match self.parse_node_term() {
                Ok(_) => (),
                Err(e) => return self.handle_error(e),
            }
            match self.parse_node_expression_prime() {
                Ok(_) => Ok(()),
                Err(e) => self.handle_error(e),
            }
        } else {
            Ok(())
        }
    }

    /// `term := factor { '*' factor }`
    fn parse_node_term(&mut self) -> (r: Result<(), ErrorMessage>)
        requires
            old(self).wf(),
        ensures
            r == verdict(term(old(self).tokens(), old(self).pos as int)),
            final(self).stepped(old(self), term(old(self).tokens(), old(self).pos as int)),
        decreases remaining(old(self).tokens(), old(self).pos as int), 2int,
    {
        proof {
            lemma_term_unfold(self.tokens(), self.pos as int);
        }
        match self.parse_node_factor() {
            Ok(_) => (),
            Err(e) => return self.handle_error(e),
        }
        match self.parse_node_term_prime() {
            Ok(_) => Ok(()),
            Err(e) => self.handle_error(e),
        }
    }

    /// `{ '*' factor }`
    fn parse_node_term_prime(&mut self) -> (r: Result<(), ErrorMessage>)
        requires
            old(self).wf(),
        ensures
            r == verdict(term_prime(old(self).tokens(), old(self).pos as int)),
            final(self).stepped(old(self), term_prime(old(self).tokens(), old(self).pos as int)),
        decreases remaining(old(self).tokens(), old(self).pos as int), 0int,
    {
        proof {
            lemma_term_prime_unfold(self.tokens(), self.pos as int);
        }
        if self.match_token(Token::Multiply) {
            self.advance();
            match self.parse_node_factor() {
                Ok(_) => (),
                Err(e) => return self.handle_error(e),
            }
            match self.parse_node_term_prime() {
                Ok(_) => Ok(()),
                Err(e) => self.handle_error(e),
            }
        } else {
            Ok(())
        }
    }

    /// `factor := '(' expr ')' | integer_literal | ident [ '(' expr ')' ]`
    fn parse_node_factor(&mut self) -> (r: Result<(), ErrorMessage>)
        requires
            old(self).wf(),
        ensures
            r == verdict(factor(old(self).tokens(), old(self).pos as int)),
            final(self).stepped(old(self), factor(old(self).tokens(), old(self).pos as int)),
        decreases remaining(old(self).tokens(), old(self).pos as int), 1int,
    {
        proof {
            lemma_factor_unfold(self.tokens(), self.pos as int);
        }
        match self.current_token() {
            Token::LeftParenthesis => {
                self.advance();
                match self.parse_node_expression() {
                    Ok(_) => (),
                    Err(e) => return self.handle_error(e),
                }
                self.expect(Token::RightParenthesis, ErrorMessage::MissingRightParenthesis)
            },
            Token::IntegerLiteral(_) => self.parse_node_constant(),
            Token::Identifier(_) => {
                match self.parse_node_identifier() {
                    Ok(_) => (),
                    Err(e) => return self.handle_error(e),
                }
                match self.parse_node_factor_suffix() {
                    Ok(_) => Ok(()),
                    Err(e) => self.handle_error(e),
                }
            },
            _ => self.handle_error(ErrorMessage::SyntaxError),
        }
    }

    /// `'(' expr ')'` behind a name, or nothing.
    fn parse_node_factor_suffix(&mut self) -> (r: Result<(), ErrorMessage>)
        requires
            old(self).wf(),
        ensures
            r == verdict(factor_suffix(old(self).tokens(), old(self).pos as int)),
            final(self).stepped(
                old(self),
                factor_suffix(old(self).tokens(), old(self).pos as int),
            ),
        decreases remaining(old(self).tokens(), old(self).pos as int), 0int,
    {
        proof {
            lemma_factor_suffix_unfold(self.tokens(), self.pos as int);
        }
        if self.match_token(Token::LeftParenthesis) {
            self.advance();
        } else {
            return Ok(());
        }
        match self.parse_node_parameter() {
            Ok(_) => (),
            Err(e) => return self.handle_error(e),
        }
        self.expect(Token::RightParenthesis, ErrorMessage::MissingRightParenthesis)
    }

    /// `relop := '=' | '<>' | '<' | '<=' | '>' | '>='`; the cursor stays on
    /// it.
    fn parse_node_relational_operator(&mut self) -> (r: Result<(), ErrorMessage>)
        requires
            old(self).wf(),
        ensures
            r == verdict(relational_operator(old(self).tokens(), old(self).pos as int)),
            final(self).stepped(
                old(self),
                relational_operator(old(self).tokens(), old(self).pos as int),
            ),
    {
        match self.current_token() {
            Token::Equal => Ok(()),
            Token::NotEqual => Ok(()),
            Token::Less => Ok(()),
            Token::LessEqual => Ok(()),
            Token::Greater => Ok(()),
            Token::GreaterEqual => Ok(()),
            _ => self.handle_error(ErrorMessage::SyntaxError),
        }
    }

    /// A variable: a name.
    fn parse_node_variable(&mut self) -> (r: Result<String, ErrorMessage>)
        requires
            old(self).wf(),
        ensures
            match r {
                Ok(name) => identifier(old(self).tokens(), old(self).pos as int).failure is None
                    && name@ == name_at(old(self).tokens(), old(self).pos as int),
                Err(e) => identifier(old(self).tokens(), old(self).pos as int).failure == Some(e),
            },
            final(self).stepped(old(self), identifier(old(self).tokens(), old(self).pos as int)),
    {
        self.parse_node_identifier()
    }

    /// An integer literal.
    fn parse_node_constant(&mut self) -> (r: Result<(), ErrorMessage>)
        requires
            old(self).wf(),
        ensures
            r == verdict(
                if current(old(self).tokens(), old(self).pos as int) is IntegerLiteral {
                    done(stride(old(self).tokens(), old(self).pos as int))
                } else {
                    fail(old(self).tokens(), old(self).pos as int, ErrorMessage::InvalidNumber)
                },
            ),
            final(self).stepped(
                old(self),
                if current(old(self).tokens(), old(self).pos as int) is IntegerLiteral {
                    done(stride(old(self).tokens(), old(self).pos as int))
                } else {
                    fail(old(self).tokens(), old(self).pos as int, ErrorMessage::InvalidNumber)
                },
            ),
    {
        match self.current_token() {
            Token::IntegerLiteral(_) => {
                self.advance();
                Ok(())
            },
            _ => self.handle_error(ErrorMessage::InvalidNumber),
        }
    }

    /// A name. Its absence is not reported here: that is left to the rule
    /// that asked.
    fn parse_node_identifier(&mut self) -> (r: Result<String, ErrorMessage>)
        requires
            old(self).wf(),
        ensures
            match r {
                Ok(name) => identifier(old(self).tokens(), old(self).pos as int).failure is None
                    && name@ == name_at(old(self).tokens(), old(self).pos as int),
                Err(e) => identifier(old(self).tokens(), old(self).pos as int).failure == Some(e),
            },
            final(self).stepped(old(self), identifier(old(self).tokens(), old(self).pos as int)),
    {
        match self.current_token() {
            Token::Identifier(name) => {
                self.advance();
                Ok(name)
            },
            _ => Err(ErrorMessage::ExpectedIdentifier),
        }
    }
}

} // verus!
