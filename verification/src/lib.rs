//! Front end of a compiler for a small Pascal-like teaching language:
//! a tokenizer with line-level error recovery, a stack of per-scope symbol
//! tables, and a scope-aware recursive-descent parser.
//!
//! The text of a program becomes a sequence of tokens ([`lex`], with the
//! meaning of scanning in [`scan`]); the parser ([`parse`], with the meaning
//! of the grammar in [`grammar`] and [`single_shot`]) checks the sequence
//! against the grammar and enters the declared names in the symbol
//! environment ([`env`]). Both stop short of input and output: they record
//! their diagnostics ([`report`]) and render listings and messages as text.

pub mod chars;
pub mod env;
pub mod grammar;
pub mod lex;
pub mod parse;
pub mod prep;
pub mod report;
pub mod scan;
pub mod single_shot;
pub mod text;
pub mod token;
