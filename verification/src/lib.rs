//! A small SQL front end: a tokenizer and a parser for `SELECT` and
//! `CREATE TABLE` statements, with contracts stated over mathematical
//! models of tokens and syntax trees.
//!
//! Text goes through [`tokenizer::tokenize`] to a sequence of tokens, and
//! the tokens through [`sql_parser::Parser::parse`] to a syntax tree or the
//! first error. What the two compute is defined by [`tokenizer::lex`] and
//! [`grammar::statement`]; the modules of laws prove what holds of every
//! result, and the modules on spelling prove that every statement that can
//! be written down is read back as it was written.

pub mod expression_laws;
pub mod grammar;
pub mod message;
pub mod pratt_parsing;
pub mod remaining;
pub mod source;
pub mod spelling;
pub mod sql_parser;
pub mod statement;
pub mod statement_laws;
pub mod statement_spelling;
pub mod std_text;
pub mod token;
pub mod tokenizer;
