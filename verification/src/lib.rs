//! A small templating engine: it evaluates a compact pattern language
//! against an input string (typically a filesystem path) to produce an
//! output string.
//!
//! A pattern is plain text interspersed with `{...}` expressions; each
//! expression is a pipe-separated chain of single-character filters with
//! optional argument micro-grammars.  Parsing produces a position-annotated
//! program which can then be evaluated against many inputs.

pub mod chars;
pub mod cli;
pub mod eval;
pub mod filter;
pub mod generate;
pub mod input;
pub mod lexer;
pub mod number;
pub mod parse;
pub mod path;
pub mod pattern;
pub mod range;
pub mod reader;
pub mod regexp;
pub mod strings;
pub mod substitution;
pub mod transfer;
pub mod utils;
pub mod variable;
