//! Front end of a small statically-structured language: a source model with
//! line-indexed lookup, combinable source spans, a lexer that collects every
//! lexical error in one pass, a recursive-descent parser with panic-mode
//! recovery, and renderable diagnostics.

pub mod ast;
pub mod compiler;
pub mod error;
pub mod lexer;
pub mod parse_error;
pub mod parser;
pub mod source;
pub mod text;
