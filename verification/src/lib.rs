//! A small compiler for the trove language: a lexer, a parser, a type checker,
//! an escape analysis and a C++ code generator.
pub mod text;
pub mod lex;
pub mod typecheck;
pub mod parse;
pub mod analyser;
pub mod generator;
