//! Front end of a small imperative language: a total lexical scanner that
//! represents malformed input as ordinary token values, an abstract syntax
//! tree with location tracking, an indenting tree printer, and a classifier
//! that renders parse errors as fixed diagnostic lines.

pub mod textfmt;
pub mod token;
pub mod lexer;
pub mod ast;
pub mod render;
pub mod diag;
