//! A canonicalizing reformatter for a small block-structured, Tcl-like
//! rule-scripting language: a tokenizer, a recursive-descent structural
//! parser, and a canonical printer, each verified against a functional
//! specification.

pub mod ast;
pub mod fmt;
pub mod formatter;
pub mod lexer;
pub mod parser;
pub mod position;
