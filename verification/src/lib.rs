//! Rynix: the lexer, parser and tree-walking interpreter of a small
//! imperative language, with contracts proved by Verus.
//!
//! Source text flows through three phases, each speaking only through its
//! own data: `lexer` turns characters into tokens, `parser` turns tokens
//! into a program tree, and `interpreter` runs the tree.

pub mod text;
pub mod lexer;
pub mod parser;
pub mod interpreter;
