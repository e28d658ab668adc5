//! A single-pass, non-recursive reader for a minimal S-expression language:
//! numbers, symbols and parenthesised lists.

pub mod expr;
pub mod lexer;
pub mod reader;
pub mod grammar;

pub use expr::{ParseError, SymbolicExpr};
pub use reader::read;
