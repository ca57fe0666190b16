//! A front end for one-line arithmetic expressions: lexer, recursive-descent
//! parser, semantic warnings, three-address code, and an optimizer over the tree
//! and over the code.

pub mod number;
pub mod text;
pub mod token;
pub mod error;
pub mod ast;
pub mod lexer;
pub mod parser;
pub mod peephole;
pub mod laws;
