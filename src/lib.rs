//! Front end of a small expression language: a scanner from source text to
//! tokens, and a precedence-climbing parser from tokens to a syntax tree.
pub mod ast;
pub mod parser;
pub mod scanner;
pub mod token;

pub use ast::{AstNode, BinaryOperator, Expr, ParseError};
pub use parser::{parse, Parser};
pub use scanner::tokenize;
pub use token::{Token, TokenV};
