//! A small scripting language front end: a scanner that turns source text
//! into a stream of tokens, and a Pratt parser that turns the tokens into an
//! abstract syntax tree, collecting structured errors instead of failing on
//! the first bad statement.

pub mod token;
pub mod scanner;
pub mod ast;
pub mod parser;
