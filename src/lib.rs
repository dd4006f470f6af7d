//! Front end of a small experimental language: a tokenizer with position
//! tracking and a parser that turns its tokens into an abstract syntax tree.
pub mod lexer;
pub mod ast;
pub mod parser;
pub mod scanner;
pub mod decl;
