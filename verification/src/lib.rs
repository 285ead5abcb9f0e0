//! A small expression-oriented scripting language: a Pratt
//! (operator-precedence) parser that turns a token stream into an abstract
//! syntax tree, and a tree-walking evaluator that interprets the tree against
//! a chain of lexically scoped environments, with first-class closures.
pub mod ast;
pub mod environment;
pub mod error;
pub mod evaluator;
pub mod lexer;
pub mod object;
pub mod operator;
pub mod parser;
pub mod text;
pub mod token;
