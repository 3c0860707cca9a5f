//! A small imperative scripting language: lexical scanning, recursive-descent
//! parsing into an abstract syntax tree, and tree-walking evaluation.
//!
//! The pipeline is `tokenize` (source text to tokens), `parse` (tokens to a
//! `Program` tree), and `interpret` (tree to printed output lines).  Each
//! stage carries a contract that ties its result to a mathematical model of
//! the language: the lexer to a character-level scanning function, the parser
//! to a grammar written as recursive specification functions, and the
//! evaluator to a small-step-free, structurally recursive semantics.

pub mod ast;
pub mod exec;
pub mod parser;
pub mod render;
pub mod tokenizer;
pub mod unparse;

pub use ast::ASTNode;
pub use ast::Token;
