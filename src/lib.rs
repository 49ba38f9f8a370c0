//! Front end and tree-walking evaluator of a small scripting language:
//! source text is lexed into tokens, tokens are parsed into a syntax tree
//! while a scope chain resolves every variable reference, and the tree is
//! evaluated into runtime values.
pub mod ast;
pub mod evaluating;
pub mod lexing;
pub mod parsing;
pub mod scope;
pub mod token;
