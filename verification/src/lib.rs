//! An interpreter for a small scripting language: lexical analysis,
//! syntax-tree construction, tree-walking evaluation, and a binary
//! serializer for interpreter state.

pub mod ast;
pub mod builtins;
pub mod codec;
pub mod diag;
pub mod env;
pub mod interp;
pub mod parser;
pub mod numtext;
pub mod lexer;
pub mod strutil;
pub mod token;
pub mod value;
