//! Front end and interpreter of the Compost language: a lexer that attaches a
//! nesting level to every token, a level-driven recursive-descent parser, a
//! multi-pass semantic analyser and a tree-walking evaluator.

pub mod ast;
pub mod error;
pub mod lex;
pub mod run;
pub mod runtime;
pub mod sem;
pub mod text;
