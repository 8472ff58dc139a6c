//! Source text to leveled tokens.

pub mod token;

pub mod tokenizer;
pub mod tokens;
