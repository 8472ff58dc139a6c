//! The compound expressions.

pub mod if_else_call;
pub mod let_call;
pub mod match_call;
