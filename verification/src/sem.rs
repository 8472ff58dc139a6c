//! Semantic analysis: symbol tables, types and typed evaluation trees.

pub mod class;
pub mod evaluation;
pub mod fold;
pub mod lett;
pub mod passes;
pub mod semantic_analyser;
pub mod settle;
pub mod strukt;
pub mod table;
pub mod trayt;
pub mod typ;
pub mod type_checking;
pub mod type_coercion;
