//! The abstract syntax tree and the parser that builds it from leveled
//! tokens.

pub mod abstract_syntax_tree;
pub mod class_statement;
pub mod def_statement;
pub mod expr;
pub mod expression;
pub mod let_statement;
pub mod module_statement;
pub mod parser;
pub mod raw_value;
pub mod struct_statement;
pub mod trait_statement;
pub mod type_statement;
pub mod using_statement;
pub mod view;
