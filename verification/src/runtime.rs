//! The evaluator: runtime values and the tree walk that computes them.

pub mod class_instance;
pub mod evaluate;
pub mod instance;
pub mod raw_operation;
pub mod struct_instance;
