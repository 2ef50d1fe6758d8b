//! Resolved expressions.
pub mod scalar;
pub mod simplify;

pub use scalar::{AggKind, BinaryOperator, ExprView, ScalarExpression};
pub use simplify::{BinaryView, Bound, BoundView, ConstantBinary};
