//! Small tools for reasoning about sequences.
pub mod attempt;
