//! Values, their types, and rows.
pub mod tuple;
pub mod value;

pub use tuple::{Index, Tuple, TupleView};
pub use value::{DataValue, LogicalType, TupleId, TypeError, ValueView};
