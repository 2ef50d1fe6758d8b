//! The binder: from a parsed statement to a logical plan, every name
//! resolved against the tables that a transaction knows.
pub mod binder;
pub mod context;
pub mod create_table;
pub mod error;
pub mod expr;
pub mod insert;
pub mod name;
pub mod query;
pub mod select;

pub use binder::Binder;
pub use context::{BinderContext, InputRefType};
pub use error::{BindError, BindErrorView};
pub use name::{lower_case_name, split_name, DEFAULT_SCHEMA_NAME};
