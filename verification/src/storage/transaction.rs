//! What the binder asks of a transaction.
use crate::catalog::table::{TableCatalog, TableName};
use vstd::prelude::*;

verus! {

/// A transaction as a source of table descriptions. What a transaction
/// answers is its own affair: a table may be unknown to it, or may not be
/// readable at the moment.
pub trait Transaction {
    /// The description of the table named `table_name`, if the
    /// transaction can give one.
    fn table(&self, table_name: TableName) -> Option<&TableCatalog>;
}

} // verus!
