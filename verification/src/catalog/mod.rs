//! Descriptions of tables, columns and indexes.
pub mod column;
pub mod table;

pub use column::{ColumnCatalog, ColumnDesc, ColumnDescView, ColumnId, ColumnView};
pub use table::{
    CatalogError, CatalogErrorView, IndexId, IndexMeta, IndexMetaView, TableCatalog, TableName,
    TableView,
};
