//! Statements as a parser hands them over.
pub mod ast;

pub use ast::{
    Assignment, ColumnDef, ColumnOption, CopySource, CopyTarget, DataType, Expr, ObjectName,
    ObjectType, OrderByExpr, Query, Select, SelectItem, SetExpr, Statement, StatementKind,
    TableFactor, TableWithJoins, Value,
};
