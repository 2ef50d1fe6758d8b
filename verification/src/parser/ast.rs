//! The shapes of statements that the binder takes. A parser's output is
//! turned into these before binding; anything that has no shape here comes
//! as `StatementKind::Other`.
use crate::expression::scalar::BinaryOperator;
use vstd::prelude::*;

verus! {

/// A name made of parts, as in `schema.table`.
#[derive(Debug, PartialEq, Eq)]
pub struct ObjectName(pub Vec<String>);

#[derive(Clone, Copy, Debug, PartialEq, Eq, Structural)]
pub enum ObjectType {
    Table,
    View,
    Index,
    Schema,
}

#[derive(Clone, Copy, Debug, PartialEq, Eq, Structural)]
pub enum DataType {
    Boolean,
    Int,
    BigInt,
    Varchar,
}

/// A literal.
#[derive(Debug, PartialEq, Eq)]
pub enum Value {
    Number(i64),
    Text(String),
    Boolean(bool),
    Null,
}

#[derive(Debug, PartialEq, Eq)]
pub enum Expr {
    Identifier(String),
    CompoundIdentifier(Vec<String>),
    Value(Value),
    BinaryOp { left: Box<Expr>, op: BinaryOperator, right: Box<Expr> },
    /// A function of one argument; without an argument it stands for the
    /// form with a star.
    Function { name: String, arg: Option<Box<Expr>>, distinct: bool },
    Nested(Box<Expr>),
}

#[derive(Debug, PartialEq, Eq)]
pub enum SelectItem {
    UnnamedExpr(Expr),
    ExprWithAlias { expr: Expr, alias: String },
    Wildcard,
}

#[derive(Debug, PartialEq, Eq)]
pub struct TableFactor {
    pub name: ObjectName,
    pub alias: Option<String>,
}

/// A table and the tables joined to it with `JOIN`.
#[derive(Debug, PartialEq, Eq)]
pub struct TableWithJoins {
    pub relation: TableFactor,
    pub joins: Vec<TableFactor>,
}

#[derive(Debug, PartialEq, Eq)]
pub struct OrderByExpr {
    pub expr: Expr,
    pub asc: Option<bool>,
}

#[derive(Debug, PartialEq, Eq)]
pub struct Select {
    pub projection: Vec<SelectItem>,
    pub from: Vec<TableWithJoins>,
    pub selection: Option<Expr>,
    pub group_by: Vec<Expr>,
}

#[derive(Debug, PartialEq, Eq)]
pub struct Query {
    pub body: Select,
    pub order_by: Vec<OrderByExpr>,
    pub limit: Option<Value>,
    pub offset: Option<Value>,
}

#[derive(Debug, PartialEq, Eq)]
pub enum ColumnOption {
    Null,
    NotNull,
    Unique { is_primary: bool },
    Default(Value),
}

#[derive(Debug, PartialEq, Eq)]
pub struct ColumnDef {
    pub name: String,
    pub data_type: DataType,
    pub options: Vec<ColumnOption>,
}

/// The source of the rows of an insertion.
#[derive(Debug, PartialEq, Eq)]
pub enum SetExpr {
    Values(Vec<Vec<Expr>>),
    Other,
}

/// What is copied: a table, or the result of a query.
#[derive(Debug, PartialEq, Eq)]
pub enum CopySource {
    Table { table_name: ObjectName },
    Query,
}

/// Where a copy goes to or comes from: a file, or something else.
#[derive(Debug, PartialEq, Eq)]
pub enum CopyTarget {
    File { filename: String },
    Other,
}

#[derive(Debug, PartialEq, Eq)]
pub struct Assignment {
    pub id: Vec<String>,
    pub value: Expr,
}

#[derive(Debug, PartialEq, Eq)]
#[allow(inconsistent_fields)]
pub enum StatementKind {
    Query(Query),
    CreateTable { name: ObjectName, columns: Vec<ColumnDef>, if_not_exists: bool },
    Drop { object_type: ObjectType, names: Vec<ObjectName>, if_exists: bool },
    Insert { table_name: ObjectName, idents: Vec<String>, source: SetExpr, overwrite: bool },
    Update { table: TableWithJoins, assignments: Vec<Assignment>, selection: Option<Expr> },
    Delete { from: Vec<TableWithJoins>, selection: Option<Expr> },
    Truncate { table_name: ObjectName },
    ShowTables,
    Copy { source: CopySource, to: bool, target: CopyTarget, options: Vec<(String, String)> },
    Other,
}

/// A statement and the text it was parsed from.
#[derive(Debug, PartialEq, Eq)]
pub struct Statement {
    pub text: String,
    pub kind: StatementKind,
}

} // verus!
