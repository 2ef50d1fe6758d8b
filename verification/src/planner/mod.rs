//! Logical plans: what a statement asks for, with every name resolved.
pub mod operator;
pub mod plan;

pub use operator::{
    AggregateOperator, FilterOperator, JoinOperator, JoinType, LimitOperator, Operator,
    OperatorView, ProjectOperator, ScanOperator, ScanView, SortField, SortOperator,
};
pub use plan::{
    CopyOperator, CreateTableOperator, DeleteOperator, DropTableOperator, InsertOperator,
    LogicalPlan, LogicalSelectPlan, PlanView, SelectView, TruncateOperator, UpdateOperator,
};
