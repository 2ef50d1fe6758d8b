//! The operators that the tree of a query is made of.
use crate::catalog::table::TableName;
use crate::expression::scalar::{clone_exprs, ExprView, ScalarExpression};
use crate::types::value::views;
use vstd::prelude::*;

verus! {

#[derive(Clone, Copy, Debug, PartialEq, Eq, Structural)]
pub enum JoinType {
    Inner,
    Left,
    Right,
    Full,
    Cross,
}

/// Reads a table: the columns wanted, and how many rows to pass over and
/// to hand out at most.
#[derive(Debug, PartialEq, Eq)]
pub struct ScanOperator {
    pub table_name: TableName,
    pub columns: Vec<ScalarExpression>,
    pub limit: (Option<usize>, Option<usize>),
}

pub struct ScanView {
    pub table_name: Seq<char>,
    pub columns: Seq<ExprView>,
    pub limit: (Option<usize>, Option<usize>),
}

impl View for ScanOperator {
    type V = ScanView;

    open spec fn view(&self) -> ScanView {
        ScanView { table_name: self.table_name@, columns: views(self.columns@), limit: self.limit }
    }
}

impl Clone for ScanOperator {
    fn clone(&self) -> (r: Self)
        ensures
            r@ == self@,
    {
        ScanOperator {
            table_name: self.table_name.clone(),
            columns: clone_exprs(&self.columns),
            limit: self.limit,
        }
    }
}

#[derive(Debug, PartialEq, Eq)]
pub struct ProjectOperator {
    pub columns: Vec<ScalarExpression>,
}

#[derive(Debug, PartialEq, Eq)]
pub struct FilterOperator {
    pub predicate: ScalarExpression,
    pub having: bool,
}

#[derive(Debug, PartialEq, Eq)]
pub struct JoinOperator {
    pub join_type: JoinType,
}

#[derive(Debug, PartialEq, Eq)]
pub struct AggregateOperator {
    pub groupby_exprs: Vec<ScalarExpression>,
    pub agg_calls: Vec<ScalarExpression>,
}

#[derive(Debug, PartialEq, Eq)]
pub struct SortField {
    pub expr: ScalarExpression,
    pub asc: bool,
}

#[derive(Debug, PartialEq, Eq)]
pub struct SortOperator {
    pub sort_fields: Vec<SortField>,
}

#[derive(Debug, PartialEq, Eq)]
pub struct LimitOperator {
    pub offset: Option<usize>,
    pub limit: Option<usize>,
}

#[derive(Debug, PartialEq, Eq)]
pub enum Operator {
    Project(ProjectOperator),
    Scan(ScanOperator),
    Filter(FilterOperator),
    Join(JoinOperator),
    Aggregate(AggregateOperator),
    Sort(SortOperator),
    Limit(LimitOperator),
}

pub enum OperatorView {
    Project(Seq<ExprView>),
    Scan(ScanView),
    Filter { predicate: ExprView, having: bool },
    Join(JoinType),
    Aggregate { groupby_exprs: Seq<ExprView>, agg_calls: Seq<ExprView> },
    Sort(Seq<(ExprView, bool)>),
    Limit { offset: Option<usize>, limit: Option<usize> },
}

/// The content of a list of sort fields.
pub open spec fn sort_views(s: Seq<SortField>) -> Seq<(ExprView, bool)> {
    s.map_values(|f: SortField| (f.expr@, f.asc))
}

impl View for Operator {
    type V = OperatorView;

    open spec fn view(&self) -> OperatorView {
        match self {
            Operator::Project(op) => OperatorView::Project(views(op.columns@)),
            Operator::Scan(op) => OperatorView::Scan(op@),
            Operator::Filter(op) => OperatorView::Filter {
                predicate: op.predicate@,
                having: op.having,
            },
            Operator::Join(op) => OperatorView::Join(op.join_type),
            Operator::Aggregate(op) => OperatorView::Aggregate {
                groupby_exprs: views(op.groupby_exprs@),
                agg_calls: views(op.agg_calls@),
            },
            Operator::Sort(op) => OperatorView::Sort(sort_views(op.sort_fields@)),
            Operator::Limit(op) => OperatorView::Limit { offset: op.offset, limit: op.limit },
        }
    }
}

} // verus!
