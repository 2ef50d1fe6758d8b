//! The operators of a physical plan.
use crate::catalog::column::{ColumnCatalog, ColumnId, ColumnView};
use crate::expression::scalar::{ExprView, ScalarExpression};
use crate::planner::operator::{ScanOperator, ScanView};
use crate::planner::plan::rows_view;
use crate::types::value::{views, DataValue, ValueView};
use vstd::prelude::*;

verus! {

#[derive(Debug, PartialEq, Eq)]
pub struct PhysicalProjection {
    pub plan_id: u32,
    pub exprs: Vec<ScalarExpression>,
    pub input: Box<PhysicalOperator>,
}

#[derive(Debug, PartialEq, Eq)]
pub struct PhysicalTableScan {
    pub plan_id: u32,
    pub base: ScanOperator,
}

#[derive(Debug, PartialEq, Eq)]
pub struct PhysicalCreateTable {
    pub table_name: String,
    pub columns: Vec<ColumnCatalog>,
}

#[derive(Debug, PartialEq, Eq)]
pub struct PhysicalInsert {
    pub table_name: String,
    pub col_idxs: Vec<ColumnId>,
    pub cols: Vec<Vec<DataValue>>,
}

#[derive(Debug, PartialEq, Eq)]
pub enum PhysicalOperator {
    Projection(PhysicalProjection),
    TableScan(PhysicalTableScan),
    CreateTable(PhysicalCreateTable),
    Insert(PhysicalInsert),
}

pub enum PhysView {
    Projection { plan_id: u32, exprs: Seq<ExprView>, input: Box<PhysView> },
    TableScan { plan_id: u32, base: ScanView },
    CreateTable { table_name: Seq<char>, columns: Seq<ColumnView> },
    Insert { table_name: Seq<char>, col_idxs: Seq<ColumnId>, cols: Seq<Seq<ValueView>> },
}

impl PhysicalOperator {
    /// The mathematical content of the operator and of what feeds it.
    pub open spec fn model(&self) -> PhysView
        decreases self,
    {
        match self {
            PhysicalOperator::Projection(p) => PhysView::Projection {
                plan_id: p.plan_id,
                exprs: views(p.exprs@),
                input: Box::new((*p.input).model()),
            },
            PhysicalOperator::TableScan(s) => PhysView::TableScan {
                plan_id: s.plan_id,
                base: s.base@,
            },
            PhysicalOperator::CreateTable(c) => PhysView::CreateTable {
                table_name: c.table_name@,
                columns: views(c.columns@),
            },
            PhysicalOperator::Insert(i) => PhysView::Insert {
                table_name: i.table_name@,
                col_idxs: i.col_idxs@,
                cols: rows_view(i.cols@),
            },
        }
    }
}

impl View for PhysicalOperator {
    type V = PhysView;

    open spec fn view(&self) -> PhysView {
        self.model()
    }
}

} // verus!
