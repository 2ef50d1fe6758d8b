//! Plans, one kind for each kind of statement.
use crate::catalog::column::{ColumnCatalog, ColumnId, ColumnView};
use crate::catalog::table::TableName;
use crate::expression::scalar::{ExprView, ScalarExpression};
use crate::planner::operator::{Operator, OperatorView};
use crate::types::value::{views, DataValue, ValueView};
use vstd::prelude::*;

verus! {

/// The tree of a query: an operator over the trees that feed it.
#[derive(Debug, PartialEq, Eq)]
pub struct LogicalSelectPlan {
    pub operator: Operator,
    pub children: Vec<LogicalSelectPlan>,
}

pub struct SelectView {
    pub operator: OperatorView,
    pub children: Seq<SelectView>,
}

impl LogicalSelectPlan {
    /// The mathematical content of the tree.
    pub open spec fn model(&self) -> SelectView
        decreases self,
    {
        SelectView {
            operator: self.operator@,
            children: Seq::new(
                self.children@.len(),
                |i: int|
                    if 0 <= i < self.children@.len() {
                        self.children@[i].model()
                    } else {
                        arbitrary()
                    },
            ),
        }
    }

    /// The first of the trees that feed this one.
    pub fn child(&self, index: usize) -> (r: Option<&LogicalSelectPlan>)
        ensures
            index < self.children@.len() ==> r == Some(&self.children@[index as int]),
            index >= self.children@.len() ==> r is None,
    {
        if index < self.children.len() {
            Some(&self.children[index])
        } else {
            None
        }
    }
}

impl View for LogicalSelectPlan {
    type V = SelectView;

    open spec fn view(&self) -> SelectView {
        self.model()
    }
}

#[derive(Debug, PartialEq, Eq)]
pub struct CreateTableOperator {
    pub table_name: TableName,
    pub columns: Vec<ColumnCatalog>,
    pub if_not_exists: bool,
}

/// Rows to write: for each row one value per column of `col_idxs`.
#[derive(Debug, PartialEq, Eq)]
pub struct InsertOperator {
    pub table: TableName,
    pub col_idxs: Vec<ColumnId>,
    pub cols: Vec<Vec<DataValue>>,
    pub is_overwrite: bool,
}

#[derive(Debug, PartialEq, Eq)]
pub struct DeleteOperator {
    pub table_name: TableName,
    pub input: LogicalSelectPlan,
}

#[derive(Debug, PartialEq, Eq)]
pub struct UpdateOperator {
    pub table_name: TableName,
    pub columns: Vec<ColumnCatalog>,
    pub values: Vec<ScalarExpression>,
    pub input: LogicalSelectPlan,
}

#[derive(Debug, PartialEq, Eq)]
pub struct DropTableOperator {
    pub table_name: TableName,
    pub if_exists: bool,
}

#[derive(Debug, PartialEq, Eq)]
pub struct TruncateOperator {
    pub table_name: TableName,
}

/// A copy between a table and a file: the file, whether the table is the
/// source, and the options given as pairs of name and value.
#[derive(Debug, PartialEq, Eq)]
pub struct CopyOperator {
    pub table_name: TableName,
    pub to: bool,
    pub target: String,
    pub options: Vec<(String, String)>,
    pub columns: Vec<ColumnCatalog>,
}

#[derive(Debug, PartialEq, Eq)]
pub enum LogicalPlan {
    Select(LogicalSelectPlan),
    CreateTable(CreateTableOperator),
    Insert(InsertOperator),
    Delete(DeleteOperator),
    Update(UpdateOperator),
    DropTable(DropTableOperator),
    Truncate(TruncateOperator),
    ShowTables,
    Copy(CopyOperator),
}

pub enum PlanView {
    Select(SelectView),
    CreateTable { table_name: Seq<char>, columns: Seq<ColumnView>, if_not_exists: bool },
    Insert {
        table: Seq<char>,
        col_idxs: Seq<ColumnId>,
        cols: Seq<Seq<ValueView>>,
        is_overwrite: bool,
    },
    Delete { table_name: Seq<char>, input: SelectView },
    Update {
        table_name: Seq<char>,
        columns: Seq<ColumnView>,
        values: Seq<ExprView>,
        input: SelectView,
    },
    DropTable { table_name: Seq<char>, if_exists: bool },
    Truncate { table_name: Seq<char> },
    ShowTables,
    Copy {
        table_name: Seq<char>,
        to: bool,
        target: Seq<char>,
        options: Seq<(Seq<char>, Seq<char>)>,
        columns: Seq<ColumnView>,
    },
}

/// The content of rows of values.
pub open spec fn rows_view(rows: Seq<Vec<DataValue>>) -> Seq<Seq<ValueView>> {
    rows.map_values(|r: Vec<DataValue>| views(r@))
}

/// The content of pairs of texts.
pub open spec fn pairs_view(s: Seq<(String, String)>) -> Seq<(Seq<char>, Seq<char>)> {
    s.map_values(|p: (String, String)| (p.0@, p.1@))
}

impl View for LogicalPlan {
    type V = PlanView;

    open spec fn view(&self) -> PlanView {
        match self {
            LogicalPlan::Select(p) => PlanView::Select(p@),
            LogicalPlan::CreateTable(op) => PlanView::CreateTable {
                table_name: op.table_name@,
                columns: views(op.columns@),
                if_not_exists: op.if_not_exists,
            },
            LogicalPlan::Insert(op) => PlanView::Insert {
                table: op.table@,
                col_idxs: op.col_idxs@,
                cols: rows_view(op.cols@),
                is_overwrite: op.is_overwrite,
            },
            LogicalPlan::Delete(op) => PlanView::Delete {
                table_name: op.table_name@,
                input: op.input@,
            },
            LogicalPlan::Update(op) => PlanView::Update {
                table_name: op.table_name@,
                columns: views(op.columns@),
                values: views(op.values@),
                input: op.input@,
            },
            LogicalPlan::DropTable(op) => PlanView::DropTable {
                table_name: op.table_name@,
                if_exists: op.if_exists,
            },
            LogicalPlan::Truncate(op) => PlanView::Truncate { table_name: op.table_name@ },
            LogicalPlan::ShowTables => PlanView::ShowTables,
            LogicalPlan::Copy(op) => PlanView::Copy {
                table_name: op.table_name@,
                to: op.to,
                target: op.target@,
                options: pairs_view(op.options@),
                columns: views(op.columns@),
            },
        }
    }
}

} // verus!
