//! From logical plans to physical plans.
use crate::catalog::column::{clone_columns, ColumnId};
use crate::execution::physical_plan::{
    PhysView, PhysicalCreateTable, PhysicalInsert, PhysicalOperator, PhysicalProjection,
    PhysicalTableScan,
};
use crate::expression::scalar::clone_exprs;
use crate::planner::operator::{Operator, OperatorView, ProjectOperator, ScanOperator};
use crate::planner::plan::{
    rows_view, CreateTableOperator, InsertOperator, LogicalPlan, LogicalSelectPlan, PlanView,
    SelectView,
};
use crate::types::value::{clone_values, views, DataValue};
use vstd::prelude::*;
use vstd::string::StringExecFns;

verus! {

/// The kinds of plan and operator that have no physical form.
#[derive(Clone, Copy, Debug, PartialEq, Eq, Structural)]
pub enum PlanKind {
    Filter,
    Join,
    Aggregate,
    Sort,
    Limit,
    Delete,
    Update,
    DropTable,
    Truncate,
    ShowTables,
    Copy,
}

/// Why a logical plan has no physical plan.
#[derive(Clone, Copy, Debug, PartialEq, Eq, Structural)]
pub enum PlanError {
    /// A plan or operator of this kind cannot be lowered.
    Unsupported(PlanKind),
    /// A projection has nothing that feeds it.
    MissingChild,
}

impl PlanKind {
    pub open spec fn name(self) -> Seq<char> {
        match self {
            PlanKind::Filter => "Filter"@,
            PlanKind::Join => "Join"@,
            PlanKind::Aggregate => "Aggregate"@,
            PlanKind::Sort => "Sort"@,
            PlanKind::Limit => "Limit"@,
            PlanKind::Delete => "Delete"@,
            PlanKind::Update => "Update"@,
            PlanKind::DropTable => "DropTable"@,
            PlanKind::Truncate => "Truncate"@,
            PlanKind::ShowTables => "ShowTables"@,
            PlanKind::Copy => "Copy"@,
        }
    }
}

impl PlanError {
    /// What went wrong, in words that name the offending plan.
    pub open spec fn text(self) -> Seq<char> {
        match self {
            PlanError::MissingChild => "Invalid physical plan: no child"@,
            PlanError::Unsupported(kind) => "Unsupported physical plan: "@ + kind.name(),
        }
    }

    /// What went wrong, in words that name the offending plan.
    pub fn message(&self) -> (r: String)
        ensures
            r@ == self.text(),
    {
        match self {
            PlanError::MissingChild => String::from_str("Invalid physical plan: no child"),
            PlanError::Unsupported(kind) => {
                let mut s = String::from_str("Unsupported physical plan: ");
                s.append(
                    match kind {
                        PlanKind::Filter => "Filter",
                        PlanKind::Join => "Join",
                        PlanKind::Aggregate => "Aggregate",
                        PlanKind::Sort => "Sort",
                        PlanKind::Limit => "Limit",
                        PlanKind::Delete => "Delete",
                        PlanKind::Update => "Update",
                        PlanKind::DropTable => "DropTable",
                        PlanKind::Truncate => "Truncate",
                        PlanKind::ShowTables => "ShowTables",
                        PlanKind::Copy => "Copy",
                    },
                );
                s
            },
        }
    }
}

/// The physical form of a query tree whose operators get the numbers from
/// `id` on, and the first number left free. What feeds an operator is
/// numbered before the operator itself.
pub open spec fn lower_select(p: SelectView, id: int) -> Result<(PhysView, int), PlanError>
    decreases p,
{
    match p.operator {
        OperatorView::Project(exprs) => if p.children.len() == 0 {
            Err(PlanError::MissingChild)
        } else {
            match lower_select(p.children[0], id) {
                Err(e) => Err(e),
                Ok((input, next)) => Ok(
                    (
                        PhysView::Projection {
                            plan_id: next as u32,
                            exprs,
                            input: Box::new(input),
                        },
                        next + 1,
                    ),
                ),
            }
        },
        OperatorView::Scan(base) => Ok((PhysView::TableScan { plan_id: id as u32, base }, id + 1)),
        OperatorView::Filter { .. } => Err(PlanError::Unsupported(PlanKind::Filter)),
        OperatorView::Join(_) => Err(PlanError::Unsupported(PlanKind::Join)),
        OperatorView::Aggregate { .. } => Err(PlanError::Unsupported(PlanKind::Aggregate)),
        OperatorView::Sort(_) => Err(PlanError::Unsupported(PlanKind::Sort)),
        OperatorView::Limit { .. } => Err(PlanError::Unsupported(PlanKind::Limit)),
    }
}

/// The physical form of a plan, and the first number left free.
pub open spec fn lower(p: PlanView, id: int) -> Result<(PhysView, int), PlanError> {
    match p {
        PlanView::Select(s) => lower_select(s, id),
        PlanView::CreateTable { table_name, columns, .. } => Ok(
            (PhysView::CreateTable { table_name, columns }, id),
        ),
        PlanView::Insert { table, col_idxs, cols, .. } => Ok(
            (PhysView::Insert { table_name: table, col_idxs, cols }, id),
        ),
        PlanView::Delete { .. } => Err(PlanError::Unsupported(PlanKind::Delete)),
        PlanView::Update { .. } => Err(PlanError::Unsupported(PlanKind::Update)),
        PlanView::DropTable { .. } => Err(PlanError::Unsupported(PlanKind::DropTable)),
        PlanView::Truncate { .. } => Err(PlanError::Unsupported(PlanKind::Truncate)),
        PlanView::ShowTables => Err(PlanError::Unsupported(PlanKind::ShowTables)),
        PlanView::Copy { .. } => Err(PlanError::Unsupported(PlanKind::Copy)),
    }
}

/// Lowering a query tree hands out at least one number.
pub proof fn lemma_lower_select_next(p: SelectView, id: int)
    ensures
        lower_select(p, id) matches Ok((_, next)) ==> id < next,
    decreases p,
{
    if p.operator is Project && p.children.len() > 0 {
        lemma_lower_select_next(p.children[0], id);
    }
}

impl PhysView {
    /// Every operator that bears a number bears one from `lo` up to, but
    /// not including, `hi`, and what feeds an operator bears smaller
    /// numbers than the operator itself.
    pub open spec fn numbered_within(self, lo: int, hi: int) -> bool
        decreases self,
    {
        match self {
            PhysView::Projection { plan_id, input, .. } => lo <= plan_id < hi
                && input.numbered_within(lo, plan_id as int),
            PhysView::TableScan { plan_id, .. } => lo <= plan_id < hi,
            _ => true,
        }
    }
}

/// Lowering numbers the operators in post-order: what feeds an operator is
/// numbered before it, from the first free number on, and the numbers
/// handed out are exactly those below the first number left free.
pub proof fn lemma_numbered_in_post_order(p: SelectView, id: int)
    requires
        0 <= id,
        select_fits(p, id),
    ensures
        lower_select(p, id) matches Ok((physical, next)) ==> physical.numbered_within(id, next),
    decreases p,
{
    if p.operator is Project && p.children.len() > 0 {
        lemma_numbered_in_post_order(p.children[0], id);
        lemma_lower_select_next(p.children[0], id);
    }
}

/// The numbers that lowering the query tree hands out are numbers that the
/// counter can count. A tree that is refused is handed no number.
pub open spec fn select_fits(p: SelectView, id: int) -> bool {
    lower_select(p, id) matches Ok((_, next)) ==> next <= u32::MAX
}

/// The numbers that lowering the plan hands out are numbers that the
/// counter can count. A plan that is refused is handed no number.
pub open spec fn numbers_fit(p: PlanView, id: int) -> bool {
    lower(p, id) matches Ok((_, next)) ==> next <= u32::MAX
}

/// Hands out plan numbers, each once and in rising order.
pub struct PhysicalPlanBuilder {
    pub plan_id: u32,
}

/// A copy of rows of values.
pub fn clone_rows(rows: &Vec<Vec<DataValue>>) -> (r: Vec<Vec<DataValue>>)
    ensures
        rows_view(r@) == rows_view(rows@),
{
    let mut r: Vec<Vec<DataValue>> = Vec::new();
    let mut i: usize = 0;
    while i < rows.len()
        invariant
            i <= rows@.len(),
            r@.len() == i,
            forall|j: int| 0 <= j < i ==> views(r@[j]@) == views(rows@[j]@),
        decreases rows@.len() - i,
    {
        r.push(clone_values(&rows[i]));
        i += 1;
    }
    assert(rows_view(r@) =~= rows_view(rows@));
    r
}

/// A copy of a list of column numbers.
pub fn clone_ids(ids: &Vec<ColumnId>) -> (r: Vec<ColumnId>)
    ensures
        r@ == ids@,
{
    let mut r: Vec<ColumnId> = Vec::new();
    let mut i: usize = 0;
    while i < ids.len()
        invariant
            i <= ids@.len(),
            r@ == ids@.take(i as int),
        decreases ids@.len() - i,
    {
        r.push(ids[i]);
        assert(r@ =~= ids@.take(i + 1));
        i += 1;
    }
    assert(ids@.take(i as int) =~= ids@);
    r
}

impl PhysicalPlanBuilder {
    /// A builder whose first number is zero.
    pub fn new() -> (r: Self)
        ensures
            r.plan_id == 0,
    {
        PhysicalPlanBuilder { plan_id: 0 }
    }

    /// The next number.
    pub fn next_plan_id(&mut self) -> (id: u32)
        requires
            old(self).plan_id < u32::MAX,
        ensures
            id == old(self).plan_id,
            final(self).plan_id == id + 1,
    {
        let id = self.plan_id;
        self.plan_id += 1;
        id
    }

    /// The physical plan of a logical plan. Only projections over scans,
    /// table creation and insertion have one.
    pub fn build_plan(&mut self, plan: &LogicalPlan) -> (r: Result<PhysicalOperator, PlanError>)
        requires
            numbers_fit(plan@, old(self).plan_id as int),
        ensures
            match lower(plan@, old(self).plan_id as int) {
                Ok((p, next)) => r matches Ok(op) && op@ == p && final(self).plan_id == next,
                Err(e) => r == Err::<PhysicalOperator, PlanError>(e) && final(self).plan_id
                    == old(self).plan_id,
            },
    {
        match plan {
            LogicalPlan::Select(select) => self.build_select_logical_plan(select),
            LogicalPlan::CreateTable(create_table) => Ok(
                self.build_create_table_logic_plan(create_table),
            ),
            LogicalPlan::Insert(insert) => Ok(self.build_insert_logic_plan(insert)),
            LogicalPlan::Delete(_) => Err(PlanError::Unsupported(PlanKind::Delete)),
            LogicalPlan::Update(_) => Err(PlanError::Unsupported(PlanKind::Update)),
            LogicalPlan::DropTable(_) => Err(PlanError::Unsupported(PlanKind::DropTable)),
            LogicalPlan::Truncate(_) => Err(PlanError::Unsupported(PlanKind::Truncate)),
            LogicalPlan::ShowTables => Err(PlanError::Unsupported(PlanKind::ShowTables)),
            LogicalPlan::Copy(_) => Err(PlanError::Unsupported(PlanKind::Copy)),
        }
    }

    fn build_insert_logic_plan(&mut self, plan: &InsertOperator) -> (r: PhysicalOperator)
        ensures
            r@ == (PhysView::Insert {
                table_name: plan.table@,
                col_idxs: plan.col_idxs@,
                cols: rows_view(plan.cols@),
            }),
            final(self).plan_id == old(self).plan_id,
    {
        PhysicalOperator::Insert(
            PhysicalInsert {
                table_name: plan.table.clone(),
                col_idxs: clone_ids(&plan.col_idxs),
                cols: clone_rows(&plan.cols),
            },
        )
    }

    fn build_create_table_logic_plan(&mut self, plan: &CreateTableOperator) -> (r: PhysicalOperator)
        ensures
            r@ == (PhysView::CreateTable {
                table_name: plan.table_name@,
                columns: views(plan.columns@),
            }),
            final(self).plan_id == old(self).plan_id,
    {
        PhysicalOperator::CreateTable(
            PhysicalCreateTable {
                table_name: plan.table_name.clone(),
                columns: clone_columns(&plan.columns),
            },
        )
    }

    fn build_select_logical_plan(&mut self, plan: &LogicalSelectPlan) -> (r: Result<
        PhysicalOperator,
        PlanError,
    >)
        requires
            select_fits(plan@, old(self).plan_id as int),
        ensures
            match lower_select(plan@, old(self).plan_id as int) {
                Ok((p, next)) => r matches Ok(op) && op@ == p && final(self).plan_id == next,
                Err(e) => r == Err::<PhysicalOperator, PlanError>(e) && final(self).plan_id
                    == old(self).plan_id,
            },
        decreases plan,
    {
        match &plan.operator {
            Operator::Project(op) => self.build_physical_projection(plan, op),
            Operator::Scan(scan) => Ok(self.build_physical_scan(scan.clone())),
            Operator::Filter(_) => Err(PlanError::Unsupported(PlanKind::Filter)),
            Operator::Join(_) => Err(PlanError::Unsupported(PlanKind::Join)),
            Operator::Aggregate(_) => Err(PlanError::Unsupported(PlanKind::Aggregate)),
            Operator::Sort(_) => Err(PlanError::Unsupported(PlanKind::Sort)),
            Operator::Limit(_) => Err(PlanError::Unsupported(PlanKind::Limit)),
        }
    }

    fn build_physical_projection(&mut self, plan: &LogicalSelectPlan, op: &ProjectOperator) -> (r:
        Result<PhysicalOperator, PlanError>)
        requires
            plan.operator == Operator::Project(*op),
            select_fits(plan@, old(self).plan_id as int),
        ensures
            match lower_select(plan@, old(self).plan_id as int) {
                Ok((p, next)) => r matches Ok(op) && op@ == p && final(self).plan_id == next,
                Err(e) => r == Err::<PhysicalOperator, PlanError>(e) && final(self).plan_id
                    == old(self).plan_id,
            },
        decreases plan, 0int,
    {
        let child = match plan.child(0) {
            Some(c) => c,
            None => {
                return Err(PlanError::MissingChild);
            },
        };
        proof {
            assert(plan@.children[0] == child@);
            lemma_lower_select_next(child@, self.plan_id as int);
        }
        let input = match self.build_select_logical_plan(child) {
            Ok(p) => p,
            Err(e) => {
                return Err(e);
            },
        };
        Ok(
            PhysicalOperator::Projection(
                PhysicalProjection {
                    plan_id: self.next_plan_id(),
                    exprs: clone_exprs(&op.columns),
                    input: Box::new(input),
                },
            ),
        )
    }

    fn build_physical_scan(&mut self, base: ScanOperator) -> (r: PhysicalOperator)
        requires
            old(self).plan_id < u32::MAX,
        ensures
            r@ == (PhysView::TableScan { plan_id: old(self).plan_id, base: base@ }),
            final(self).plan_id == old(self).plan_id + 1,
    {
        PhysicalOperator::TableScan(PhysicalTableScan { plan_id: self.next_plan_id(), base })
    }
}

} // verus!
