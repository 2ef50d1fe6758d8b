//! The binder itself: one statement in, one plan out.
use crate::binder::context::{
    answer_view, answered, is_answer, BinderContext, BoundTable, ContextView,
};
use crate::binder::create_table::{
    create_table_bound, create_table_plan, table_name_of, table_of_name,
};
use crate::binder::error::{BindError, BindErrorView};
use crate::binder::insert::{
    copy_bound, copy_plan, drop_table_plan, insert_bound, insert_plan, truncate_plan,
};
use crate::binder::name::{lowercase, to_lowercase};
use crate::binder::query::{fresh, lemma_bound_expr_keys, table_bound};
use crate::binder::select::{
    bind_count, bound_sort, bound_where, filtered, from_plan, make_over, over, query_bound,
    scan_table, table_scan,
};
use crate::catalog::column::{ColumnCatalog, ColumnView};
use crate::catalog::table::{position, TableCatalog, TableView};
use crate::expression::scalar::{ExprView, ScalarExpression};
use crate::parser::ast::{
    Assignment, CopySource, CopyTarget, Expr, ObjectType, Query, SetExpr, Statement, StatementKind,
    TableFactor, TableWithJoins,
};
use crate::planner::operator::{
    sort_views, AggregateOperator, FilterOperator, JoinOperator, JoinType, LimitOperator, Operator,
    ProjectOperator, SortField, SortOperator,
};
use crate::planner::plan::{
    pairs_view, DeleteOperator, LogicalPlan, LogicalSelectPlan, PlanView, UpdateOperator,
};
use crate::storage::transaction::Transaction;
use crate::types::value::views;
use crate::util::attempt::{
    attempt_all, lemma_attempt_none, lemma_attempt_step, lemma_attempt_stop,
};
use vstd::prelude::*;
use vstd::string::StringExecFns;

verus! {

/// The tree that reads the bound tables.
#[verifier::loop_isolation(false)]
fn plan_from(tables: &Vec<BoundTable>) -> (r: LogicalSelectPlan)
    requires
        tables@.len() > 0,
    ensures
        r@ == from_plan(views(tables@)),
{
    let ghost tv = views(tables@);
    let mut p = scan_table(&tables[0]);
    let mut i: usize = 1;
    assert(tv.take(1)[0] == tables@[0]@);
    while i < tables.len()
        invariant
            1 <= i <= tables@.len(),
            p@ == from_plan(tv.take(i as int)),
        decreases tables@.len() - i,
    {
        let right = scan_table(&tables[i]);
        let join_type = match tables[i].join_type {
            Some(j) => j,
            None => JoinType::Cross,
        };
        let ghost left_view = p@;
        let mut children: Vec<LogicalSelectPlan> = Vec::new();
        children.push(p);
        children.push(right);
        p = LogicalSelectPlan { operator: Operator::Join(JoinOperator { join_type }), children };
        proof {
            assert(tv.take(i + 1).drop_last() =~= tv.take(i as int));
            assert(tv.take(i + 1).last() == tables@[i as int]@);
            assert(p@.children =~= seq![left_view, table_scan(tables@[i as int]@)]);
        }
        i += 1;
    }
    assert(tv.take(i as int) =~= tv);
    p
}

/// The tree with a filter on top, where there is a predicate.
pub fn with_filter(p: LogicalSelectPlan, predicate: Option<ScalarExpression>) -> (r:
    LogicalSelectPlan)
    ensures
        r@ == filtered(
            p@,
            match predicate {
                Some(x) => Some(x@),
                None => None,
            },
        ),
{
    match predicate {
        Some(x) => make_over(Operator::Filter(FilterOperator { predicate: x, having: false }), p),
        None => p,
    }
}

/// The plan of `DELETE` from the one table that is bound: the rows of
/// the table that pass the filter. Refused with the statement's text
/// unless exactly one table is bound.
pub open spec fn delete_bound(ctx: ContextView, selection: Option<Expr>, text: Seq<char>)
    -> Result<PlanView, BindErrorView> {
    if ctx.bind_table.len() != 1 {
        Err(BindErrorView::UnsupportedStmt(text))
    } else {
        match bound_where(ctx, selection) {
            Err(e) => Err(e),
            Ok(predicate) => Ok(
                PlanView::Delete {
                    table_name: ctx.bind_table[0].name,
                    input: filtered(table_scan(ctx.bind_table[0]), predicate),
                },
            ),
        }
    }
}

/// One assignment of `UPDATE`: the column of the bound table that the
/// last part of the name names, and the bound expression.
pub open spec fn bound_assignment(ctx: ContextView) -> spec_fn(int, Assignment) -> Result<
    (ColumnView, ExprView),
    BindErrorView,
> {
    |i: int, a: Assignment|
        if a.id@.len() == 0 {
            Err(BindErrorView::InvalidColumn(Seq::empty()))
        } else {
            match position(ctx.bind_table[0].catalog.columns, lowercase(a.id@.last()@)) {
                None => Err(BindErrorView::InvalidColumn(lowercase(a.id@.last()@))),
                Some(j) => match ctx.bound_expr(a.value) {
                    Err(e) => Err(e),
                    Ok(x) => Ok((ctx.bind_table[0].catalog.columns[j], x)),
                },
            }
        }
}

/// The plan of `UPDATE` of the one table that is bound: the columns to
/// set and the expressions to set them to, over the rows of the table that
/// pass the filter. Refused with the statement's text unless exactly one
/// table is bound.
pub open spec fn update_bound(
    ctx: ContextView,
    assignments: Seq<Assignment>,
    selection: Option<Expr>,
    text: Seq<char>,
) -> Result<PlanView, BindErrorView> {
    if ctx.bind_table.len() != 1 {
        Err(BindErrorView::UnsupportedStmt(text))
    } else {
        match attempt_all(assignments, bound_assignment(ctx)) {
            Err(e) => Err(e),
            Ok(pairs) => match bound_where(ctx, selection) {
                Err(e) => Err(e),
                Ok(predicate) => Ok(
                    PlanView::Update {
                        table_name: ctx.bind_table[0].name,
                        columns: pairs.map_values(|p: (ColumnView, ExprView)| p.0),
                        values: pairs.map_values(|p: (ColumnView, ExprView)| p.1),
                        input: filtered(table_scan(ctx.bind_table[0]), predicate),
                    },
                ),
            },
        }
    }
}

/// An alias in lower case.
pub open spec fn lowered(alias: Option<String>) -> Option<Seq<char>> {
    match alias {
        Some(a) => Some(lowercase(a@)),
        None => None,
    }
}

/// A table of `FROM`, and how it is joined to the tables before it.
pub type TableRef = (TableFactor, Option<JoinType>);

/// The tables of `FROM` in order: each table, then the tables joined to
/// it.
pub open spec fn from_refs(from: Seq<TableWithJoins>) -> Seq<TableRef>
    decreases from.len(),
{
    if from.len() == 0 {
        Seq::empty()
    } else {
        from_refs(from.drop_last()) + seq![(from.last().relation, None)]
            + from.last().joins@.map_values(|f: TableFactor| (f, Some(JoinType::Inner)))
    }
}

/// The state after one table of `FROM` is bound, given what the
/// transaction answered for it.
pub open spec fn one_bound(ctx: ContextView, r: TableRef, catalog: Option<TableView>) -> Result<
    ContextView,
    BindErrorView,
> {
    match table_of_name(r.0.name) {
        Err(e) => Err(e),
        Ok(table) => table_bound(ctx, table, lowered(r.0.alias), catalog, r.1),
    }
}

/// `catalog` is what the transaction answered for a table of `FROM` when
/// it was asked in the state `ctx`: asked for the table by its real name,
/// as that state knows it. A table whose name is refused is not asked for.
pub open spec fn one_asked<T: Transaction>(
    transaction: &T,
    ctx: ContextView,
    r: TableRef,
    catalog: Option<TableView>,
) -> bool {
    match table_of_name(r.0.name) {
        Ok(table) => answered(transaction, ctx.real_name(table), catalog),
        Err(_) => true,
    }
}

/// The state after the first `n` tables of `FROM` are bound in order, given
/// what the transaction answered for each; the error of the first table
/// that is refused.
pub open spec fn bound_from(
    ctx: ContextView,
    refs: Seq<TableRef>,
    answers: Seq<Option<TableView>>,
    n: nat,
) -> Result<ContextView, BindErrorView>
    decreases n,
{
    if n == 0 {
        Ok(ctx)
    } else {
        match bound_from(ctx, refs, answers, (n - 1) as nat) {
            Err(e) => Err(e),
            Ok(c) => one_bound(c, refs[n - 1], answers[n - 1]),
        }
    }
}

/// The answer for the `i`-th table of `FROM` is what the transaction
/// answered when it was asked for that table, in the state that binding the
/// tables before it had led to. Where a table before it was refused, the
/// table was not asked for.
pub open spec fn asked_at<T: Transaction>(
    transaction: &T,
    ctx: ContextView,
    refs: Seq<TableRef>,
    answers: Seq<Option<TableView>>,
    i: int,
) -> bool {
    match bound_from(ctx, refs, answers, i as nat) {
        Ok(c) => one_asked(transaction, c, refs[i], answers[i]),
        Err(_) => true,
    }
}

/// Each of the first `n` answers is the transaction's own.
pub open spec fn asked<T: Transaction>(
    transaction: &T,
    ctx: ContextView,
    refs: Seq<TableRef>,
    answers: Seq<Option<TableView>>,
    n: nat,
) -> bool {
    forall|i: int| 0 <= i < n ==> #[trigger] asked_at(transaction, ctx, refs, answers, i)
}

/// Only the answers for the tables bound matter.
pub proof fn lemma_from_agree(
    ctx: ContextView,
    refs: Seq<TableRef>,
    a: Seq<Option<TableView>>,
    b: Seq<Option<TableView>>,
    n: nat,
)
    requires
        n <= a.len(),
        n <= b.len(),
        forall|i: int| 0 <= i < n ==> a[i] == b[i],
    ensures
        bound_from(ctx, refs, a, n) == bound_from(ctx, refs, b, n),
    decreases n,
{
    if n > 0 {
        lemma_from_agree(ctx, refs, a, b, (n - 1) as nat);
    }
}

/// Answers that agree on the first `n` tables are the transaction's own
/// for those tables together.
pub proof fn lemma_asked_agree<T: Transaction>(
    transaction: &T,
    ctx: ContextView,
    refs: Seq<TableRef>,
    a: Seq<Option<TableView>>,
    b: Seq<Option<TableView>>,
    n: nat,
)
    requires
        n <= a.len(),
        n <= b.len(),
        forall|i: int| 0 <= i < n ==> a[i] == b[i],
        asked(transaction, ctx, refs, a, n),
    ensures
        asked(transaction, ctx, refs, b, n),
{
    assert forall|i: int| 0 <= i < n implies #[trigger] asked_at(
        transaction,
        ctx,
        refs,
        b,
        i,
    ) by {
        lemma_from_agree(ctx, refs, a, b, i as nat);
        assert(asked_at(transaction, ctx, refs, a, i));
    }
}

/// Where one of the first tables is refused, the whole `FROM` is, for
/// that reason.
pub proof fn lemma_from_stop(
    ctx: ContextView,
    refs: Seq<TableRef>,
    answers: Seq<Option<TableView>>,
    n: nat,
    m: nat,
)
    requires
        n <= m,
        bound_from(ctx, refs, answers, n) is Err,
    ensures
        bound_from(ctx, refs, answers, m) == bound_from(ctx, refs, answers, n),
    decreases m,
{
    if n < m {
        lemma_from_stop(ctx, refs, answers, n, (m - 1) as nat);
    }
}

/// The content of references to tables.
pub open spec fn ref_views(s: Seq<(&TableFactor, Option<JoinType>)>) -> Seq<TableRef> {
    s.map_values(|r: (&TableFactor, Option<JoinType>)| (*r.0, r.1))
}

/// The tables of `FROM` in order.
#[verifier::loop_isolation(false)]
pub fn table_refs(from: &Vec<TableWithJoins>) -> (r: Vec<(&TableFactor, Option<JoinType>)>)
    ensures
        ref_views(r@) == from_refs(from@),
{
    let mut r: Vec<(&TableFactor, Option<JoinType>)> = Vec::new();
    let mut i: usize = 0;
    assert(from@.take(0) =~= Seq::empty());
    assert(ref_views(r@) =~= Seq::empty());
    while i < from.len()
        invariant
            i <= from@.len(),
            ref_views(r@) == from_refs(from@.take(i as int)),
        decreases from@.len() - i,
    {
        let ghost before = ref_views(r@);
        let ghost joins = from@[i as int].joins@;
        let ghost f = |f: TableFactor| (f, Some(JoinType::Inner));
        r.push((&from[i].relation, None));
        let mut j: usize = 0;
        assert(ref_views(r@) =~= before + seq![(from@[i as int].relation, None)]
            + joins.take(0).map_values(f));
        while j < from[i].joins.len()
            invariant
                j <= joins.len(),
                ref_views(r@) == before + seq![(from@[i as int].relation, None)] + joins.take(
                    j as int,
                ).map_values(f),
            decreases joins.len() - j,
        {
            let ghost earlier = ref_views(r@);
            r.push((&from[i].joins[j], Some(JoinType::Inner)));
            assert(ref_views(r@) =~= earlier.push((joins[j as int], Some(JoinType::Inner))));
            assert(joins.take(j + 1).map_values(f) =~= joins.take(j as int).map_values(f).push(
                (joins[j as int], Some(JoinType::Inner)),
            ));
            j += 1;
        }
        assert(joins.take(j as int) =~= joins);
        assert(from@.take(i + 1).drop_last() =~= from@.take(i as int));
        assert(from@.take(i + 1).last() == from@[i as int]);
        i += 1;
    }
    assert(from@.take(i as int) =~= from@);
    r
}

/// Statements of shapes that the binder does not take.
pub open spec fn unsupported(kind: StatementKind) -> bool {
    match kind {
        StatementKind::Other => true,
        StatementKind::Drop { object_type, names, .. } => !(object_type is Table) || names@.len()
            == 0,
        StatementKind::Insert { source, .. } => source is Other,
        StatementKind::Update { table, .. } => table.joins@.len() > 0,
        StatementKind::Delete { from, .. } => from@.len() != 1 || from@[0].joins@.len() > 0,
        _ => false,
    }
}

/// Binds statements against the tables of a transaction.
pub struct Binder<'a, T: Transaction> {
    pub context: BinderContext<'a, T>,
}

impl<'a, T: Transaction> Binder<'a, T> {
    pub fn new(context: BinderContext<'a, T>) -> (r: Self)
        ensures
            r.context == context,
    {
        Binder { context }
    }

    /// The predicate of `WHERE`, bound.
    pub fn bind_where(&self, selection: &Option<Expr>) -> (r: Result<
        Option<ScalarExpression>,
        BindError,
    >)
        ensures
            match bound_where(self.context@, *selection) {
                Ok(Some(p)) => r matches Ok(Some(x)) && x@ == p,
                Ok(None) => r matches Ok(None),
                Err(e) => r matches Err(x) && x@ == e,
            },
    {
        match selection {
            None => Ok(None),
            Some(e) => match self.context.bind_expr(e) {
                Ok(x) => Ok(Some(x)),
                Err(e) => Err(e),
            },
        }
    }

    /// Binds one table of `FROM`: asks the transaction for it under its
    /// real name and binds what is found.
    pub fn bind_table_ref(&mut self, factor: &TableFactor, join_type: Option<JoinType>) -> (r:
        Result<(), BindError>)
        ensures
            final(self).context.transaction == old(self).context.transaction,
            exists|catalog: Option<TableView>|
                one_asked(
                    old(self).context.transaction,
                    old(self).context@,
                    (*factor, join_type),
                    catalog,
                ) && match #[trigger] one_bound(old(self).context@, (*factor, join_type), catalog) {
                    Ok(c) => r is Ok && final(self).context@ == c,
                    Err(e) => r matches Err(x) && x@ == e,
                },
    {
        let table = match table_name_of(&factor.name) {
            Ok(t) => t,
            Err(e) => {
                proof {
                    let w = one_bound(self.context@, (*factor, join_type), None);
                    assert(w is Err);
                }
                return Err(e);
            },
        };
        let alias = match &factor.alias {
            Some(a) => Some(to_lowercase(a.as_str())),
            None => None,
        };
        let transaction = self.context.transaction;
        let name = self.context.resolve_table_name(table.clone());
        let found = transaction.table(name);
        let ghost catalog = answer_view(found);
        let ghost before = self.context@;
        assert(is_answer(transaction, name, found));
        assert(answered(transaction, before.real_name(table@), catalog));
        let r = self.context.bind_found_table(table, alias, found, join_type);
        proof {
            let w = one_bound(before, (*factor, join_type), catalog);
            assert(match w {
                Ok(c) => r is Ok && self.context@ == c,
                Err(e) => r matches Err(x) && x@ == e,
            });
        }
        r
    }

    /// Binds the tables of `FROM`, in order: each table, then the tables
    /// joined to it. What comes of it depends on what the transaction
    /// answers for each table, and on nothing else.
    #[verifier::loop_isolation(false)]
    pub fn bind_from(&mut self, from: &Vec<TableWithJoins>) -> (r: Result<(), BindError>)
        ensures
            final(self).context.transaction == old(self).context.transaction,
            exists|answers: Seq<Option<TableView>>|
                answers.len() == from_refs(from@).len() && asked(
                    old(self).context.transaction,
                    old(self).context@,
                    from_refs(from@),
                    answers,
                    from_refs(from@).len(),
                ) && match #[trigger] bound_from(
                    old(self).context@,
                    from_refs(from@),
                    answers,
                    from_refs(from@).len(),
                ) {
                    Ok(c) => r is Ok && final(self).context@ == c,
                    Err(e) => r matches Err(x) && x@ == e,
                },
    {
        let refs = table_refs(from);
        let ghost all = from_refs(from@);
        let ghost start = self.context@;
        let ghost tx = self.context.transaction;
        let ghost mut answers: Seq<Option<TableView>> = Seq::empty();
        let mut i: usize = 0;
        while i < refs.len()
            invariant
                i <= refs@.len(),
                all == ref_views(refs@),
                answers.len() == i,
                self.context.transaction == tx,
                asked(tx, start, all, answers, i as nat),
                bound_from(start, all, answers, i as nat) == Ok::<ContextView, BindErrorView>(
                    self.context@,
                ),
            decreases refs@.len() - i,
        {
            let ghost before = self.context@;
            let ghost one = all[i as int];
            assert(one == (*refs@[i as int].0, refs@[i as int].1));
            let r = self.bind_table_ref(refs[i].0, refs[i].1);
            proof {
                let answer = choose|catalog: Option<TableView>|
                    one_asked(tx, before, one, catalog) && match #[trigger] one_bound(
                        before,
                        one,
                        catalog,
                    ) {
                        Ok(c) => r is Ok && self.context@ == c,
                        Err(e) => r matches Err(x) && x@ == e,
                    };
                let next = answers.push(answer);
                lemma_asked_agree(tx, start, all, answers, next, i as nat);
                lemma_from_agree(start, all, answers, next, i as nat);
                assert(asked_at(tx, start, all, next, i as int));
                answers = next;
            }
            match r {
                Ok(()) => {},
                Err(e) => {
                    proof {
                        let rest = (all.len() - answers.len()) as nat;
                        let padded = answers + Seq::new(rest, |k: int| None::<TableView>);
                        lemma_asked_agree(tx, start, all, answers, padded, (i + 1) as nat);
                        lemma_from_agree(start, all, answers, padded, (i + 1) as nat);
                        lemma_from_stop(start, all, padded, (i + 1) as nat, all.len());
                        assert(padded.len() == all.len());
                        assert forall|k: int| 0 <= k < all.len() implies #[trigger] asked_at(
                            tx,
                            start,
                            all,
                            padded,
                            k,
                        ) by {
                            if k > i {
                                lemma_from_stop(start, all, padded, (i + 1) as nat, k as nat);
                            }
                        }
                    }
                    return Err(e);
                },
            }
            i += 1;
        }
        Ok(())
    }

    /// The plan of a query over the tables that are bound.
    #[verifier::loop_isolation(false)]
    pub fn bind_query_body(&mut self, q: &Query, text: &String) -> (r: Result<
        LogicalSelectPlan,
        BindError,
    >)
        ensures
            match query_bound(fresh(old(self).context@), *q, text@) {
                Ok((p, c)) => r matches Ok(x) && x@ == p && final(self).context@ == c,
                Err(e) => r matches Err(x) && x@ == e,
            },
            final(self).context.transaction == old(self).context.transaction,
    {
        self.context.agg_calls.clear();
        self.context.group_by_exprs.clear();
        assert(self.context@ == fresh(old(self).context@)) by {
            assert(self.context@.agg_calls =~= Seq::empty());
            assert(self.context@.group_by_exprs =~= Seq::empty());
        }
        if self.context.bind_table.len() == 0 {
            return Err(BindError::UnsupportedStmt(text.clone()));
        }
        let list = match self.context.bind_select_list(&q.body.projection) {
            Ok(l) => l,
            Err(e) => {
                return Err(e);
            },
        };
        let ghost c1 = self.context@;
        proof {
            crate::binder::query::lemma_items_keep(q.body.projection@, fresh(old(self).context@));
            assert(fresh(c1) == c1);
        }
        let predicate = match self.bind_where(&q.body.selection) {
            Ok(p) => p,
            Err(e) => {
                return Err(e);
            },
        };
        let final_list = match self.context.bind_aggregates(list, &q.body.group_by, text) {
            Ok(l) => l,
            Err(e) => {
                return Err(e);
            },
        };
        let ghost sorter = bound_sort(c1);
        let mut fields: Vec<SortField> = Vec::new();
        let mut i: usize = 0;
        proof {
            lemma_attempt_none(q.order_by@, sorter);
            assert(sort_views(fields@) =~= Seq::empty());
        }
        while i < q.order_by.len()
            invariant
                i <= q.order_by@.len(),
                attempt_all(q.order_by@.take(i as int), sorter) == Ok::<
                    Seq<(ExprView, bool)>,
                    BindErrorView,
                >(sort_views(fields@)),
            decreases q.order_by@.len() - i,
        {
            proof {
                lemma_attempt_step(q.order_by@, sorter, i as int);
                lemma_bound_expr_keys(self.context@, c1, q.order_by@[i as int].expr);
            }
            match self.context.bind_expr(&q.order_by[i].expr) {
                Err(e) => {
                    proof {
                        lemma_attempt_stop(q.order_by@, sorter, i + 1);
                    }
                    return Err(e);
                },
                Ok(x) => {
                    let asc = match q.order_by[i].asc {
                        Some(false) => false,
                        _ => true,
                    };
                    let field = SortField { expr: x, asc };
                    assert(sort_views(fields@).push((field.expr@, field.asc)) =~= sort_views(
                        fields@.push(field),
                    ));
                    fields.push(field);
                },
            }
            i += 1;
        }
        assert(q.order_by@.take(i as int) =~= q.order_by@);
        let limit = match bind_count(&q.limit) {
            Ok(n) => n,
            Err(e) => {
                return Err(e);
            },
        };
        let offset = match bind_count(&q.offset) {
            Ok(n) => n,
            Err(e) => {
                return Err(e);
            },
        };
        let mut plan = with_filter(plan_from(&self.context.bind_table), predicate);
        if self.context.agg_calls.len() > 0 || self.context.group_by_exprs.len() > 0 {
            plan = make_over(
                Operator::Aggregate(
                    AggregateOperator {
                        groupby_exprs: crate::expression::scalar::clone_exprs(
                            &self.context.group_by_exprs,
                        ),
                        agg_calls: crate::expression::scalar::clone_exprs(&self.context.agg_calls),
                    },
                ),
                plan,
            );
        }
        if fields.len() > 0 {
            plan = make_over(Operator::Sort(SortOperator { sort_fields: fields }), plan);
        }
        plan = make_over(Operator::Project(ProjectOperator { columns: final_list }), plan);
        if limit.is_some() || offset.is_some() {
            plan = make_over(Operator::Limit(LimitOperator { offset, limit }), plan);
        }
        Ok(plan)
    }

    /// The plan of `DELETE` from the one table that is bound.
    pub fn bind_delete_body(&self, selection: &Option<Expr>, text: &String) -> (r: Result<
        LogicalPlan,
        BindError,
    >)
        ensures
            match delete_bound(self.context@, *selection, text@) {
                Ok(p) => r matches Ok(x) && x@ == p,
                Err(e) => r matches Err(x) && x@ == e,
            },
    {
        if self.context.bind_table.len() != 1 {
            return Err(BindError::UnsupportedStmt(text.clone()));
        }
        let predicate = match self.bind_where(selection) {
            Ok(p) => p,
            Err(e) => {
                return Err(e);
            },
        };
        let table = &self.context.bind_table[0];
        assert(self.context@.bind_table[0] == table@);
        Ok(
            LogicalPlan::Delete(
                DeleteOperator {
                    table_name: table.name.clone(),
                    input: with_filter(scan_table(table), predicate),
                },
            ),
        )
    }

    /// The plan of `UPDATE` of the one table that is bound.
    #[verifier::loop_isolation(false)]
    pub fn bind_update_body(
        &self,
        assignments: &Vec<Assignment>,
        selection: &Option<Expr>,
        text: &String,
    ) -> (r: Result<LogicalPlan, BindError>)
        ensures
            match update_bound(self.context@, assignments@, *selection, text@) {
                Ok(p) => r matches Ok(x) && x@ == p,
                Err(e) => r matches Err(x) && x@ == e,
            },
    {
        if self.context.bind_table.len() != 1 {
            return Err(BindError::UnsupportedStmt(text.clone()));
        }
        let table = &self.context.bind_table[0];
        assert(self.context@.bind_table[0] == table@);
        let ghost f = bound_assignment(self.context@);
        let ghost mut pairs: Seq<(ColumnView, ExprView)> = Seq::empty();
        let mut columns: Vec<ColumnCatalog> = Vec::new();
        let mut values: Vec<ScalarExpression> = Vec::new();
        let mut i: usize = 0;
        proof {
            lemma_attempt_none(assignments@, f);
            assert(views(columns@) =~= pairs.map_values(|p: (ColumnView, ExprView)| p.0));
            assert(views(values@) =~= pairs.map_values(|p: (ColumnView, ExprView)| p.1));
        }
        while i < assignments.len()
            invariant
                i <= assignments@.len(),
                attempt_all(assignments@.take(i as int), f) == Ok::<
                    Seq<(ColumnView, ExprView)>,
                    BindErrorView,
                >(pairs),
                views(columns@) == pairs.map_values(|p: (ColumnView, ExprView)| p.0),
                views(values@) == pairs.map_values(|p: (ColumnView, ExprView)| p.1),
            decreases assignments@.len() - i,
        {
            proof {
                lemma_attempt_step(assignments@, f, i as int);
            }
            let a = &assignments[i];
            if a.id.len() == 0 {
                proof {
                    lemma_attempt_stop(assignments@, f, i + 1);
                }
                return Err(BindError::InvalidColumn(String::new()));
            }
            let name = to_lowercase(a.id[a.id.len() - 1].as_str());
            let column = match table.catalog.get_column_by_name(&name) {
                Some(c) => c.clone(),
                None => {
                    proof {
                        lemma_attempt_stop(assignments@, f, i + 1);
                    }
                    return Err(BindError::InvalidColumn(name));
                },
            };
            let value = match self.context.bind_expr(&a.value) {
                Ok(x) => x,
                Err(e) => {
                    proof {
                        lemma_attempt_stop(assignments@, f, i + 1);
                    }
                    return Err(e);
                },
            };
            proof {
                let next = pairs.push((column@, value@));
                assert(views(columns@.push(column)) =~= views(columns@).push(column@));
                assert(views(values@.push(value)) =~= views(values@).push(value@));
                assert(next.map_values(|p: (ColumnView, ExprView)| p.0) =~= pairs.map_values(
                    |p: (ColumnView, ExprView)| p.0,
                ).push(column@));
                assert(next.map_values(|p: (ColumnView, ExprView)| p.1) =~= pairs.map_values(
                    |p: (ColumnView, ExprView)| p.1,
                ).push(value@));
                pairs = next;
            }
            columns.push(column);
            values.push(value);
            i += 1;
        }
        assert(assignments@.take(i as int) =~= assignments@);
        let predicate = match self.bind_where(selection) {
            Ok(p) => p,
            Err(e) => {
                return Err(e);
            },
        };
        Ok(
            LogicalPlan::Update(
                UpdateOperator {
                    table_name: table.name.clone(),
                    columns,
                    values,
                    input: with_filter(scan_table(table), predicate),
                },
            ),
        )
    }

    /// Whether the transaction knows the table: whether it answers with a
    /// description when it is asked for the table by its real name.
    pub fn table_exists(&self, table: &String) -> (r: bool)
        ensures
            exists|found: Option<&TableCatalog>|
                #[trigger] is_answer(
                    self.context.transaction,
                    self.context.real_table(*table),
                    found,
                ) && r == found is Some,
            exists|catalog: Option<TableView>|
                #[trigger] answered(
                    self.context.transaction,
                    self.context@.real_name(table@),
                    catalog,
                ) && r == catalog is Some,
    {
        let found = self.context.table(table.clone());
        assert(answered(
            self.context.transaction,
            self.context@.real_name(table@),
            answer_view(found),
        ));
        found.is_some()
    }

    /// The plan of a statement. A statement of a shape that the binder
    /// does not take is refused with its text. What a statement that names
    /// tables is bound to depends on what the transaction answers for
    /// them.
    pub fn bind(self, stmt: &Statement) -> (r: Result<LogicalPlan, BindError>)
        ensures
            unsupported(stmt.kind) ==> (r matches Err(e) && e@ == BindErrorView::UnsupportedStmt(
                stmt.text@,
            )),
            stmt.kind is ShowTables ==> (r matches Ok(p) && p@ == PlanView::ShowTables),
            stmt.kind matches StatementKind::CreateTable { name, columns, if_not_exists }
                ==> match create_table_bound(name, columns@, if_not_exists) {
                Ok(p) => r matches Ok(x) && x@ == p,
                Err(e) => r matches Err(x) && x@ == e,
            },
            stmt.kind matches StatementKind::Insert {
                table_name,
                idents,
                source: SetExpr::Values(rows),
                overwrite,
            } ==> match table_of_name(table_name) {
                Err(e) => r matches Err(x) && x@ == e,
                Ok(table) => exists|catalog: Option<TableView>|
                    answered(
                        self.context.transaction,
                        self.context@.real_name(table),
                        catalog,
                    ) && match #[trigger] insert_bound(
                        table,
                        catalog,
                        idents@,
                        rows@,
                        overwrite,
                        stmt.text@,
                    ) {
                        Ok(p) => r matches Ok(x) && x@ == p,
                        Err(e) => r matches Err(x) && x@ == e,
                    },
            },
            stmt.kind matches StatementKind::Truncate { table_name } ==> match table_of_name(
                table_name,
            ) {
                Err(e) => r matches Err(x) && x@ == e,
                Ok(table) => exists|catalog: Option<TableView>|
                    #[trigger] answered(
                        self.context.transaction,
                        self.context@.real_name(table),
                        catalog,
                    ) && if catalog is Some {
                        r matches Ok(p) && p@ == PlanView::Truncate { table_name: table }
                    } else {
                        r matches Err(x) && x@ == BindErrorView::InvalidTable(table)
                    },
            },
            stmt.kind matches StatementKind::Drop { object_type, names, if_exists }
                ==> (unsupported(stmt.kind) || match table_of_name(names@[0]) {
                Err(e) => r matches Err(x) && x@ == e,
                Ok(table) => exists|catalog: Option<TableView>|
                    #[trigger] answered(
                        self.context.transaction,
                        self.context@.real_name(table),
                        catalog,
                    ) && if catalog is Some || if_exists {
                        r matches Ok(p) && p@ == PlanView::DropTable {
                            table_name: table,
                            if_exists,
                        }
                    } else {
                        r matches Err(x) && x@ == BindErrorView::InvalidTable(table)
                    },
            }),
            stmt.kind matches StatementKind::Query(q) ==> exists|answers: Seq<Option<TableView>>|
                answers.len() == from_refs(q.body.from@).len() && asked(
                    self.context.transaction,
                    self.context@,
                    from_refs(q.body.from@),
                    answers,
                    from_refs(q.body.from@).len(),
                ) && match #[trigger] bound_from(
                    self.context@,
                    from_refs(q.body.from@),
                    answers,
                    from_refs(q.body.from@).len(),
                ) {
                    Err(e) => r matches Err(x) && x@ == e,
                    Ok(c) => match query_bound(fresh(c), q, stmt.text@) {
                        Ok((p, _)) => r matches Ok(LogicalPlan::Select(x)) && x@ == p,
                        Err(e) => r matches Err(x) && x@ == e,
                    },
                },
            stmt.kind matches StatementKind::Update { table, assignments, selection }
                ==> unsupported(stmt.kind) || exists|answer: Option<TableView>|
                one_asked(
                    self.context.transaction,
                    self.context@,
                    (table.relation, None),
                    answer,
                ) && match #[trigger] one_bound(self.context@, (table.relation, None), answer) {
                    Err(e) => r matches Err(x) && x@ == e,
                    Ok(c) => match update_bound(c, assignments@, selection, stmt.text@) {
                        Ok(p) => r matches Ok(x) && x@ == p,
                        Err(e) => r matches Err(x) && x@ == e,
                    },
                },
            stmt.kind matches StatementKind::Delete { from, selection } ==> unsupported(stmt.kind)
                || exists|answer: Option<TableView>|
                one_asked(
                    self.context.transaction,
                    self.context@,
                    (from@[0].relation, None),
                    answer,
                ) && match #[trigger] one_bound(self.context@, (from@[0].relation, None), answer) {
                    Err(e) => r matches Err(x) && x@ == e,
                    Ok(c) => match delete_bound(c, selection, stmt.text@) {
                        Ok(p) => r matches Ok(x) && x@ == p,
                        Err(e) => r matches Err(x) && x@ == e,
                    },
                },
            stmt.kind matches StatementKind::Copy { source, to, target, options } ==> (if source
                is Query {
                r matches Err(e) && e@ == BindErrorView::UnsupportedCopySource("bad copy source"@)
            } else if target is Other {
                r matches Err(e) && e@ == BindErrorView::UnsupportedCopySource("bad copy target"@)
            } else {
                match table_of_name(source->table_name) {
                    Err(e) => r matches Err(x) && x@ == e,
                    Ok(table) => exists|catalog: Option<TableView>|
                        answered(
                            self.context.transaction,
                            self.context@.real_name(table),
                            catalog,
                        ) && match #[trigger] copy_bound(
                            table,
                            catalog,
                            to,
                            target->filename@,
                            pairs_view(options@),
                        ) {
                            Ok(p) => r matches Ok(x) && x@ == p,
                            Err(e) => r matches Err(x) && x@ == e,
                        },
                }
            }),
    {
        let mut binder = self;
        match &stmt.kind {
            StatementKind::Query(query) => {
                match binder.bind_from(&query.body.from) {
                    Ok(()) => {},
                    Err(e) => {
                        return Err(e);
                    },
                }
                match binder.bind_query_body(query, &stmt.text) {
                    Ok(p) => Ok(LogicalPlan::Select(p)),
                    Err(e) => Err(e),
                }
            },
            StatementKind::CreateTable { name, columns, if_not_exists } => create_table_plan(
                name,
                columns,
                *if_not_exists,
            ),
            StatementKind::Drop { object_type, names, if_exists } => {
                if *object_type != ObjectType::Table || names.len() == 0 {
                    return Err(BindError::UnsupportedStmt(stmt.text.clone()));
                }
                let table = match table_name_of(&names[0]) {
                    Ok(t) => t,
                    Err(e) => {
                        return Err(e);
                    },
                };
                let found = binder.table_exists(&table);
                drop_table_plan(table, *if_exists, found)
            },
            StatementKind::Insert { table_name, idents, source, overwrite } => {
                match source {
                    SetExpr::Values(rows) => {
                        let table = match table_name_of(table_name) {
                            Ok(t) => t,
                            Err(e) => {
                                return Err(e);
                            },
                        };
                        let catalog = binder.context.table(table.clone());
                        let ghost witness = answer_view(catalog);
                        let r = insert_plan(table, catalog, idents, rows, *overwrite, &stmt.text);
                        proof {
                            let w = insert_bound(
                                table_of_name(*table_name)->Ok_0,
                                witness,
                                idents@,
                                rows@,
                                *overwrite,
                                stmt.text@,
                            );
                            assert(match w {
                                Ok(p) => r matches Ok(x) && x@ == p,
                                Err(e) => r matches Err(x) && x@ == e,
                            });
                        }
                        r
                    },
                    SetExpr::Other => Err(BindError::UnsupportedStmt(stmt.text.clone())),
                }
            },
            StatementKind::Update { table, assignments, selection } => {
                if table.joins.len() > 0 {
                    return Err(BindError::UnsupportedStmt(stmt.text.clone()));
                }
                match binder.bind_table_ref(&table.relation, None) {
                    Ok(()) => {},
                    Err(e) => {
                        return Err(e);
                    },
                }
                binder.bind_update_body(assignments, selection, &stmt.text)
            },
            StatementKind::Delete { from, selection } => {
                if from.len() != 1 || from[0].joins.len() > 0 {
                    return Err(BindError::UnsupportedStmt(stmt.text.clone()));
                }
                match binder.bind_table_ref(&from[0].relation, None) {
                    Ok(()) => {},
                    Err(e) => {
                        return Err(e);
                    },
                }
                binder.bind_delete_body(selection, &stmt.text)
            },
            StatementKind::Truncate { table_name } => {
                let table = match table_name_of(table_name) {
                    Ok(t) => t,
                    Err(e) => {
                        return Err(e);
                    },
                };
                let found = binder.table_exists(&table);
                truncate_plan(table, found)
            },
            StatementKind::ShowTables => Ok(LogicalPlan::ShowTables),
            StatementKind::Copy { source, to, target, options } => {
                let table_name = match source {
                    CopySource::Table { table_name } => table_name,
                    CopySource::Query => {
                        return Err(
                            BindError::UnsupportedCopySource(String::from_str("bad copy source")),
                        );
                    },
                };
                let filename = match target {
                    CopyTarget::File { filename } => filename,
                    CopyTarget::Other => {
                        return Err(
                            BindError::UnsupportedCopySource(String::from_str("bad copy target")),
                        );
                    },
                };
                let table = match table_name_of(table_name) {
                    Ok(t) => t,
                    Err(e) => {
                        return Err(e);
                    },
                };
                let catalog = binder.context.table(table.clone());
                let ghost answer = answer_view(catalog);
                let r = copy_plan(table, catalog, *to, filename.clone(), clone_pairs(options));
                proof {
                    let w = copy_bound(
                        table_of_name(*table_name)->Ok_0,
                        answer,
                        *to,
                        filename@,
                        pairs_view(options@),
                    );
                    assert(match w {
                        Ok(p) => r matches Ok(x) && x@ == p,
                        Err(e) => r matches Err(x) && x@ == e,
                    });
                }
                r
            },
            StatementKind::Other => Err(BindError::UnsupportedStmt(stmt.text.clone())),
        }
    }
}

/// A copy of pairs of texts.
pub fn clone_pairs(v: &Vec<(String, String)>) -> (r: Vec<(String, String)>)
    ensures
        pairs_view(r@) == pairs_view(v@),
{
    let mut r: Vec<(String, String)> = Vec::new();
    let mut i: usize = 0;
    while i < v.len()
        invariant
            i <= v@.len(),
            r@.len() == i,
            forall|j: int| 0 <= j < i ==> r@[j].0@ == v@[j].0@ && r@[j].1@ == v@[j].1@,
        decreases v@.len() - i,
    {
        r.push((v[i].0.clone(), v[i].1.clone()));
        i += 1;
    }
    assert(pairs_view(r@) =~= pairs_view(v@));
    r
}

} // verus!
