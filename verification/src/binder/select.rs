//! Queries: the tables of `FROM`, the select list with its aliases,
//! `WHERE`, aggregates and group keys, `ORDER BY`, and `LIMIT`.
use crate::binder::context::{lookup, BoundTable, BoundTableView, ContextView};
use crate::binder::error::{duplicated, BindError, BindErrorView};
use crate::binder::name::lowercase;
use crate::catalog::column::{ColumnCatalog, ColumnView};
use crate::expression::scalar::{ExprView, ScalarExpression};
use crate::parser::ast::{Expr, OrderByExpr, Query, SelectItem, Value};
use crate::planner::operator::{JoinType, Operator, OperatorView, ScanOperator, ScanView};
use crate::planner::plan::{LogicalSelectPlan, SelectView};
use crate::types::value::views;
use crate::util::attempt::{attempt_all, attempt_fold};
use vstd::prelude::*;
use vstd::string::StringExecFns;

verus! {

/// References to the columns, in order.
pub open spec fn column_refs(cols: Seq<ColumnView>) -> Seq<ExprView> {
    cols.map_values(|c: ColumnView| ExprView::ColumnRef(c))
}

/// References to all columns of the bound tables, table by table in the
/// order of binding.
pub open spec fn all_columns(tables: Seq<BoundTableView>) -> Seq<ExprView>
    decreases tables.len(),
{
    if tables.len() == 0 {
        Seq::empty()
    } else {
        all_columns(tables.drop_last()) + column_refs(tables.last().catalog.columns)
    }
}

/// A tree of one operator over nothing.
pub open spec fn leaf(operator: OperatorView) -> SelectView {
    SelectView { operator, children: Seq::empty() }
}

/// A tree of one operator over one tree.
pub open spec fn over(operator: OperatorView, child: SelectView) -> SelectView {
    SelectView { operator, children: seq![child] }
}

/// The scan of all columns of a bound table.
pub open spec fn table_scan(t: BoundTableView) -> SelectView {
    leaf(
        OperatorView::Scan(
            ScanView {
                table_name: t.name,
                columns: column_refs(t.catalog.columns),
                limit: (None, None),
            },
        ),
    )
}

/// The tree that reads the bound tables: the scan of the first, joined
/// with the scan of each further one in turn.
pub open spec fn from_plan(tables: Seq<BoundTableView>) -> SelectView
    decreases tables.len(),
{
    if tables.len() <= 1 {
        table_scan(tables[0])
    } else {
        SelectView {
            operator: OperatorView::Join(
                match tables.last().join_type {
                    Some(j) => j,
                    None => JoinType::Cross,
                },
            ),
            children: seq![from_plan(tables.drop_last()), table_scan(tables.last())],
        }
    }
}

/// The select list so far, and the state with the aliases it has given.
pub type Listed = (Seq<ExprView>, ContextView);

/// One more item of the select list: a star stands for all columns; an
/// alias names its expression from then on, once.
pub open spec fn bound_item(st: Listed, item: SelectItem) -> Result<Listed, BindErrorView> {
    let (list, ctx) = st;
    match item {
        SelectItem::Wildcard => Ok((list + all_columns(ctx.bind_table), ctx)),
        SelectItem::UnnamedExpr(e) => match ctx.bound_expr(e) {
            Err(e) => Err(e),
            Ok(x) => Ok((list.push(x), ctx)),
        },
        SelectItem::ExprWithAlias { expr, alias } => match ctx.bound_expr(expr) {
            Err(e) => Err(e),
            Ok(x) => if lookup(ctx.aliases, lowercase(alias@)) is Some {
                Err(BindErrorView::InvalidColumn(duplicated(lowercase(alias@))))
            } else {
                Ok(
                    (
                        list.push(ExprView::Alias { expr: Box::new(x), alias: lowercase(alias@) }),
                        ContextView { aliases: ctx.aliases.push((lowercase(alias@), x)), ..ctx },
                    ),
                )
            },
        },
    }
}

/// An aggregate, or an alias of one.
pub open spec fn is_agg(e: ExprView) -> bool {
    match e {
        ExprView::AggCall { .. } => true,
        ExprView::Alias { expr, .. } => *expr is AggCall,
        _ => false,
    }
}

/// An expression without the alias it may bear.
pub open spec fn unaliased(e: ExprView) -> ExprView {
    match e {
        ExprView::Alias { expr, .. } => *expr,
        _ => e,
    }
}

/// The expression in place of `e` that keeps the alias that `e` may bear.
pub open spec fn realiased(e: ExprView, inner: ExprView) -> ExprView {
    match e {
        ExprView::Alias { alias, .. } => ExprView::Alias { expr: Box::new(inner), alias },
        _ => inner,
    }
}

/// The select list so far with aggregates taken out, and the aggregates.
pub type Taken = (Seq<ExprView>, Seq<ExprView>);

/// Takes the aggregate out of one more item: the aggregate joins the
/// aggregates, and a reference to its place among them takes its place
/// in the list. An aggregate inside an operation is refused with the
/// statement's text.
pub open spec fn take_agg(text: Seq<char>) -> spec_fn(Taken, ExprView) -> Result<
    Taken,
    BindErrorView,
> {
    |st: Taken, e: ExprView|
        {
            let (list, aggs) = st;
            if is_agg(e) {
                if aggs.len() >= usize::MAX {
                    Err(BindErrorView::UnsupportedStmt(text))
                } else {
                    Ok(
                        (
                            list.push(
                                realiased(
                                    e,
                                    ExprView::InputRef {
                                        index: aggs.len() as usize,
                                        ty: unaliased(e).return_type(),
                                    },
                                ),
                            ),
                            aggs.push(unaliased(e)),
                        ),
                    )
                }
            } else if e.has_agg() {
                Err(BindErrorView::UnsupportedStmt(text))
            } else {
                Ok((list.push(e), aggs))
            }
        }
}

/// The place of the first of the expressions that equals `e`.
pub open spec fn place(list: Seq<ExprView>, e: ExprView) -> Option<int>
    decreases list.len(),
{
    if list.len() == 0 {
        None
    } else {
        match place(list.drop_last(), e) {
            Some(i) => Some(i),
            None => if list.last() == e {
                Some(list.len() - 1)
            } else {
                None
            },
        }
    }
}

pub proof fn lemma_place(list: Seq<ExprView>, e: ExprView)
    ensures
        match place(list, e) {
            Some(i) => 0 <= i < list.len() && list[i] == e && forall|j: int|
                0 <= j < i ==> list[j] != e,
            None => forall|j: int| 0 <= j < list.len() ==> list[j] != e,
        },
    decreases list.len(),
{
    if list.len() > 0 {
        lemma_place(list.drop_last(), e);
        assert(forall|j: int| 0 <= j < list.len() - 1 ==> list.drop_last()[j] == list[j]);
    }
}

/// One more group key: bound, and added unless it is a key already.
pub open spec fn take_key(ctx: ContextView) -> spec_fn(Seq<ExprView>, Expr) -> Result<
    Seq<ExprView>,
    BindErrorView,
> {
    |keys: Seq<ExprView>, e: Expr|
        match ctx.bound_expr(e) {
            Err(e) => Err(e),
            Ok(x) => if place(keys, x) is Some {
                Ok(keys)
            } else {
                Ok(keys.push(x))
            },
        }
}

/// What the message about an expression that is neither aggregated nor a
/// group key says.
pub open spec fn agg_miss(e: ExprView) -> Seq<char> {
    (match unaliased(e) {
        ExprView::ColumnRef(c) => c.name,
        _ => "expression"@,
    }) + " must appear in the GROUP BY clause or be used in an aggregate function"@
}

/// An item of the select list over an aggregation: a reference to an
/// aggregate stays; a group key becomes a reference to its place behind
/// the aggregates; anything else is refused.
pub open spec fn over_keys(aggs: nat, keys: Seq<ExprView>) -> spec_fn(int, ExprView) -> Result<
    ExprView,
    BindErrorView,
> {
    |i: int, e: ExprView|
        if unaliased(e) is InputRef {
            Ok(e)
        } else {
            match place(keys, unaliased(e)) {
                Some(k) => Ok(
                    realiased(
                        e,
                        ExprView::InputRef {
                            index: (aggs + k) as usize,
                            ty: unaliased(e).return_type(),
                        },
                    ),
                ),
                None => Err(BindErrorView::AggMiss(agg_miss(e))),
            }
        }
}

/// One field of `ORDER BY`: its expression bound, ascending unless it is
/// said to descend.
pub open spec fn bound_sort(ctx: ContextView) -> spec_fn(int, OrderByExpr) -> Result<
    (ExprView, bool),
    BindErrorView,
> {
    |i: int, o: OrderByExpr|
        match ctx.bound_expr(o.expr) {
            Err(e) => Err(e),
            Ok(x) => Ok((x, o.asc != Some(false))),
        }
}

/// The count that `LIMIT` or `OFFSET` gives: a number that is not
/// negative.
pub open spec fn bound_count(v: Option<Value>) -> Result<Option<usize>, BindErrorView> {
    match v {
        None => Ok(None),
        Some(Value::Number(n)) => if 0 <= n <= usize::MAX {
            Ok(Some(n as usize))
        } else {
            Err(BindErrorView::InvalidColumn("invalid limit expression."@))
        },
        Some(_) => Err(BindErrorView::InvalidColumn("invalid limit expression."@)),
    }
}

/// The tree with a filter on top, where there is a predicate.
pub open spec fn filtered(p: SelectView, predicate: Option<ExprView>) -> SelectView {
    match predicate {
        Some(x) => over(OperatorView::Filter { predicate: x, having: false }, p),
        None => p,
    }
}

/// The predicate of `WHERE`, bound.
pub open spec fn bound_where(ctx: ContextView, selection: Option<Expr>) -> Result<
    Option<ExprView>,
    BindErrorView,
> {
    match selection {
        None => Ok(None),
        Some(e) => match ctx.bound_expr(e) {
            Err(e) => Err(e),
            Ok(x) => Ok(Some(x)),
        },
    }
}

/// The select list over an aggregation, the aggregates and the group keys;
/// the list as it is, and neither aggregates nor keys, where the query
/// has no aggregate and no `GROUP BY`.
pub open spec fn aggregated(ctx: ContextView, list: Seq<ExprView>, group_by: Seq<Expr>, text: Seq<
    char,
>) -> Result<(Seq<ExprView>, Seq<ExprView>, Seq<ExprView>), BindErrorView> {
    match attempt_fold(list, (Seq::empty(), Seq::empty()), take_agg(text)) {
        Err(e) => Err(e),
        Ok((taken, aggs)) => match attempt_fold(group_by, Seq::empty(), take_key(ctx)) {
            Err(e) => Err(e),
            Ok(keys) => if aggs.len() == 0 && keys.len() == 0 {
                Ok((list, aggs, keys))
            } else if aggs.len() + keys.len() > usize::MAX {
                Err(BindErrorView::UnsupportedStmt(text))
            } else {
                match attempt_all(taken, over_keys(aggs.len(), keys)) {
                    Err(e) => Err(e),
                    Ok(final_list) => Ok((final_list, aggs, keys)),
                }
            },
        },
    }
}

/// The plan of a query over the tables that are bound, and the state in
/// which binding leaves the binder. From the bottom up: the tables read
/// and joined; the filter of `WHERE`; the aggregation, where there are
/// aggregates or group keys; the sort of `ORDER BY`; the projection of the
/// select list; the limit. A query over no table is refused with its text.
pub open spec fn query_bound(ctx: ContextView, q: Query, text: Seq<char>) -> Result<
    (SelectView, ContextView),
    BindErrorView,
> {
    if ctx.bind_table.len() == 0 {
        Err(BindErrorView::UnsupportedStmt(text))
    } else {
        match attempt_fold(
            q.body.projection@,
            (Seq::empty(), ctx),
            |st: Listed, item: SelectItem| bound_item(st, item),
        ) {
            Err(e) => Err(e),
            Ok((list, c1)) => match bound_where(c1, q.body.selection) {
                Err(e) => Err(e),
                Ok(predicate) => match aggregated(c1, list, q.body.group_by@, text) {
                    Err(e) => Err(e),
                    Ok((final_list, aggs, keys)) => match attempt_all(
                        q.order_by@,
                        bound_sort(c1),
                    ) {
                        Err(e) => Err(e),
                        Ok(fields) => match bound_count(q.limit) {
                            Err(e) => Err(e),
                            Ok(limit) => match bound_count(q.offset) {
                                Err(e) => Err(e),
                                Ok(offset) => {
                                    let read = filtered(from_plan(c1.bind_table), predicate);
                                    let grouped = if aggs.len() > 0 || keys.len() > 0 {
                                        over(
                                            OperatorView::Aggregate {
                                                groupby_exprs: keys,
                                                agg_calls: aggs,
                                            },
                                            read,
                                        )
                                    } else {
                                        read
                                    };
                                    let sorted = if fields.len() > 0 {
                                        over(OperatorView::Sort(fields), grouped)
                                    } else {
                                        grouped
                                    };
                                    let projected = over(OperatorView::Project(final_list), sorted);
                                    let limited = if limit is Some || offset is Some {
                                        over(OperatorView::Limit { offset, limit }, projected)
                                    } else {
                                        projected
                                    };
                                    Ok(
                                        (
                                            limited,
                                            ContextView {
                                                group_by_exprs: keys,
                                                agg_calls: aggs,
                                                ..c1
                                            },
                                        ),
                                    )
                                },
                            },
                        },
                    },
                },
            },
        }
    }
}

/// A tree of one operator over nothing.
pub fn make_leaf(operator: Operator) -> (r: LogicalSelectPlan)
    ensures
        r@ == leaf(operator@),
{
    let r = LogicalSelectPlan { operator, children: Vec::new() };
    assert(r@.children =~= Seq::empty());
    r
}

/// A tree of one operator over one tree.
pub fn make_over(operator: Operator, child: LogicalSelectPlan) -> (r: LogicalSelectPlan)
    ensures
        r@ == over(operator@, child@),
{
    let mut children: Vec<LogicalSelectPlan> = Vec::new();
    children.push(child);
    let r = LogicalSelectPlan { operator, children };
    assert(r@.children =~= seq![child@]);
    r
}

/// References to the columns, in order.
pub fn refs_of(cols: &Vec<ColumnCatalog>) -> (r: Vec<ScalarExpression>)
    ensures
        views(r@) == column_refs(views(cols@)),
{
    let mut r: Vec<ScalarExpression> = Vec::new();
    let mut i: usize = 0;
    while i < cols.len()
        invariant
            i <= cols@.len(),
            r@.len() == i,
            forall|j: int| 0 <= j < i ==> r@[j]@ == ExprView::ColumnRef(cols@[j]@),
        decreases cols@.len() - i,
    {
        r.push(ScalarExpression::ColumnRef(cols[i].clone()));
        i += 1;
    }
    assert(views(r@) =~= column_refs(views(cols@)));
    r
}

/// The scan of all columns of a bound table.
pub fn scan_table(t: &BoundTable) -> (r: LogicalSelectPlan)
    ensures
        r@ == table_scan(t@),
{
    make_leaf(
        Operator::Scan(
            ScanOperator {
                table_name: t.name.clone(),
                columns: refs_of(&t.catalog.columns),
                limit: (None, None),
            },
        ),
    )
}

/// The count that `LIMIT` or `OFFSET` gives.
pub fn bind_count(v: &Option<Value>) -> (r: Result<Option<usize>, BindError>)
    ensures
        match bound_count(*v) {
            Ok(n) => r matches Ok(x) && x == n,
            Err(e) => r matches Err(x) && x@ == e,
        },
{
    match v {
        None => Ok(None),
        Some(Value::Number(n)) => {
            if *n >= 0 && (*n as u64) <= usize::MAX as u64 {
                Ok(Some(*n as usize))
            } else {
                Err(BindError::InvalidColumn(String::from_str("invalid limit expression.")))
            }
        },
        Some(_) => Err(BindError::InvalidColumn(String::from_str("invalid limit expression."))),
    }
}

/// An expression without the alias it may bear.
pub fn strip_alias(e: &ScalarExpression) -> (r: &ScalarExpression)
    ensures
        r@ == unaliased(e@),
{
    match e {
        ScalarExpression::Alias { expr, .. } => &**expr,
        _ => e,
    }
}

/// The expression in place of `e` that keeps the alias that `e` may bear.
pub fn keep_alias(e: &ScalarExpression, inner: ScalarExpression) -> (r: ScalarExpression)
    ensures
        r@ == realiased(e@, inner@),
{
    match e {
        ScalarExpression::Alias { alias, .. } => ScalarExpression::Alias {
            expr: Box::new(inner),
            alias: alias.clone(),
        },
        _ => inner,
    }
}

/// The place of the first of the expressions that equals `e`.
pub fn place_of(list: &Vec<ScalarExpression>, e: &ScalarExpression) -> (r: Option<usize>)
    ensures
        match r {
            Some(i) => i < list@.len() && place(views(list@), e@) == Some(i as int),
            None => place(views(list@), e@) is None,
        },
{
    let mut i: usize = 0;
    while i < list.len()
        invariant
            i <= list@.len(),
            forall|j: int| 0 <= j < i ==> views(list@)[j] != e@,
        decreases list@.len() - i,
    {
        if list[i].same(e) {
            proof {
                lemma_place(views(list@), e@);
                assert(views(list@)[i as int] == e@);
            }
            return Some(i);
        }
        i += 1;
    }
    proof {
        lemma_place(views(list@), e@);
    }
    None
}

} // verus!
