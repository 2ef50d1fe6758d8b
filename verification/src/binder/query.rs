//! The binder at work: queries, `UPDATE` and `DELETE`.
use crate::binder::context::{
    lookup_table, BinderContext, BoundTableView, ContextView, InputRefType,
};
use crate::binder::error::{duplicated, BindError, BindErrorView};
use crate::binder::name::to_lowercase;
use crate::binder::select::{
    agg_miss, aggregated, all_columns, bound_item, keep_alias, lemma_place, over, over_keys,
    place_of, refs_of, strip_alias, take_agg, take_key, Listed, Taken,
};
use crate::catalog::table::{TableCatalog, TableView};
use crate::expression::scalar::{ExprView, ScalarExpression};
use crate::parser::ast::{Expr, SelectItem};
use crate::planner::operator::JoinType;
use crate::storage::transaction::Transaction;
use crate::types::value::views;
use crate::util::attempt::{
    attempt_all, attempt_fold, lemma_attempt_none, lemma_attempt_step, lemma_attempt_stop,
    lemma_fold_none, lemma_fold_step, lemma_fold_stop,
};
use vstd::prelude::*;
use vstd::string::StringExecFns;

verus! {

/// The state after a table of `FROM` is bound, given what is known of it:
/// the table bound under its name, and its alias given. An unknown table,
/// an alias given before and a table bound before are refused.
pub open spec fn table_bound(
    ctx: ContextView,
    table: Seq<char>,
    alias: Option<Seq<char>>,
    catalog: Option<TableView>,
    join_type: Option<JoinType>,
) -> Result<ContextView, BindErrorView> {
    match catalog {
        None => Err(BindErrorView::InvalidTable(table)),
        Some(t) => {
            let named = match alias {
                None => Ok(ctx),
                Some(a) => if lookup_alias(ctx, a) {
                    Err(BindErrorView::InvalidTable(duplicated(a)))
                } else {
                    Ok(ContextView { table_aliases: ctx.table_aliases.push((a, table)), ..ctx })
                },
            };
            match named {
                Err(e) => Err(e),
                Ok(c) => if lookup_table(c.bind_table, table) is Some {
                    Err(BindErrorView::InvalidTable(duplicated(table)))
                } else {
                    Ok(
                        ContextView {
                            bind_table: c.bind_table.push(
                                BoundTableView { name: table, catalog: t, join_type },
                            ),
                            ..c
                        },
                    )
                },
            }
        },
    }
}

/// The state with no aggregates and no group keys collected.
pub open spec fn fresh(ctx: ContextView) -> ContextView {
    ContextView { agg_calls: Seq::empty(), group_by_exprs: Seq::empty(), ..ctx }
}

/// Whether the alias is given already.
pub open spec fn lookup_alias(ctx: ContextView, alias: Seq<char>) -> bool {
    crate::binder::context::lookup(ctx.table_aliases, alias) is Some
}

impl<'a, T: Transaction> BinderContext<'a, T> {
    /// Binds a table of `FROM`, given what is known of it.
    pub fn bind_found_table(
        &mut self,
        table: String,
        alias: Option<String>,
        catalog: Option<&TableCatalog>,
        join_type: Option<JoinType>,
    ) -> (r: Result<(), BindError>)
        ensures
            match table_bound(
                old(self)@,
                table@,
                match alias {
                    Some(a) => Some(a@),
                    None => None,
                },
                match catalog {
                    Some(t) => Some(t@),
                    None => None,
                },
                join_type,
            ) {
                Ok(c) => r is Ok && final(self)@ == c,
                Err(e) => r matches Err(x) && x@ == e,
            },
            final(self).transaction == old(self).transaction,
    {
        let t = match catalog {
            Some(t) => t,
            None => {
                return Err(BindError::InvalidTable(table));
            },
        };
        match alias {
            Some(a) => match self.add_table_alias(a, table.clone()) {
                Ok(()) => {},
                Err(e) => {
                    return Err(e);
                },
            },
            None => {},
        }
        self.add_bind_table(table, t.clone(), join_type)
    }

    /// Binds the select list: each item bound in turn, each alias given.
    #[verifier::loop_isolation(false)]
    pub fn bind_select_list(&mut self, items: &Vec<SelectItem>) -> (r: Result<
        Vec<ScalarExpression>,
        BindError,
    >)
        ensures
            match attempt_fold(
                items@,
                (Seq::empty(), old(self)@),
                |st: Listed, item: SelectItem| bound_item(st, item),
            ) {
                Ok((list, ctx)) => r matches Ok(x) && views(x@) == list && final(self)@ == ctx,
                Err(e) => r matches Err(x) && x@ == e,
            },
            final(self).transaction == old(self).transaction,
    {
        let ghost f = |st: Listed, item: SelectItem| bound_item(st, item);
        let ghost init: Listed = (Seq::empty(), self@);
        let mut list: Vec<ScalarExpression> = Vec::new();
        let mut i: usize = 0;
        proof {
            lemma_fold_none(items@, init, f);
            assert(views(list@) =~= Seq::empty());
        }
        while i < items.len()
            invariant
                i <= items@.len(),
                self.transaction == old(self).transaction,
                attempt_fold(items@.take(i as int), init, f) == Ok::<Listed, BindErrorView>(
                    (views(list@), self@),
                ),
            decreases items@.len() - i,
        {
            proof {
                lemma_fold_step(items@, init, f, i as int);
            }
            let ghost before = views(list@);
            match &items[i] {
                SelectItem::Wildcard => {
                    let mut t: usize = 0;
                    assert(self@.bind_table.take(0) =~= Seq::empty());
                    assert(before + all_columns(self@.bind_table.take(0)) =~= before);
                    while t < self.bind_table.len()
                        invariant
                            t <= self.bind_table@.len(),
                            self.transaction == old(self).transaction,
                            views(list@) == before + all_columns(self@.bind_table.take(t as int)),
                        decreases self.bind_table@.len() - t,
                    {
                        let mut more = refs_of(&self.bind_table[t].catalog.columns);
                        let ghost earlier = views(list@);
                        let ghost added = views(more@);
                        list.append(&mut more);
                        proof {
                            let tables = self@.bind_table;
                            assert(tables.take(t + 1).drop_last() =~= tables.take(t as int));
                            assert(tables.take(t + 1).last() == self.bind_table@[t as int]@);
                            assert(views(list@) =~= earlier + added);
                            assert(views(list@) =~= before + all_columns(tables.take(t + 1)));
                        }
                        t += 1;
                    }
                    assert(self@.bind_table.take(t as int) =~= self@.bind_table);
                },
                SelectItem::UnnamedExpr(e) => match self.bind_expr(e) {
                    Ok(x) => {
                        assert(views(list@).push(x@) =~= views(list@.push(x)));
                        list.push(x);
                    },
                    Err(e) => {
                        proof {
                            lemma_fold_stop(items@, init, f, i + 1);
                        }
                        return Err(e);
                    },
                },
                SelectItem::ExprWithAlias { expr, alias } => match self.bind_expr(expr) {
                    Err(e) => {
                        proof {
                            lemma_fold_stop(items@, init, f, i + 1);
                        }
                        return Err(e);
                    },
                    Ok(x) => {
                        let name = to_lowercase(alias.as_str());
                        match self.add_alias(name.clone(), x.clone()) {
                            Err(e) => {
                                proof {
                                    lemma_fold_stop(items@, init, f, i + 1);
                                }
                                return Err(e);
                            },
                            Ok(()) => {
                                let aliased = ScalarExpression::Alias {
                                    expr: Box::new(x),
                                    alias: name,
                                };
                                assert(views(list@).push(aliased@) =~= views(list@.push(aliased)));
                                list.push(aliased);
                            },
                        }
                    },
                },
            }
            i += 1;
        }
        assert(items@.take(i as int) =~= items@);
        Ok(list)
    }

    /// Takes the aggregates out of the select list and binds the group
    /// keys; over an aggregation, turns each item of the list into a
    /// reference to an aggregate or to a group key.
    #[verifier::loop_isolation(false)]
    pub fn bind_aggregates(
        &mut self,
        list: Vec<ScalarExpression>,
        group_by: &Vec<Expr>,
        text: &String,
    ) -> (r: Result<Vec<ScalarExpression>, BindError>)
        ensures
            match aggregated(fresh(old(self)@), views(list@), group_by@, text@) {
                Ok((final_list, aggs, keys)) => r matches Ok(x) && views(x@) == final_list
                    && final(self)@ == (ContextView {
                    group_by_exprs: keys,
                    agg_calls: aggs,
                    ..old(self)@
                })
                    && final(self).wf(),
                Err(e) => r matches Err(x) && x@ == e,
            },
            final(self).transaction == old(self).transaction,
    {
        self.agg_calls.clear();
        self.group_by_exprs.clear();
        let ghost ctx = self@;
        let ghost all = views(list@);
        let ghost f = take_agg(text@);
        let ghost init: Taken = (Seq::empty(), Seq::empty());
        let mut taken: Vec<ScalarExpression> = Vec::new();
        let mut i: usize = 0;
        proof {
            lemma_fold_none(all, init, f);
            assert(views(taken@) =~= Seq::empty());
            assert(self@.agg_calls =~= Seq::empty());
            assert(self@.group_by_exprs =~= Seq::empty());
        }
        while i < list.len()
            invariant
                i <= list@.len(),
                self.transaction == old(self).transaction,
                self@ == (ContextView { agg_calls: self@.agg_calls, ..ctx }),
                attempt_fold(all.take(i as int), init, f) == Ok::<Taken, BindErrorView>(
                    (views(taken@), self@.agg_calls),
                ),
            decreases list@.len() - i,
        {
            proof {
                lemma_fold_step(all, init, f, i as int);
                assert(all[i as int] == list@[i as int]@);
            }
            let e = &list[i];
            let inner = strip_alias(e);
            let top = match inner {
                ScalarExpression::AggCall { .. } => true,
                _ => false,
            };
            if top {
                if self.agg_calls.len() == usize::MAX {
                    proof {
                        lemma_fold_stop(all, init, f, i + 1);
                    }
                    return Err(BindError::UnsupportedStmt(text.clone()));
                }
                let index = self.agg_calls.len();
                let r = keep_alias(
                    e,
                    ScalarExpression::InputRef { index, ty: inner.return_type() },
                );
                let agg = inner.clone();
                assert(views(taken@).push(r@) =~= views(taken@.push(r)));
                assert(views(self.agg_calls@).push(agg@) =~= views(self.agg_calls@.push(agg)));
                taken.push(r);
                self.agg_calls.push(agg);
            } else if e.has_agg_call() {
                proof {
                    lemma_fold_stop(all, init, f, i + 1);
                }
                return Err(BindError::UnsupportedStmt(text.clone()));
            } else {
                let c = e.clone();
                assert(views(taken@).push(c@) =~= views(taken@.push(c)));
                taken.push(c);
            }
            i += 1;
        }
        assert(all.take(i as int) =~= all);
        let ghost aggs = self@.agg_calls;
        let ghost g = take_key(ctx);
        let mut k: usize = 0;
        proof {
            lemma_fold_none(group_by@, Seq::<ExprView>::empty(), g);
        }
        while k < group_by.len()
            invariant
                k <= group_by@.len(),
                self.transaction == old(self).transaction,
                self@ == (ContextView {
                    agg_calls: aggs,
                    group_by_exprs: self@.group_by_exprs,
                    ..ctx
                }),
                attempt_fold(group_by@.take(k as int), Seq::<ExprView>::empty(), g) == Ok::<
                    Seq<ExprView>,
                    BindErrorView,
                >(self@.group_by_exprs),
            decreases group_by@.len() - k,
        {
            proof {
                lemma_fold_step(group_by@, Seq::<ExprView>::empty(), g, k as int);
                lemma_bound_expr_keys(self@, ctx, group_by@[k as int]);
            }
            match self.bind_expr(&group_by[k]) {
                Err(e) => {
                    proof {
                        lemma_fold_stop(group_by@, Seq::<ExprView>::empty(), g, k + 1);
                    }
                    return Err(e);
                },
                Ok(x) => {
                    proof {
                        lemma_place(self@.group_by_exprs, x@);
                    }
                    if !self.has_agg_call(&x) {
                        assert(views(self.group_by_exprs@).push(x@) =~= views(
                            self.group_by_exprs@.push(x),
                        ));
                        self.group_by_exprs.push(x);
                    }
                },
            }
            k += 1;
        }
        assert(group_by@.take(k as int) =~= group_by@);
        let ghost keys = self@.group_by_exprs;
        if self.agg_calls.len() == 0 && self.group_by_exprs.len() == 0 {
            return Ok(list);
        }
        if self.agg_calls.len() > usize::MAX - self.group_by_exprs.len() {
            return Err(BindError::UnsupportedStmt(text.clone()));
        }
        let ghost h = over_keys(aggs.len(), keys);
        let ghost tv = views(taken@);
        let mut out: Vec<ScalarExpression> = Vec::new();
        let mut j: usize = 0;
        proof {
            lemma_attempt_none(tv, h);
            assert(views(out@) =~= Seq::empty());
        }
        while j < taken.len()
            invariant
                j <= taken@.len(),
                self.transaction == old(self).transaction,
                self@ == (ContextView { agg_calls: aggs, group_by_exprs: keys, ..ctx }),
                attempt_all(tv.take(j as int), h) == Ok::<Seq<ExprView>, BindErrorView>(
                    views(out@),
                ),
            decreases taken@.len() - j,
        {
            proof {
                lemma_attempt_step(tv, h, j as int);
                assert(tv[j as int] == taken@[j as int]@);
            }
            let e = &taken[j];
            let inner = strip_alias(e);
            let is_ref = match inner {
                ScalarExpression::InputRef { .. } => true,
                _ => false,
            };
            if is_ref {
                let c = e.clone();
                assert(views(out@).push(c@) =~= views(out@.push(c)));
                out.push(c);
            } else {
                match place_of(&self.group_by_exprs, inner) {
                    Some(p) => {
                        let base = self.input_ref_index(InputRefType::AggCall);
                        let r = keep_alias(
                            e,
                            ScalarExpression::InputRef { index: base + p, ty: inner.return_type() },
                        );
                        assert(views(out@).push(r@) =~= views(out@.push(r)));
                        out.push(r);
                    },
                    None => {
                        proof {
                            lemma_attempt_stop(tv, h, j + 1);
                        }
                        return Err(BindError::AggMiss(agg_miss_text(e)));
                    },
                }
            }
            j += 1;
        }
        assert(tv.take(j as int) =~= tv);
        Ok(out)
    }
}

/// Binding the select list gives aliases and changes nothing else.
pub proof fn lemma_items_keep(items: Seq<SelectItem>, ctx: ContextView)
    ensures
        attempt_fold(
            items,
            (Seq::empty(), ctx),
            |st: Listed, item: SelectItem| bound_item(st, item),
        ) matches Ok((_, c)) ==> c == (ContextView { aliases: c.aliases, ..ctx }),
    decreases items.len(),
{
    if items.len() > 0 {
        lemma_items_keep(items.drop_last(), ctx);
    }
}

/// What an expression stands for does not depend on the aggregates and
/// group keys collected.
pub proof fn lemma_bound_expr_keys(a: ContextView, b: ContextView, e: Expr)
    requires
        a.bind_table == b.bind_table,
        a.aliases == b.aliases,
        a.table_aliases == b.table_aliases,
    ensures
        a.bound_expr(e) == b.bound_expr(e),
    decreases e,
{
    match e {
        Expr::BinaryOp { left, op, right } => {
            lemma_bound_expr_keys(a, b, *left);
            lemma_bound_expr_keys(a, b, *right);
        },
        Expr::Function { name, arg, distinct } => {
            if let Some(x) = arg {
                lemma_bound_expr_keys(a, b, *x);
            }
        },
        Expr::Nested(inner) => {
            lemma_bound_expr_keys(a, b, *inner);
        },
        _ => {},
    }
}

/// The message about an expression that is neither aggregated nor a group
/// key.
pub fn agg_miss_text(e: &ScalarExpression) -> (r: String)
    ensures
        r@ == agg_miss(e@),
{
    let mut s = match strip_alias(e) {
        ScalarExpression::ColumnRef(c) => c.name.clone(),
        _ => String::from_str("expression"),
    };
    s.append(" must appear in the GROUP BY clause or be used in an aggregate function");
    s
}

} // verus!
