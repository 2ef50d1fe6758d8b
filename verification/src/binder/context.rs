//! What the binder knows while it binds one statement.
use crate::binder::error::{duplicated, duplicated_text, BindError, BindErrorView};
use crate::catalog::table::{TableCatalog, TableName, TableView};
use crate::expression::scalar::{ExprView, ScalarExpression};
use crate::planner::operator::JoinType;
use crate::storage::transaction::Transaction;
use crate::types::value::views;
use vstd::prelude::*;

verus! {

/// What an input reference stands for.
#[derive(Clone, Copy, Debug, PartialEq, Eq, Structural)]
pub enum InputRefType {
    AggCall,
    GroupBy,
}

/// A table bound by the `FROM` clause, under the name by which the
/// statement knows it.
pub struct BoundTable {
    pub name: TableName,
    pub catalog: TableCatalog,
    pub join_type: Option<JoinType>,
}

pub struct BoundTableView {
    pub name: Seq<char>,
    pub catalog: TableView,
    pub join_type: Option<JoinType>,
}

impl View for BoundTable {
    type V = BoundTableView;

    open spec fn view(&self) -> BoundTableView {
        BoundTableView { name: self.name@, catalog: self.catalog@, join_type: self.join_type }
    }
}

/// The mathematical content of a binder's state.
pub struct ContextView {
    pub bind_table: Seq<BoundTableView>,
    pub aliases: Seq<(Seq<char>, ExprView)>,
    pub table_aliases: Seq<(Seq<char>, Seq<char>)>,
    pub group_by_exprs: Seq<ExprView>,
    pub agg_calls: Seq<ExprView>,
}

/// The content of named expressions.
pub open spec fn expr_aliases(s: Seq<(String, ScalarExpression)>) -> Seq<(Seq<char>, ExprView)> {
    s.map_values(|p: (String, ScalarExpression)| (p.0@, p.1@))
}

/// The content of named names.
pub open spec fn name_aliases(s: Seq<(String, TableName)>) -> Seq<(Seq<char>, Seq<char>)> {
    s.map_values(|p: (String, TableName)| (p.0@, p.1@))
}

/// The place of the first pair whose name is `name`.
pub open spec fn lookup<V>(pairs: Seq<(Seq<char>, V)>, name: Seq<char>) -> Option<int>
    decreases pairs.len(),
{
    if pairs.len() == 0 {
        None
    } else {
        match lookup(pairs.drop_last(), name) {
            Some(i) => Some(i),
            None => if pairs.last().0 == name {
                Some(pairs.len() - 1)
            } else {
                None
            },
        }
    }
}

/// The place of the first bound table known as `name`.
pub open spec fn lookup_table(tables: Seq<BoundTableView>, name: Seq<char>) -> Option<int>
    decreases tables.len(),
{
    if tables.len() == 0 {
        None
    } else {
        match lookup_table(tables.drop_last(), name) {
            Some(i) => Some(i),
            None => if tables.last().name == name {
                Some(tables.len() - 1)
            } else {
                None
            },
        }
    }
}

/// A pair is found among pairs where it is found among their contents.
pub proof fn lemma_lookup_views<V, W>(
    pairs: Seq<(String, V)>,
    content: Seq<(Seq<char>, W)>,
    name: Seq<char>,
)
    requires
        content.len() == pairs.len(),
        forall|i: int| 0 <= i < pairs.len() ==> (#[trigger] content[i]).0 == pairs[i].0@,
    ensures
        lookup(content, name) == find_alias(pairs, name),
    decreases pairs.len(),
{
    if pairs.len() > 0 {
        lemma_lookup_views(pairs.drop_last(), content.drop_last(), name);
    }
}

/// A table is found among bound tables where it is found among their
/// contents.
pub proof fn lemma_lookup_table_views(tables: Seq<BoundTable>, name: Seq<char>)
    ensures
        lookup_table(views(tables), name) == find_bound(tables, name),
    decreases tables.len(),
{
    if tables.len() > 0 {
        assert(views(tables).drop_last() =~= views(tables.drop_last()));
        lemma_lookup_table_views(tables.drop_last(), name);
    }
}

impl ContextView {
    /// The name of the table that the statement knows as `name`: what
    /// `name` is an alias of, or `name` itself.
    pub open spec fn real_name(self, name: Seq<char>) -> Seq<char> {
        match lookup(self.table_aliases, name) {
            Some(i) => self.table_aliases[i].1,
            None => name,
        }
    }
}

/// The state of a binding: the tables bound so far in the order of their
/// binding, the aliases of columns and of tables, and the group keys and
/// aggregates collected.
pub struct BinderContext<'a, T: Transaction> {
    pub transaction: &'a T,
    pub bind_table: Vec<BoundTable>,
    pub aliases: Vec<(String, ScalarExpression)>,
    pub table_aliases: Vec<(String, TableName)>,
    pub group_by_exprs: Vec<ScalarExpression>,
    pub agg_calls: Vec<ScalarExpression>,
}

/// The place of the first pair whose name is `name`.
pub open spec fn find_alias<V>(pairs: Seq<(String, V)>, name: Seq<char>) -> Option<int>
    decreases pairs.len(),
{
    if pairs.len() == 0 {
        None
    } else {
        match find_alias(pairs.drop_last(), name) {
            Some(i) => Some(i),
            None => if pairs.last().0@ == name {
                Some(pairs.len() - 1)
            } else {
                None
            },
        }
    }
}

pub proof fn lemma_find_alias<V>(pairs: Seq<(String, V)>, name: Seq<char>)
    ensures
        match find_alias(pairs, name) {
            Some(i) => 0 <= i < pairs.len() && pairs[i].0@ == name && forall|j: int|
                0 <= j < i ==> pairs[j].0@ != name,
            None => forall|j: int| 0 <= j < pairs.len() ==> (#[trigger] pairs[j]).0@ != name,
        },
    decreases pairs.len(),
{
    if pairs.len() > 0 {
        lemma_find_alias(pairs.drop_last(), name);
        assert(forall|j: int| 0 <= j < pairs.len() - 1 ==> pairs.drop_last()[j] == pairs[j]);
    }
}

/// The place of the first bound table known as `name`.
pub open spec fn find_bound(tables: Seq<BoundTable>, name: Seq<char>) -> Option<int>
    decreases tables.len(),
{
    if tables.len() == 0 {
        None
    } else {
        match find_bound(tables.drop_last(), name) {
            Some(i) => Some(i),
            None => if tables.last().name@ == name {
                Some(tables.len() - 1)
            } else {
                None
            },
        }
    }
}

pub proof fn lemma_find_bound(tables: Seq<BoundTable>, name: Seq<char>)
    ensures
        match find_bound(tables, name) {
            Some(i) => 0 <= i < tables.len() && tables[i].name@ == name && forall|j: int|
                0 <= j < i ==> tables[j].name@ != name,
            None => forall|j: int| 0 <= j < tables.len() ==> (#[trigger] tables[j]).name@ != name,
        },
    decreases tables.len(),
{
    if tables.len() > 0 {
        lemma_find_bound(tables.drop_last(), name);
        assert(forall|j: int| 0 <= j < tables.len() - 1 ==> tables.drop_last()[j] == tables[j]);
    }
}

/// The place of the first pair whose name is `name`.
pub fn alias_index<V>(pairs: &Vec<(String, V)>, name: &String) -> (r: Option<usize>)
    ensures
        match r {
            Some(i) => find_alias(pairs@, name@) == Some(i as int) && i < pairs@.len(),
            None => find_alias(pairs@, name@) is None,
        },
{
    let mut i: usize = 0;
    while i < pairs.len()
        invariant
            i <= pairs@.len(),
            forall|j: int| 0 <= j < i ==> (#[trigger] pairs@[j]).0@ != name@,
        decreases pairs@.len() - i,
    {
        if pairs[i].0 == *name {
            proof {
                lemma_find_alias(pairs@, name@);
                assert(pairs@[i as int].0@ == name@);
            }
            return Some(i);
        }
        i += 1;
    }
    proof {
        lemma_find_alias(pairs@, name@);
    }
    None
}

impl<'a, T: Transaction> View for BinderContext<'a, T> {
    type V = ContextView;

    open spec fn view(&self) -> ContextView {
        ContextView {
            bind_table: views(self.bind_table@),
            aliases: expr_aliases(self.aliases@),
            table_aliases: name_aliases(self.table_aliases@),
            group_by_exprs: views(self.group_by_exprs@),
            agg_calls: views(self.agg_calls@),
        }
    }
}

/// `found` is what the transaction may answer when it is asked for the
/// table named `name`. Nothing is known of a transaction's answers but
/// that they are its own.
pub open spec fn is_answer<T: Transaction>(
    transaction: &T,
    name: TableName,
    found: Option<&TableCatalog>,
) -> bool {
    call_ensures(T::table, (transaction, name), found)
}

/// The content of what a transaction answers.
pub open spec fn answer_view(found: Option<&TableCatalog>) -> Option<TableView> {
    match found {
        Some(t) => Some(t@),
        None => None,
    }
}

/// `catalog` is the content of what the transaction answers when it is
/// asked for the table by a name that spells `name`.
pub open spec fn answered<T: Transaction>(
    transaction: &T,
    name: Seq<char>,
    catalog: Option<TableView>,
) -> bool {
    exists|n: TableName, found: Option<&TableCatalog>|
        n@ == name && #[trigger] is_answer(transaction, n, found) && answer_view(found) == catalog
}

impl<'a, T: Transaction> BinderContext<'a, T> {
    /// The name by which the transaction is asked for the table that the
    /// statement knows as `table_name`: what `table_name` is an alias of, or
    /// `table_name` itself.
    pub open spec fn real_table(&self, table_name: TableName) -> TableName {
        match find_alias(self.table_aliases@, table_name@) {
            Some(i) => self.table_aliases@[i].1,
            None => table_name,
        }
    }


    /// So few aggregates and group keys that their places can be counted.
    pub open spec fn wf(&self) -> bool {
        self.agg_calls@.len() + self.group_by_exprs@.len() <= usize::MAX
    }

    /// A context in which nothing is bound yet.
    pub fn new(transaction: &'a T) -> (r: Self)
        ensures
            r.transaction == transaction,
            r.bind_table@.len() == 0,
            r.aliases@.len() == 0,
            r.table_aliases@.len() == 0,
            r.group_by_exprs@.len() == 0,
            r.agg_calls@.len() == 0,
            r.wf(),
            r@ == (ContextView {
                bind_table: Seq::empty(),
                aliases: Seq::empty(),
                table_aliases: Seq::empty(),
                group_by_exprs: Seq::empty(),
                agg_calls: Seq::empty(),
            }),
    {
        let r = BinderContext {
            transaction,
            bind_table: Vec::new(),
            aliases: Vec::new(),
            table_aliases: Vec::new(),
            group_by_exprs: Vec::new(),
            agg_calls: Vec::new(),
        };
        assert(r@.bind_table =~= Seq::empty());
        assert(r@.aliases =~= Seq::empty());
        assert(r@.table_aliases =~= Seq::empty());
        assert(r@.group_by_exprs =~= Seq::empty());
        assert(r@.agg_calls =~= Seq::empty());
        r
    }

    /// The name under which the transaction knows the table.
    pub fn resolve_table_name(&self, table_name: TableName) -> (r: TableName)
        ensures
            r == self.real_table(table_name),
            r@ == self@.real_name(table_name@),
    {
        proof {
            lemma_lookup_views(self.table_aliases@, self@.table_aliases, table_name@);
        }
        match alias_index(&self.table_aliases, &table_name) {
            Some(i) => self.table_aliases[i].1.clone(),
            None => table_name,
        }
    }

    /// What the transaction answers for the table, asked by its real name.
    pub fn table(&self, table_name: TableName) -> (r: Option<&TableCatalog>)
        ensures
            is_answer(self.transaction, self.real_table(table_name), r),
            answered(self.transaction, self@.real_name(table_name@), answer_view(r)),
    {
        let name = self.resolve_table_name(table_name);
        let r = self.transaction.table(name);
        assert(is_answer(self.transaction, name, r));
        r
    }

    /// The place that the next aggregate, or the next group key, takes among
    /// the inputs: aggregates come first, group keys after them.
    pub fn input_ref_index(&self, ty: InputRefType) -> (r: usize)
        requires
            self.wf(),
        ensures
            ty is AggCall ==> r == self.agg_calls@.len(),
            ty is GroupBy ==> r == self.agg_calls@.len() + self.group_by_exprs@.len(),
    {
        match ty {
            InputRefType::AggCall => self.agg_calls.len(),
            InputRefType::GroupBy => self.agg_calls.len() + self.group_by_exprs.len(),
        }
    }

    /// Gives an expression a name. A name is given once: a second giving
    /// is refused and changes nothing.
    pub fn add_alias(&mut self, alias: String, expr: ScalarExpression) -> (r: Result<(), BindError>)
        ensures
            final(self).transaction == old(self).transaction,
            final(self).bind_table == old(self).bind_table,
            final(self).table_aliases == old(self).table_aliases,
            final(self).group_by_exprs == old(self).group_by_exprs,
            final(self).agg_calls == old(self).agg_calls,
            lookup(old(self)@.aliases, alias@) is None ==> (r is Ok && final(self)@
                == ContextView {
                aliases: old(self)@.aliases.push((alias@, expr@)),
                ..old(self)@
            }),
            lookup(old(self)@.aliases, alias@) is Some ==> (r matches Err(e) && e@
                == BindErrorView::InvalidColumn(duplicated(alias@)) && final(self)@ == old(self)@),
    {
        proof {
            lemma_lookup_views(self.aliases@, self@.aliases, alias@);
        }
        if alias_index(&self.aliases, &alias).is_some() {
            return Err(BindError::InvalidColumn(duplicated_text(&alias)));
        }
        self.aliases.push((alias, expr));
        assert(self@.aliases =~= old(self)@.aliases.push((alias@, expr@)));
        Ok(())
    }

    /// Gives a table another name. A name is given once: a second giving
    /// is refused and changes nothing.
    pub fn add_table_alias(&mut self, alias: String, table: TableName) -> (r: Result<
        (),
        BindError,
    >)
        ensures
            final(self).transaction == old(self).transaction,
            final(self).bind_table == old(self).bind_table,
            final(self).aliases == old(self).aliases,
            final(self).group_by_exprs == old(self).group_by_exprs,
            final(self).agg_calls == old(self).agg_calls,
            lookup(old(self)@.table_aliases, alias@) is None ==> (r is Ok && final(self)@
                == ContextView {
                table_aliases: old(self)@.table_aliases.push((alias@, table@)),
                ..old(self)@
            }),
            lookup(old(self)@.table_aliases, alias@) is Some ==> (r matches Err(e) && e@
                == BindErrorView::InvalidTable(duplicated(alias@)) && final(self)@ == old(self)@),
    {
        proof {
            lemma_lookup_views(self.table_aliases@, self@.table_aliases, alias@);
        }
        if alias_index(&self.table_aliases, &alias).is_some() {
            return Err(BindError::InvalidTable(duplicated_text(&alias)));
        }
        self.table_aliases.push((alias, table));
        assert(self@.table_aliases =~= old(self)@.table_aliases.push((alias@, table@)));
        Ok(())
    }

    /// The place of the bound table known as `name`.
    pub fn bound_index(&self, name: &String) -> (r: Option<usize>)
        ensures
            match r {
                Some(i) => lookup_table(self@.bind_table, name@) == Some(i as int) && i
                    < self.bind_table@.len(),
                None => lookup_table(self@.bind_table, name@) is None,
            },
    {
        proof {
            lemma_lookup_table_views(self.bind_table@, name@);
        }
        let mut i: usize = 0;
        while i < self.bind_table.len()
            invariant
                i <= self.bind_table@.len(),
                forall|j: int| 0 <= j < i ==> (#[trigger] self.bind_table@[j]).name@ != name@,
            decreases self.bind_table@.len() - i,
        {
            if self.bind_table[i].name == *name {
                proof {
                    lemma_find_bound(self.bind_table@, name@);
                    lemma_lookup_table_views(self.bind_table@, name@);
                    assert(self.bind_table@[i as int].name@ == name@);
                }
                return Some(i);
            }
            i += 1;
        }
        proof {
            lemma_find_bound(self.bind_table@, name@);
        }
        None
    }

    /// Binds a table under a name. A name is bound once: a second binding
    /// is refused and changes nothing.
    pub fn add_bind_table(
        &mut self,
        table: TableName,
        table_catalog: TableCatalog,
        join_type: Option<JoinType>,
    ) -> (r: Result<(), BindError>)
        ensures
            final(self).transaction == old(self).transaction,
            final(self).aliases == old(self).aliases,
            final(self).table_aliases == old(self).table_aliases,
            final(self).group_by_exprs == old(self).group_by_exprs,
            final(self).agg_calls == old(self).agg_calls,
            lookup_table(old(self)@.bind_table, table@) is None ==> (r is Ok && final(self)@
                == ContextView {
                bind_table: old(self)@.bind_table.push(
                    BoundTableView { name: table@, catalog: table_catalog@, join_type },
                ),
                ..old(self)@
            }),
            lookup_table(old(self)@.bind_table, table@) is Some ==> (r matches Err(e) && e@
                == BindErrorView::InvalidTable(duplicated(table@)) && final(self)@ == old(self)@),
    {
        if self.bound_index(&table).is_some() {
            return Err(BindError::InvalidTable(duplicated_text(&table)));
        }
        self.bind_table.push(BoundTable { name: table, catalog: table_catalog, join_type });
        assert(self@.bind_table =~= old(self)@.bind_table.push(
            BoundTableView { name: table@, catalog: table_catalog@, join_type },
        ));
        Ok(())
    }

    /// Whether the expression is one of the group keys.
    pub fn has_agg_call(&self, expr: &ScalarExpression) -> (r: bool)
        ensures
            r == self@.group_by_exprs.contains(expr@),
    {
        let mut i: usize = 0;
        while i < self.group_by_exprs.len()
            invariant
                i <= self.group_by_exprs@.len(),
                forall|j: int| 0 <= j < i ==> views(self.group_by_exprs@)[j] != expr@,
            decreases self.group_by_exprs@.len() - i,
        {
            if self.group_by_exprs[i].same(expr) {
                assert(views(self.group_by_exprs@)[i as int] == expr@);
                return true;
            }
            i += 1;
        }
        false
    }
}

} // verus!
