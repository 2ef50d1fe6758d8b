//! `INSERT`, and the statements that only name a table.
use crate::binder::error::{BindError, BindErrorView};
use crate::binder::expr::{literal, value_of};
use crate::binder::name::{lowercase, to_lowercase};
use crate::catalog::column::{ColumnCatalog, ColumnId, ColumnView};
use crate::catalog::table::{lemma_position, position, TableCatalog, TableView};
use crate::parser::ast::Expr;
use crate::planner::plan::{
    pairs_view, rows_view, CopyOperator, DropTableOperator, InsertOperator, LogicalPlan, PlanView,
    TruncateOperator,
};
use crate::types::value::{views, DataValue, TypeError, ValueView};
use crate::util::attempt::{
    attempt_all, lemma_attempt_none, lemma_attempt_step, lemma_attempt_stop,
};
use vstd::prelude::*;
use vstd::string::StringExecFns;

verus! {

/// The plan of `DROP TABLE`, where `found` tells whether the table is
/// known. An unknown table is refused unless the statement allows for it.
pub fn drop_table_plan(table_name: String, if_exists: bool, found: bool) -> (r: Result<
    LogicalPlan,
    BindError,
>)
    ensures
        found || if_exists ==> (r matches Ok(p) && p@ == (PlanView::DropTable {
            table_name: table_name@,
            if_exists,
        })),
        !found && !if_exists ==> (r matches Err(e) && e@ == BindErrorView::InvalidTable(
            table_name@,
        )),
{
    if !found && !if_exists {
        return Err(BindError::InvalidTable(table_name));
    }
    Ok(LogicalPlan::DropTable(DropTableOperator { table_name, if_exists }))
}

/// The plan of `TRUNCATE`, where `found` tells whether the table is known.
pub fn truncate_plan(table_name: String, found: bool) -> (r: Result<LogicalPlan, BindError>)
    ensures
        found ==> (r matches Ok(p) && p@ == (PlanView::Truncate { table_name: table_name@ })),
        !found ==> (r matches Err(e) && e@ == BindErrorView::InvalidTable(table_name@)),
{
    if !found {
        return Err(BindError::InvalidTable(table_name));
    }
    Ok(LogicalPlan::Truncate(TruncateOperator { table_name }))
}

/// The plan of `COPY`, given what is known of the table: the table's
/// columns, the file, the direction and the options. An unknown table is
/// refused.
pub open spec fn copy_bound(
    table: Seq<char>,
    catalog: Option<TableView>,
    to: bool,
    target: Seq<char>,
    options: Seq<(Seq<char>, Seq<char>)>,
) -> Result<PlanView, BindErrorView> {
    match catalog {
        Some(t) => Ok(
            PlanView::Copy { table_name: table, to, target, options, columns: t.columns },
        ),
        None => Err(BindErrorView::InvalidTable(table)),
    }
}

/// The plan of `COPY`, given what is known of the table.
pub fn copy_plan(
    table_name: String,
    catalog: Option<&TableCatalog>,
    to: bool,
    target: String,
    options: Vec<(String, String)>,
) -> (r: Result<LogicalPlan, BindError>)
    ensures
        match copy_bound(
            table_name@,
            match catalog {
                Some(t) => Some(t@),
                None => None,
            },
            to,
            target@,
            pairs_view(options@),
        ) {
            Ok(p) => r matches Ok(x) && x@ == p,
            Err(e) => r matches Err(x) && x@ == e,
        },
{
    match catalog {
        None => Err(BindError::InvalidTable(table_name)),
        Some(t) => Ok(
            LogicalPlan::Copy(
                CopyOperator { table_name, to, target, options, columns: t.all_columns() },
            ),
        ),
    }
}

/// The column that a name of the column list stands for.
pub open spec fn chosen_column(cat_cols: Seq<ColumnView>, ident: String) -> Result<
    ColumnView,
    BindErrorView,
> {
    match position(cat_cols, lowercase(ident@)) {
        None => Err(BindErrorView::InvalidColumn(lowercase(ident@))),
        Some(i) => Ok(cat_cols[i]),
    }
}

/// The columns that an insertion fills: those named, in the order named,
/// or all columns of the table where none is named.
pub open spec fn insert_columns(cat_cols: Seq<ColumnView>, idents: Seq<String>) -> Result<
    Seq<ColumnView>,
    BindErrorView,
> {
    if idents.len() == 0 {
        Ok(cat_cols)
    } else {
        attempt_all(idents, |i: int, ident: String| chosen_column(cat_cols, ident))
    }
}

/// A column that every row must fill: never null and without a default.
pub open spec fn is_required(c: ColumnView) -> bool {
    !c.nullable && c.desc.default is None
}

/// Refuses a required column of the table that is not among those chosen.
pub open spec fn covered(chosen: Seq<ColumnView>, c: ColumnView) -> Result<(), BindErrorView> {
    if is_required(c) && position(chosen, c.name) is None {
        Err(BindErrorView::InvalidColumn(c.name))
    } else {
        Ok(())
    }
}

/// The number of a column that has one.
pub open spec fn id_of(c: ColumnView) -> Result<ColumnId, BindErrorView> {
    match c.id {
        Some(id) => Ok(id),
        None => Err(BindErrorView::InvalidColumn(c.name)),
    }
}

/// The value that a row gives to a column: a literal, held in the
/// column's type, and not null where the column forbids it. Anything but a
/// literal is refused with the statement's text.
pub open spec fn insert_value(e: Expr, col: ColumnView, text: Seq<char>) -> Result<
    ValueView,
    BindErrorView,
> {
    match e {
        Expr::Value(v) => match value_of(v).cast(col.desc.column_datatype) {
            Err(t) => Err(BindErrorView::TypeError(t)),
            Ok(x) => if x.is_null() && !col.nullable {
                Err(BindErrorView::TypeError(TypeError::NotNull))
            } else {
                Ok(x)
            },
        },
        _ => Err(BindErrorView::UnsupportedStmt(text)),
    }
}

/// The values of one row, which must be as many as the columns.
pub open spec fn insert_row(row: Vec<Expr>, cols: Seq<ColumnView>, text: Seq<char>) -> Result<
    Seq<ValueView>,
    BindErrorView,
> {
    if row@.len() != cols.len() {
        Err(BindErrorView::InvalidColumn("values do not match columns"@))
    } else {
        attempt_all(
            row@,
            |i: int, e: Expr|
                if 0 <= i < cols.len() {
                    insert_value(e, cols[i], text)
                } else {
                    Err(BindErrorView::UnsupportedStmt(text))
                },
        )
    }
}

/// The plan of `INSERT`, given what is known of the table.
pub open spec fn insert_bound(
    table: Seq<char>,
    catalog: Option<TableView>,
    idents: Seq<String>,
    rows: Seq<Vec<Expr>>,
    is_overwrite: bool,
    text: Seq<char>,
) -> Result<PlanView, BindErrorView> {
    match catalog {
        None => Err(BindErrorView::InvalidTable(table)),
        Some(t) => match insert_columns(t.columns, idents) {
            Err(e) => Err(e),
            Ok(cols) => match attempt_all(t.columns, |i: int, c: ColumnView| covered(cols, c)) {
                Err(e) => Err(e),
                Ok(_) => match attempt_all(cols, |i: int, c: ColumnView| id_of(c)) {
                    Err(e) => Err(e),
                    Ok(col_idxs) => match attempt_all(
                        rows,
                        |i: int, row: Vec<Expr>| insert_row(row, cols, text),
                    ) {
                        Err(e) => Err(e),
                        Ok(values) => Ok(
                            PlanView::Insert { table, col_idxs, cols: values, is_overwrite },
                        ),
                    },
                },
            },
        },
    }
}

/// The columns that an insertion fills.
#[verifier::loop_isolation(false)]
pub fn choose_columns(catalog: &TableCatalog, idents: &Vec<String>) -> (r: Result<
    Vec<ColumnCatalog>,
    BindError,
>)
    ensures
        match insert_columns(catalog@.columns, idents@) {
            Ok(cols) => r matches Ok(x) && views(x@) == cols,
            Err(e) => r matches Err(x) && x@ == e,
        },
{
    if idents.len() == 0 {
        return Ok(catalog.all_columns());
    }
    let ghost f = |i: int, ident: String| chosen_column(catalog@.columns, ident);
    let mut cols: Vec<ColumnCatalog> = Vec::new();
    let mut i: usize = 0;
    proof {
        lemma_attempt_none(idents@, f);
        assert(views(cols@) =~= Seq::empty());
    }
    while i < idents.len()
        invariant
            i <= idents@.len(),
            attempt_all(idents@.take(i as int), f) == Ok::<Seq<ColumnView>, BindErrorView>(
                views(cols@),
            ),
        decreases idents@.len() - i,
    {
        proof {
            lemma_attempt_step(idents@, f, i as int);
        }
        let name = to_lowercase(idents[i].as_str());
        match catalog.get_column_by_name(&name) {
            Some(c) => {
                let c = c.clone();
                assert(views(cols@).push(c@) =~= views(cols@.push(c)));
                cols.push(c);
            },
            None => {
                proof {
                    lemma_attempt_stop(idents@, f, i + 1);
                }
                return Err(BindError::InvalidColumn(name));
            },
        }
        i += 1;
    }
    assert(idents@.take(i as int) =~= idents@);
    Ok(cols)
}

/// The values of one row.
#[verifier::loop_isolation(false)]
pub fn bind_row(row: &Vec<Expr>, cols: &Vec<ColumnCatalog>, text: &String) -> (r: Result<
    Vec<DataValue>,
    BindError,
>)
    ensures
        match insert_row(*row, views(cols@), text@) {
            Ok(vs) => r matches Ok(x) && views(x@) == vs,
            Err(e) => r matches Err(x) && x@ == e,
        },
{
    if row.len() != cols.len() {
        return Err(BindError::InvalidColumn(String::from_str("values do not match columns")));
    }
    let ghost cv = views(cols@);
    let ghost f = |i: int, e: Expr|
        if 0 <= i < cv.len() {
            insert_value(e, cv[i], text@)
        } else {
            Err(BindErrorView::UnsupportedStmt(text@))
        };
    let mut vs: Vec<DataValue> = Vec::new();
    let mut i: usize = 0;
    proof {
        lemma_attempt_none(row@, f);
        assert(views(vs@) =~= Seq::empty());
    }
    while i < row.len()
        invariant
            i <= row@.len(),
            attempt_all(row@.take(i as int), f) == Ok::<Seq<ValueView>, BindErrorView>(
                views(vs@),
            ),
        decreases row@.len() - i,
    {
        proof {
            lemma_attempt_step(row@, f, i as int);
            assert(cv[i as int] == cols@[i as int]@);
        }
        let bound: Result<DataValue, BindError> = match &row[i] {
            Expr::Value(v) => match literal(v).cast(cols[i].desc.column_datatype) {
                Err(t) => Err(BindError::TypeError(t)),
                Ok(x) => if x.is_null() && !cols[i].nullable {
                    Err(BindError::TypeError(TypeError::NotNull))
                } else {
                    Ok(x)
                },
            },
            _ => Err(BindError::UnsupportedStmt(text.clone())),
        };
        match bound {
            Ok(x) => {
                assert(views(vs@).push(x@) =~= views(vs@.push(x)));
                vs.push(x);
            },
            Err(e) => {
                proof {
                    lemma_attempt_stop(row@, f, i + 1);
                }
                return Err(e);
            },
        }
        i += 1;
    }
    assert(row@.take(i as int) =~= row@);
    Ok(vs)
}

/// The plan of `INSERT`, given what is known of the table: the columns to
/// fill and, for each row, the values held in the columns' types. Refused
/// where the table is unknown, a named column is, a required column is
/// left out, a row has too few or too many values, or a value does not
/// fit its column.
#[verifier::loop_isolation(false)]
pub fn insert_plan(
    table_name: String,
    catalog: Option<&TableCatalog>,
    idents: &Vec<String>,
    rows: &Vec<Vec<Expr>>,
    is_overwrite: bool,
    text: &String,
) -> (r: Result<LogicalPlan, BindError>)
    ensures
        match insert_bound(
            table_name@,
            match catalog {
                Some(t) => Some(t@),
                None => None,
            },
            idents@,
            rows@,
            is_overwrite,
            text@,
        ) {
            Ok(p) => r matches Ok(x) && x@ == p,
            Err(e) => r matches Err(x) && x@ == e,
        },
{
    let table = match catalog {
        Some(t) => t,
        None => {
            return Err(BindError::InvalidTable(table_name));
        },
    };
    let cols = match choose_columns(table, idents) {
        Ok(c) => c,
        Err(e) => {
            return Err(e);
        },
    };
    let ghost cv = views(cols@);
    let ghost all = table@.columns;
    let ghost g = |i: int, c: ColumnView| covered(cv, c);
    let mut i: usize = 0;
    let ghost mut done: Seq<()> = Seq::empty();
    proof {
        lemma_attempt_none(all, g);
    }
    while i < table.columns.len()
        invariant
            i <= table.columns@.len(),
            attempt_all(all.take(i as int), g) == Ok::<Seq<()>, BindErrorView>(done),
        decreases table.columns@.len() - i,
    {
        proof {
            lemma_attempt_step(all, g, i as int);
            assert(all[i as int] == table.columns@[i as int]@);
        }
        let c = &table.columns[i];
        if !c.nullable && c.desc.default.is_none() && !has_column(&cols, &c.name) {
            proof {
                lemma_attempt_stop(all, g, i + 1);
            }
            return Err(BindError::InvalidColumn(c.name.clone()));
        }
        proof {
            done = done.push(());
        }
        i += 1;
    }
    assert(all.take(i as int) =~= all);
    let ghost h = |i: int, c: ColumnView| id_of(c);
    let mut col_idxs: Vec<ColumnId> = Vec::new();
    let mut j: usize = 0;
    proof {
        lemma_attempt_none(cv, h);
    }
    while j < cols.len()
        invariant
            j <= cols@.len(),
            attempt_all(cv.take(j as int), h) == Ok::<Seq<ColumnId>, BindErrorView>(col_idxs@),
        decreases cols@.len() - j,
    {
        proof {
            lemma_attempt_step(cv, h, j as int);
            assert(cv[j as int] == cols@[j as int]@);
        }
        match cols[j].id {
            Some(id) => {
                col_idxs.push(id);
            },
            None => {
                proof {
                    lemma_attempt_stop(cv, h, j + 1);
                }
                return Err(BindError::InvalidColumn(cols[j].name.clone()));
            },
        }
        j += 1;
    }
    assert(cv.take(j as int) =~= cv);
    let ghost w = |i: int, row: Vec<Expr>| insert_row(row, cv, text@);
    let mut values: Vec<Vec<DataValue>> = Vec::new();
    let mut k: usize = 0;
    proof {
        lemma_attempt_none(rows@, w);
        assert(rows_view(values@) =~= Seq::empty());
    }
    while k < rows.len()
        invariant
            k <= rows@.len(),
            attempt_all(rows@.take(k as int), w) == Ok::<Seq<Seq<ValueView>>, BindErrorView>(
                rows_view(values@),
            ),
        decreases rows@.len() - k,
    {
        proof {
            lemma_attempt_step(rows@, w, k as int);
        }
        match bind_row(&rows[k], &cols, text) {
            Ok(vs) => {
                assert(rows_view(values@).push(views(vs@)) =~= rows_view(values@.push(vs)));
                values.push(vs);
            },
            Err(e) => {
                proof {
                    lemma_attempt_stop(rows@, w, k + 1);
                }
                return Err(e);
            },
        }
        k += 1;
    }
    assert(rows@.take(k as int) =~= rows@);
    Ok(
        LogicalPlan::Insert(
            InsertOperator { table: table_name, col_idxs, cols: values, is_overwrite },
        ),
    )
}

/// Whether one of the columns bears the name.
pub fn has_column(cols: &Vec<ColumnCatalog>, name: &String) -> (r: bool)
    ensures
        r == position(views(cols@), name@) is Some,
{
    let mut i: usize = 0;
    while i < cols.len()
        invariant
            i <= cols@.len(),
            forall|j: int| 0 <= j < i ==> views(cols@)[j].name != name@,
        decreases cols@.len() - i,
    {
        if cols[i].name == *name {
            proof {
                lemma_position(views(cols@), name@);
                assert(views(cols@)[i as int].name == name@);
            }
            return true;
        }
        i += 1;
    }
    proof {
        lemma_position(views(cols@), name@);
    }
    false
}

} // verus!
