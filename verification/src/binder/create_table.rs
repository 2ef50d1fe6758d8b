//! `CREATE TABLE`.
use crate::binder::error::{parts, BindError, BindErrorView};
use crate::binder::expr::{literal, value_of};
use crate::binder::name::{lower_case_name, lowercase, split_name, to_lowercase};
use crate::catalog::column::{ColumnCatalog, ColumnDesc, ColumnDescView, ColumnView};
use crate::catalog::table::{lemma_position, position};
use crate::expression::scalar::derived_column;
use crate::parser::ast::{ColumnDef, ColumnOption, DataType, ObjectName};
use crate::planner::plan::{CreateTableOperator, LogicalPlan, PlanView};
use crate::types::value::{views, LogicalType};
use vstd::prelude::*;

verus! {

/// The logical type that a declared type stands for.
pub open spec fn logical_type_of(d: DataType) -> LogicalType {
    match d {
        DataType::Boolean => LogicalType::Boolean,
        DataType::Int => LogicalType::Integer,
        DataType::BigInt => LogicalType::Bigint,
        DataType::Varchar => LogicalType::Varchar,
    }
}

pub fn logical_type(d: DataType) -> (r: LogicalType)
    ensures
        r == logical_type_of(d),
{
    match d {
        DataType::Boolean => LogicalType::Boolean,
        DataType::Int => LogicalType::Integer,
        DataType::BigInt => LogicalType::Bigint,
        DataType::Varchar => LogicalType::Varchar,
    }
}

/// The table that a name of one or two parts names, in lower case.
pub open spec fn table_of_name(name: ObjectName) -> Result<Seq<char>, BindErrorView> {
    let lowered = parts(name.0@).map_values(|p: Seq<char>| lowercase(p));
    if lowered.len() == 1 || lowered.len() == 2 {
        Ok(lowered[lowered.len() - 1])
    } else {
        Err(BindErrorView::InvalidTableName(lowered))
    }
}

/// The table that a name names.
pub fn table_name_of(name: &ObjectName) -> (r: Result<String, BindError>)
    ensures
        match table_of_name(*name) {
            Ok(t) => r matches Ok(x) && x@ == t,
            Err(e) => r matches Err(x) && x@ == e,
        },
{
    let lowered = lower_case_name(name);
    let r = match split_name(&lowered) {
        Ok((_, table)) => Ok(table.to_owned()),
        Err(e) => Err(e),
    };
    r
}

/// The column after one more of its options is taken in. The primary key
/// is unique and never null. A default is held in the column's type.
pub open spec fn with_option(c: ColumnView, o: ColumnOption) -> Result<ColumnView, BindErrorView> {
    match o {
        ColumnOption::Null => Ok(ColumnView { nullable: true, ..c }),
        ColumnOption::NotNull => Ok(ColumnView { nullable: false, ..c }),
        ColumnOption::Unique { is_primary } => if is_primary {
            Ok(
                ColumnView {
                    nullable: false,
                    desc: ColumnDescView { is_primary: true, is_unique: true, ..c.desc },
                    ..c
                },
            )
        } else {
            Ok(ColumnView { desc: ColumnDescView { is_unique: true, ..c.desc }, ..c })
        },
        ColumnOption::Default(v) => match value_of(v).cast(c.desc.column_datatype) {
            Ok(x) => Ok(ColumnView { desc: ColumnDescView { default: Some(x), ..c.desc }, ..c }),
            Err(e) => Err(BindErrorView::TypeError(e)),
        },
    }
}

/// The column after its options are taken in, in the order given.
pub open spec fn with_options(c: ColumnView, opts: Seq<ColumnOption>) -> Result<
    ColumnView,
    BindErrorView,
>
    decreases opts.len(),
{
    if opts.len() == 0 {
        Ok(c)
    } else {
        match with_options(c, opts.drop_last()) {
            Err(e) => Err(e),
            Ok(x) => with_option(x, opts.last()),
        }
    }
}

/// The column that a definition describes: named in lower case, nullable
/// unless an option says otherwise, and never nullable where it is the
/// primary key, whatever the options say.
pub open spec fn column_of_def(d: ColumnDef) -> Result<ColumnView, BindErrorView> {
    match with_options(
        derived_column(lowercase(d.name@), logical_type_of(d.data_type)),
        d.options@,
    ) {
        Err(e) => Err(e),
        Ok(c) => Ok(ColumnView { nullable: c.nullable && !c.desc.is_primary, ..c }),
    }
}

/// The columns that the definitions describe; the first definition that
/// describes none decides the error.
pub open spec fn columns_of_defs(ds: Seq<ColumnDef>) -> Result<Seq<ColumnView>, BindErrorView>
    decreases ds.len(),
{
    if ds.len() == 0 {
        Ok(Seq::empty())
    } else {
        match columns_of_defs(ds.drop_last()) {
            Err(e) => Err(e),
            Ok(before) => match column_of_def(ds.last()) {
                Err(e) => Err(e),
                Ok(c) => Ok(before.push(c)),
            },
        }
    }
}

/// The place of the first column whose name an earlier column bears.
pub open spec fn first_repeat(cols: Seq<ColumnView>) -> Option<int>
    decreases cols.len(),
{
    if cols.len() == 0 {
        None
    } else {
        match first_repeat(cols.drop_last()) {
            Some(i) => Some(i),
            None => if position(cols.drop_last(), cols.last().name) is Some {
                Some(cols.len() - 1)
            } else {
                None
            },
        }
    }
}

/// The plan of `CREATE TABLE`: the table's name in lower case, its columns
/// as defined. Refused where the name has too many parts, where a default
/// does not fit its column, and where two columns bear one name.
pub open spec fn create_table_bound(name: ObjectName, defs: Seq<ColumnDef>, if_not_exists: bool)
    -> Result<PlanView, BindErrorView> {
    match table_of_name(name) {
        Err(e) => Err(e),
        Ok(table_name) => match columns_of_defs(defs) {
            Err(e) => Err(e),
            Ok(columns) => match first_repeat(columns) {
                Some(i) => Err(BindErrorView::AmbiguousColumn(columns[i].name)),
                None => Ok(PlanView::CreateTable { table_name, columns, if_not_exists }),
            },
        },
    }
}

/// The column that a definition describes.
pub fn column_from_def(d: &ColumnDef) -> (r: Result<ColumnCatalog, BindError>)
    ensures
        match column_of_def(*d) {
            Ok(c) => r matches Ok(x) && x@ == c,
            Err(e) => r matches Err(x) && x@ == e,
        },
{
    let mut c = ColumnCatalog::new(
        to_lowercase(d.name.as_str()),
        true,
        ColumnDesc::new(logical_type(d.data_type), false, false, None),
    );
    let ghost base = c@;
    let mut i: usize = 0;
    assert(d.options@.take(0) =~= Seq::empty());
    while i < d.options.len()
        invariant
            i <= d.options@.len(),
            base == derived_column(lowercase(d.name@), logical_type_of(d.data_type)),
            with_options(base, d.options@.take(i as int)) == Ok::<ColumnView, BindErrorView>(c@),
        decreases d.options@.len() - i,
    {
        assert(d.options@.take(i + 1).drop_last() =~= d.options@.take(i as int));
        match &d.options[i] {
            ColumnOption::Null => {
                c.nullable = true;
            },
            ColumnOption::NotNull => {
                c.nullable = false;
            },
            ColumnOption::Unique { is_primary } => {
                if *is_primary {
                    c.nullable = false;
                    c.desc.is_primary = true;
                }
                c.desc.is_unique = true;
            },
            ColumnOption::Default(v) => match literal(v).cast(c.desc.column_datatype) {
                Ok(x) => {
                    c.desc.default = Some(x);
                },
                Err(e) => {
                    proof {
                        lemma_options_stop(base, d.options@, i + 1);
                    }
                    return Err(BindError::TypeError(e));
                },
            },
        }
        i += 1;
    }
    assert(d.options@.take(i as int) =~= d.options@);
    if c.desc.is_primary {
        c.nullable = false;
    }
    Ok(c)
}

/// Where the first options are refused, all of them are, for that reason.
pub proof fn lemma_options_stop(c: ColumnView, opts: Seq<ColumnOption>, n: int)
    requires
        0 <= n <= opts.len(),
        with_options(c, opts.take(n)) is Err,
    ensures
        with_options(c, opts) == with_options(c, opts.take(n)),
    decreases opts.len(),
{
    if n < opts.len() {
        assert(opts.drop_last().take(n) =~= opts.take(n));
        lemma_options_stop(c, opts.drop_last(), n);
    } else {
        assert(opts.take(n) =~= opts);
    }
}

/// Where the first definitions are refused, all of them are, for that
/// reason.
pub proof fn lemma_defs_stop(ds: Seq<ColumnDef>, n: int)
    requires
        0 <= n <= ds.len(),
        columns_of_defs(ds.take(n)) is Err,
    ensures
        columns_of_defs(ds) == columns_of_defs(ds.take(n)),
    decreases ds.len(),
{
    if n < ds.len() {
        assert(ds.drop_last().take(n) =~= ds.take(n));
        lemma_defs_stop(ds.drop_last(), n);
    } else {
        assert(ds.take(n) =~= ds);
    }
}

/// Where the first columns hold a repeated name, the first repeat among
/// all columns is the first among those.
pub proof fn lemma_repeat_stop(cols: Seq<ColumnView>, n: int)
    requires
        0 <= n <= cols.len(),
        first_repeat(cols.take(n)) is Some,
    ensures
        first_repeat(cols) == first_repeat(cols.take(n)),
    decreases cols.len(),
{
    if n < cols.len() {
        assert(cols.drop_last().take(n) =~= cols.take(n));
        lemma_repeat_stop(cols.drop_last(), n);
    } else {
        assert(cols.take(n) =~= cols);
    }
}

/// The plan of `CREATE TABLE`.
pub fn create_table_plan(name: &ObjectName, defs: &Vec<ColumnDef>, if_not_exists: bool) -> (r:
    Result<LogicalPlan, BindError>)
    ensures
        match create_table_bound(*name, defs@, if_not_exists) {
            Ok(p) => r matches Ok(x) && x@ == p,
            Err(e) => r matches Err(x) && x@ == e,
        },
{
    let table_name = match table_name_of(name) {
        Ok(t) => t,
        Err(e) => {
            return Err(e);
        },
    };
    let mut columns: Vec<ColumnCatalog> = Vec::new();
    let mut i: usize = 0;
    assert(defs@.take(0) =~= Seq::empty());
    assert(views(columns@) =~= Seq::empty());
    while i < defs.len()
        invariant
            i <= defs@.len(),
            columns@.len() == i,
            table_of_name(*name) == Ok::<Seq<char>, BindErrorView>(table_name@),
            columns_of_defs(defs@.take(i as int)) == Ok::<Seq<ColumnView>, BindErrorView>(
                views(columns@),
            ),
        decreases defs@.len() - i,
    {
        assert(defs@.take(i + 1).drop_last() =~= defs@.take(i as int));
        match column_from_def(&defs[i]) {
            Ok(c) => {
                assert(views(columns@).push(c@) =~= views(columns@.push(c)));
                columns.push(c);
            },
            Err(e) => {
                proof {
                    lemma_defs_stop(defs@, i + 1);
                }
                return Err(e);
            },
        }
        i += 1;
    }
    assert(defs@.take(i as int) =~= defs@);
    let ghost cols = views(columns@);
    let mut k: usize = 0;
    assert(cols.take(0) =~= Seq::empty());
    while k < columns.len()
        invariant
            k <= columns@.len(),
            cols == views(columns@),
            table_of_name(*name) == Ok::<Seq<char>, BindErrorView>(table_name@),
            columns_of_defs(defs@) == Ok::<Seq<ColumnView>, BindErrorView>(cols),
            first_repeat(cols.take(k as int)) is None,
        decreases columns@.len() - k,
    {
        assert(cols.take(k + 1).drop_last() =~= cols.take(k as int));
        let mut j: usize = 0;
        while j < k
            invariant
                j <= k < columns@.len(),
                cols == views(columns@),
                table_of_name(*name) == Ok::<Seq<char>, BindErrorView>(table_name@),
                columns_of_defs(defs@) == Ok::<Seq<ColumnView>, BindErrorView>(cols),
                first_repeat(cols.take(k as int)) is None,
                cols.take(k + 1).drop_last() == cols.take(k as int),
                forall|x: int| 0 <= x < j ==> cols[x].name != cols[k as int].name,
            decreases k - j,
        {
            if columns[j].name == columns[k].name {
                proof {
                    assert(cols[j as int].name == cols[k as int].name);
                    lemma_position(cols.take(k as int), cols[k as int].name);
                    assert(cols.take(k as int)[j as int] == cols[j as int]);
                    lemma_repeat_stop(cols, k + 1);
                }
                return Err(BindError::AmbiguousColumn(columns[k].name.clone()));
            }
            j += 1;
        }
        proof {
            lemma_position(cols.take(k as int), cols[k as int].name);
            assert(forall|x: int| 0 <= x < k ==> cols.take(k as int)[x] == cols[x]);
        }
        k += 1;
    }
    assert(cols.take(k as int) =~= cols);
    Ok(LogicalPlan::CreateTable(CreateTableOperator { table_name, columns, if_not_exists }))
}

} // verus!
