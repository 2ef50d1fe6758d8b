//! A table: its columns in declaration order and the indexes kept for it.
use crate::catalog::column::{clone_columns, ColumnCatalog, ColumnId, ColumnView};
use crate::types::value::views;
use vstd::prelude::*;
use vstd::string::StringExecFns;

verus! {

/// The identity of a table: its name in lower case.
pub type TableName = String;

/// The position of an index among the indexes of its table.
pub type IndexId = u32;

#[derive(Debug, PartialEq, Eq)]
pub enum CatalogError {
    /// A table must have a column, and this one has none.
    ColumnsEmpty,
    /// Two columns of one table bear this name.
    Duplicated(String),
}

pub enum CatalogErrorView {
    ColumnsEmpty,
    Duplicated(Seq<char>),
}

impl View for CatalogError {
    type V = CatalogErrorView;

    open spec fn view(&self) -> CatalogErrorView {
        match self {
            CatalogError::ColumnsEmpty => CatalogErrorView::ColumnsEmpty,
            CatalogError::Duplicated(n) => CatalogErrorView::Duplicated(n@),
        }
    }
}

/// An index of a table.
#[derive(Debug, PartialEq, Eq)]
pub struct IndexMeta {
    pub id: IndexId,
    pub column_ids: Vec<ColumnId>,
    pub name: String,
    pub is_unique: bool,
    pub is_primary: bool,
}

pub struct IndexMetaView {
    pub id: IndexId,
    pub column_ids: Seq<ColumnId>,
    pub name: Seq<char>,
    pub is_unique: bool,
    pub is_primary: bool,
}

impl View for IndexMeta {
    type V = IndexMetaView;

    open spec fn view(&self) -> IndexMetaView {
        IndexMetaView {
            id: self.id,
            column_ids: self.column_ids@,
            name: self.name@,
            is_unique: self.is_unique,
            is_primary: self.is_primary,
        }
    }
}

impl Clone for IndexMeta {
    fn clone(&self) -> (r: Self)
        ensures
            r@ == self@,
    {
        let mut ids: Vec<ColumnId> = Vec::new();
        let mut i: usize = 0;
        while i < self.column_ids.len()
            invariant
                i <= self.column_ids@.len(),
                ids@ == self.column_ids@.take(i as int),
            decreases self.column_ids@.len() - i,
        {
            ids.push(self.column_ids[i]);
            assert(ids@ =~= self.column_ids@.take(i + 1));
            i += 1;
        }
        assert(ids@ =~= self.column_ids@);
        IndexMeta {
            id: self.id,
            column_ids: ids,
            name: self.name.clone(),
            is_unique: self.is_unique,
            is_primary: self.is_primary,
        }
    }
}

/// A copy of a list of index descriptions.
pub fn clone_indexes(v: &Vec<IndexMeta>) -> (r: Vec<IndexMeta>)
    ensures
        views(r@) == views(v@),
{
    let mut r: Vec<IndexMeta> = Vec::new();
    let mut i: usize = 0;
    while i < v.len()
        invariant
            i <= v@.len(),
            r@.len() == i,
            forall|j: int| 0 <= j < i ==> r@[j]@ == v@[j]@,
        decreases v@.len() - i,
    {
        r.push(v[i].clone());
        i += 1;
    }
    assert(views(r@) =~= views(v@));
    r
}

/// No two of the columns bear one name.
pub open spec fn names_distinct(cols: Seq<ColumnView>) -> bool {
    forall|i: int, j: int| 0 <= i < j < cols.len() ==> cols[i].name != cols[j].name
}

/// The columns as a table named `table` holds them: numbered from zero in
/// declaration order, each knowing its table.
pub open spec fn placed(cols: Seq<ColumnView>, table: Seq<char>) -> Seq<ColumnView> {
    Seq::new(
        cols.len(),
        |i: int| ColumnView { id: Some(i as u32), table_name: Some(table), ..cols[i] },
    )
}

/// The index kept for an indexed column, as the `id`-th index of its table:
/// `pk_` and the column's name for the primary key, `uk_` and the name for
/// another unique column.
pub open spec fn index_of_column(c: ColumnView, id: IndexId) -> IndexMetaView {
    IndexMetaView {
        id,
        column_ids: seq![c.id->0],
        name: (if c.desc.is_primary {
            "pk_"@
        } else {
            "uk_"@
        }) + c.name,
        is_unique: true,
        is_primary: c.desc.is_primary,
    }
}

/// The indexes that these columns call for: one for each indexed column
/// that has its place, in the columns' order, numbered from `base` on.
pub open spec fn derived_after(cols: Seq<ColumnView>, base: nat) -> Seq<IndexMetaView>
    decreases cols.len(),
{
    if cols.len() == 0 {
        Seq::empty()
    } else {
        let before = derived_after(cols.drop_last(), base);
        let c = cols.last();
        if c.desc.is_index() && c.id is Some {
            before.push(index_of_column(c, (base + before.len()) as IndexId))
        } else {
            before
        }
    }
}

/// The indexes that a table with these columns keeps: one for each indexed
/// column that has its place, in the columns' order, numbered from zero.
pub open spec fn derived_indexes(cols: Seq<ColumnView>) -> Seq<IndexMetaView> {
    derived_after(cols, 0)
}

/// The place of the first column named `name`, if there is one.
pub open spec fn position(cols: Seq<ColumnView>, name: Seq<char>) -> Option<int>
    decreases cols.len(),
{
    if cols.len() == 0 {
        None
    } else {
        match position(cols.drop_last(), name) {
            Some(i) => Some(i),
            None => if cols.last().name == name {
                Some(cols.len() - 1)
            } else {
                None
            },
        }
    }
}

pub proof fn lemma_position(cols: Seq<ColumnView>, name: Seq<char>)
    ensures
        match position(cols, name) {
            Some(i) => 0 <= i < cols.len() && cols[i].name == name && forall|j: int|
                0 <= j < i ==> cols[j].name != name,
            None => forall|j: int| 0 <= j < cols.len() ==> cols[j].name != name,
        },
    decreases cols.len(),
{
    if cols.len() > 0 {
        lemma_position(cols.drop_last(), name);
        assert(forall|j: int| 0 <= j < cols.len() - 1 ==> cols.drop_last()[j] == cols[j]);
    }
}

/// A table's description.
#[derive(Debug, PartialEq, Eq)]
pub struct TableCatalog {
    pub name: TableName,
    pub columns: Vec<ColumnCatalog>,
    pub indexes: Vec<IndexMeta>,
}

pub struct TableView {
    pub name: Seq<char>,
    pub columns: Seq<ColumnView>,
    pub indexes: Seq<IndexMetaView>,
}

impl TableView {
    /// There is a column, the columns are numbered from zero in order, and
    /// no two of them bear one name.
    pub open spec fn columns_wf(self) -> bool {
        &&& 0 < self.columns.len() <= u32::MAX
        &&& forall|i: int|
            0 <= i < self.columns.len() ==> (#[trigger] self.columns[i]).id == Some(i as u32)
        &&& names_distinct(self.columns)
    }

    /// The columns are as they must be, and the indexes are numbered from
    /// zero in order.
    pub open spec fn wf(self) -> bool {
        &&& self.columns_wf()
        &&& self.indexes.len() <= u32::MAX
        &&& forall|i: int| 0 <= i < self.indexes.len() ==> (#[trigger] self.indexes[i]).id == i
    }

    /// The table keeps exactly the indexes that its columns call for.
    pub open spec fn indexed(self) -> bool {
        self.indexes == derived_indexes(self.columns)
    }
}

impl View for TableCatalog {
    type V = TableView;

    open spec fn view(&self) -> TableView {
        TableView {
            name: self.name@,
            columns: views(self.columns@),
            indexes: views(self.indexes@),
        }
    }
}

impl Clone for TableCatalog {
    fn clone(&self) -> (r: Self)
        ensures
            r@ == self@,
    {
        TableCatalog {
            name: self.name.clone(),
            columns: clone_columns(&self.columns),
            indexes: clone_indexes(&self.indexes),
        }
    }
}

impl TableCatalog {
    /// A table of the given columns, numbered in the order given, with no
    /// index yet. Fails if there is no column, or if two columns bear one
    /// name.
    pub fn new(name: TableName, columns: Vec<ColumnCatalog>) -> (r: Result<
        TableCatalog,
        CatalogError,
    >)
        requires
            columns@.len() <= u32::MAX,
        ensures
            r is Ok <==> columns@.len() > 0 && names_distinct(views(columns@)),
            r matches Ok(t) ==> t@ == (TableView {
                name: name@,
                columns: placed(views(columns@), name@),
                indexes: Seq::empty(),
            }) && t@.wf(),
            r matches Err(CatalogError::ColumnsEmpty) <==> columns@.len() == 0,
            r matches Err(CatalogError::Duplicated(n)) ==> exists|i: int, j: int|
                0 <= i < j < columns@.len() && columns@[i]@.name == n@ && columns@[j]@.name == n@,
    {
        if columns.len() == 0 {
            return Err(CatalogError::ColumnsEmpty);
        }
        let ghost given = views(columns@);
        let mut cols = clone_columns(&columns);
        let mut i: usize = 0;
        while i < cols.len()
            invariant
                i <= cols@.len(),
                cols@.len() == given.len(),
                given.len() <= u32::MAX,
                given == views(columns@),
                names_distinct(given.take(i as int)),
                forall|k: int| 0 <= k < i ==> (#[trigger] cols@[k])@ == placed(given, name@)[k],
                forall|k: int| i <= k < given.len() ==> (#[trigger] cols@[k])@ == given[k],
            decreases cols@.len() - i,
        {
            let mut j: usize = 0;
            while j < i
                invariant
                    j <= i < cols@.len(),
                    cols@.len() == given.len(),
                    given == views(columns@),
                    forall|k: int| 0 <= k < j ==> given[k].name != given[i as int].name,
                    forall|k: int|
                        0 <= k < i ==> (#[trigger] cols@[k])@ == placed(given, name@)[k],
                    forall|k: int| i <= k < given.len() ==> (#[trigger] cols@[k])@ == given[k],
                decreases i - j,
            {
                if cols[j].name == cols[i].name {
                    proof {
                        assert(cols@[j as int]@.name == given[j as int].name);
                        assert(cols@[i as int]@.name == given[i as int].name);
                        assert(given[j as int] == columns@[j as int]@);
                        assert(given[i as int] == columns@[i as int]@);
                    }
                    return Err(CatalogError::Duplicated(cols[i].name.clone()));
                }
                j += 1;
            }
            let c = ColumnCatalog {
                id: Some(i as u32),
                name: cols[i].name.clone(),
                table_name: Some(name.clone()),
                nullable: cols[i].nullable,
                desc: cols[i].desc.clone(),
            };
            cols.set(i, c);
            assert(names_distinct(given.take(i + 1))) by {
                assert(forall|k: int| 0 <= k <= i ==> given.take(i + 1)[k] == given[k]);
                assert(forall|k: int| 0 <= k < i ==> given.take(i as int)[k] == given[k]);
            }
            i += 1;
        }
        assert(given.take(i as int) =~= given);
        let t = TableCatalog { name, columns: cols, indexes: Vec::new() };
        assert(t@.columns =~= placed(given, t.name@));
        assert(t@.indexes =~= Seq::empty());
        Ok(t)
    }

    /// A table of the given columns, numbered in the order given, and of
    /// the given indexes, each with the number it bears. Fails if there is
    /// no column, or if two columns bear one name.
    pub fn new_with_indexes(
        name: TableName,
        columns: Vec<ColumnCatalog>,
        indexes: Vec<IndexMeta>,
    ) -> (r: Result<TableCatalog, CatalogError>)
        requires
            columns@.len() <= u32::MAX,
        ensures
            r is Ok <==> columns@.len() > 0 && names_distinct(views(columns@)),
            r matches Ok(t) ==> t@ == (TableView {
                name: name@,
                columns: placed(views(columns@), name@),
                indexes: views(indexes@),
            }) && t@.columns_wf(),
            r matches Err(CatalogError::ColumnsEmpty) <==> columns@.len() == 0,
            r matches Err(CatalogError::Duplicated(n)) ==> exists|i: int, j: int|
                0 <= i < j < columns@.len() && columns@[i]@.name == n@ && columns@[j]@.name == n@,
    {
        match TableCatalog::new(name, columns) {
            Err(e) => Err(e),
            Ok(t) => Ok(TableCatalog { name: t.name, columns: t.columns, indexes }),
        }
    }

    /// Adds an index, which takes the next free number, and returns that
    /// number.
    pub fn add_index_meta(&mut self, meta: IndexMeta) -> (id: IndexId)
        requires
            old(self)@.indexes.len() < u32::MAX,
        ensures
            id == old(self)@.indexes.len(),
            final(self)@ == (TableView {
                indexes: old(self)@.indexes.push(IndexMetaView { id, ..meta@ }),
                ..old(self)@
            }),
            old(self)@.wf() ==> final(self)@.wf(),
    {
        let id: u32 = self.indexes.len() as u32;
        self.indexes.push(
            IndexMeta {
                id,
                column_ids: meta.column_ids,
                name: meta.name,
                is_unique: meta.is_unique,
                is_primary: meta.is_primary,
            },
        );
        assert(self@.indexes =~= old(self)@.indexes.push(IndexMetaView { id, ..meta@ }));
        assert(self@.columns == old(self)@.columns);
        id
    }

    /// The columns in declaration order.
    pub fn all_columns(&self) -> (r: Vec<ColumnCatalog>)
        ensures
            views(r@) == self@.columns,
    {
        clone_columns(&self.columns)
    }

    /// The number of the column named `name`.
    pub fn get_column_id_by_name(&self, name: &String) -> (r: Option<ColumnId>)
        ensures
            match position(self@.columns, name@) {
                Some(i) => r == self@.columns[i].id,
                None => r is None,
            },
    {
        match self.get_column_by_name(name) {
            Some(c) => c.id,
            None => None,
        }
    }

    /// The column named `name`.
    pub fn get_column_by_name(&self, name: &String) -> (r: Option<&ColumnCatalog>)
        ensures
            match position(self@.columns, name@) {
                Some(i) => r matches Some(c) && c@ == self@.columns[i],
                None => r is None,
            },
    {
        let mut i: usize = 0;
        while i < self.columns.len()
            invariant
                i <= self.columns@.len(),
                forall|j: int| 0 <= j < i ==> self@.columns[j].name != name@,
            decreases self.columns@.len() - i,
        {
            if self.columns[i].name == *name {
                proof {
                    lemma_position(self@.columns, name@);
                    assert(self@.columns[i as int].name == name@);
                }
                return Some(&self.columns[i]);
            }
            i += 1;
        }
        proof {
            lemma_position(self@.columns, name@);
        }
        None
    }

    pub fn contains_column(&self, name: &String) -> (r: bool)
        ensures
            r == position(self@.columns, name@) is Some,
    {
        self.get_column_by_name(name).is_some()
    }
}

/// The index description that an indexed column calls for, before it has
/// its number.
pub(crate) fn index_meta_of(col: &ColumnCatalog) -> (r: IndexMeta)
    requires
        col.id is Some,
    ensures
        r@ == index_of_column(col@, 0),
{
    let prefix = if col.desc.is_primary {
        "pk_"
    } else {
        "uk_"
    };
    let mut name = String::from_str(prefix);
    name.append(col.name.as_str());
    let mut column_ids: Vec<ColumnId> = Vec::new();
    match col.id {
        Some(id) => column_ids.push(id),
        None => {},
    }
    assert(column_ids@ =~= seq![col@.id->0]);
    IndexMeta { id: 0, column_ids, name, is_unique: true, is_primary: col.desc.is_primary }
}

} // verus!
