//! Rows and index entries.
use crate::catalog::column::{clone_columns, ColumnCatalog, ColumnView};
use crate::types::value::{clone_values, views, DataValue, TupleId, ValueView};
use vstd::prelude::*;

verus! {

/// A row: one value per column, and the primary key value if the table has
/// a primary key.
#[derive(Debug, PartialEq, Eq)]
pub struct Tuple {
    pub id: Option<TupleId>,
    pub columns: Vec<ColumnCatalog>,
    pub values: Vec<DataValue>,
}

pub struct TupleView {
    pub id: Option<ValueView>,
    pub columns: Seq<ColumnView>,
    pub values: Seq<ValueView>,
}

/// The place of the first primary key column, if there is one.
pub open spec fn primary_place(cols: Seq<ColumnView>) -> Option<int>
    decreases cols.len(),
{
    if cols.len() == 0 {
        None
    } else {
        match primary_place(cols.drop_last()) {
            Some(i) => Some(i),
            None => if cols.last().desc.is_primary {
                Some(cols.len() - 1)
            } else {
                None
            },
        }
    }
}

pub proof fn lemma_primary_place(cols: Seq<ColumnView>)
    ensures
        match primary_place(cols) {
            Some(i) => 0 <= i < cols.len() && cols[i].desc.is_primary && forall|j: int|
                0 <= j < i ==> !cols[j].desc.is_primary,
            None => forall|j: int| 0 <= j < cols.len() ==> !cols[j].desc.is_primary,
        },
    decreases cols.len(),
{
    if cols.len() > 0 {
        lemma_primary_place(cols.drop_last());
        assert(forall|j: int| 0 <= j < cols.len() - 1 ==> cols.drop_last()[j] == cols[j]);
    }
}

/// Each value has the type that its column declares.
pub open spec fn types_match(cols: Seq<ColumnView>, values: Seq<ValueView>) -> bool {
    &&& values.len() == cols.len()
    &&& forall|i: int|
        0 <= i < values.len() ==> (#[trigger] values[i]).logical_type()
            == cols[i].desc.column_datatype
}

/// The value in the primary key column, if the columns have one.
pub open spec fn primary_value(cols: Seq<ColumnView>, values: Seq<ValueView>) -> Option<
    ValueView,
> {
    match primary_place(cols) {
        Some(i) => Some(values[i]),
        None => None,
    }
}

impl TupleView {
    /// One value per column, each of its column's type, and `id` the value
    /// of the primary key column.
    pub open spec fn wf(self) -> bool {
        &&& types_match(self.columns, self.values)
        &&& self.id == primary_value(self.columns, self.values)
    }
}

/// The place of the first primary key column.
pub fn primary_index(cols: &Vec<ColumnCatalog>) -> (r: Option<usize>)
    ensures
        match r {
            Some(i) => primary_place(views(cols@)) == Some(i as int) && i < cols@.len(),
            None => primary_place(views(cols@)) is None,
        },
{
    let mut i: usize = 0;
    while i < cols.len()
        invariant
            i <= cols@.len(),
            forall|j: int| 0 <= j < i ==> !views(cols@)[j].desc.is_primary,
        decreases cols@.len() - i,
    {
        if cols[i].desc.is_primary {
            proof {
                lemma_primary_place(views(cols@));
                assert(views(cols@)[i as int].desc.is_primary);
            }
            return Some(i);
        }
        i += 1;
    }
    proof {
        lemma_primary_place(views(cols@));
    }
    None
}

impl View for Tuple {
    type V = TupleView;

    open spec fn view(&self) -> TupleView {
        TupleView {
            id: match self.id {
                Some(v) => Some(v@),
                None => None,
            },
            columns: views(self.columns@),
            values: views(self.values@),
        }
    }
}

impl Clone for Tuple {
    fn clone(&self) -> (r: Self)
        ensures
            r@ == self@,
    {
        Tuple {
            id: match &self.id {
                Some(v) => Some(v.clone()),
                None => None,
            },
            columns: clone_columns(&self.columns),
            values: clone_values(&self.values),
        }
    }
}

/// The key of an index entry: the index and the values of its columns.
#[derive(Debug, PartialEq, Eq)]
pub struct Index {
    pub id: u32,
    pub column_values: Vec<DataValue>,
}

impl Index {
    pub fn new(id: u32, column_values: Vec<DataValue>) -> (r: Index)
        ensures
            r.id == id,
            r.column_values == column_values,
    {
        Index { id, column_values }
    }
}

} // verus!
