//! One column of a table.
use crate::types::value::{views, DataValue, LogicalType, ValueView};
use vstd::prelude::*;

verus! {

/// The position of a column in its table, counted from zero.
pub type ColumnId = u32;

/// Type and constraints of a column.
#[derive(Debug, PartialEq, Eq)]
pub struct ColumnDesc {
    pub column_datatype: LogicalType,
    pub is_primary: bool,
    pub is_unique: bool,
    pub default: Option<DataValue>,
}

pub struct ColumnDescView {
    pub column_datatype: LogicalType,
    pub is_primary: bool,
    pub is_unique: bool,
    pub default: Option<ValueView>,
}

impl ColumnDescView {
    /// A column is indexed if it is the primary key or unique.
    pub open spec fn is_index(self) -> bool {
        self.is_primary || self.is_unique
    }
}

impl View for ColumnDesc {
    type V = ColumnDescView;

    open spec fn view(&self) -> ColumnDescView {
        ColumnDescView {
            column_datatype: self.column_datatype,
            is_primary: self.is_primary,
            is_unique: self.is_unique,
            default: match self.default {
                Some(v) => Some(v@),
                None => None,
            },
        }
    }
}

impl Clone for ColumnDesc {
    fn clone(&self) -> (r: Self)
        ensures
            r@ == self@,
    {
        ColumnDesc {
            column_datatype: self.column_datatype,
            is_primary: self.is_primary,
            is_unique: self.is_unique,
            default: match &self.default {
                Some(v) => Some(v.clone()),
                None => None,
            },
        }
    }
}

impl ColumnDesc {
    pub fn new(
        column_datatype: LogicalType,
        is_primary: bool,
        is_unique: bool,
        default: Option<DataValue>,
    ) -> (r: ColumnDesc)
        ensures
            r == (ColumnDesc { column_datatype, is_primary, is_unique, default }),
    {
        ColumnDesc { column_datatype, is_primary, is_unique, default }
    }

    pub fn is_index(&self) -> (r: bool)
        ensures
            r == self@.is_index(),
    {
        self.is_primary || self.is_unique
    }

    /// Whether two descriptions have the same content.
    pub fn same(&self, other: &ColumnDesc) -> (r: bool)
        ensures
            r == (self@ == other@),
    {
        self.column_datatype == other.column_datatype && self.is_primary == other.is_primary
            && self.is_unique == other.is_unique && match (&self.default, &other.default) {
            (Some(a), Some(b)) => a.same(b),
            (None, None) => true,
            _ => false,
        }
    }
}

/// A column: its place in the table, its name, and what it may hold.
#[derive(Debug, PartialEq, Eq)]
pub struct ColumnCatalog {
    pub id: Option<ColumnId>,
    pub name: String,
    pub table_name: Option<String>,
    pub nullable: bool,
    pub desc: ColumnDesc,
}

pub struct ColumnView {
    pub id: Option<ColumnId>,
    pub name: Seq<char>,
    pub table_name: Option<Seq<char>>,
    pub nullable: bool,
    pub desc: ColumnDescView,
}

impl View for ColumnCatalog {
    type V = ColumnView;

    open spec fn view(&self) -> ColumnView {
        ColumnView {
            id: self.id,
            name: self.name@,
            table_name: match self.table_name {
                Some(s) => Some(s@),
                None => None,
            },
            nullable: self.nullable,
            desc: self.desc@,
        }
    }
}

impl Clone for ColumnCatalog {
    fn clone(&self) -> (r: Self)
        ensures
            r@ == self@,
    {
        ColumnCatalog {
            id: self.id,
            name: self.name.clone(),
            table_name: match &self.table_name {
                Some(s) => Some(s.clone()),
                None => None,
            },
            nullable: self.nullable,
            desc: self.desc.clone(),
        }
    }
}

impl ColumnCatalog {
    /// A column that belongs to no table yet.
    pub fn new(name: String, nullable: bool, desc: ColumnDesc) -> (r: ColumnCatalog)
        ensures
            r == (ColumnCatalog { id: None, name, table_name: None, nullable, desc }),
    {
        ColumnCatalog { id: None, name, table_name: None, nullable, desc }
    }

    pub fn id(&self) -> (r: Option<ColumnId>)
        ensures
            r == self.id,
    {
        self.id
    }

    pub fn name(&self) -> (r: &String)
        ensures
            r == self.name,
    {
        &self.name
    }

    pub fn datatype(&self) -> (r: LogicalType)
        ensures
            r == self.desc.column_datatype,
    {
        self.desc.column_datatype
    }

    /// Whether two columns have the same content.
    pub fn same(&self, other: &ColumnCatalog) -> (r: bool)
        ensures
            r == (self@ == other@),
    {
        let ids = match (self.id, other.id) {
            (Some(a), Some(b)) => a == b,
            (None, None) => true,
            _ => false,
        };
        let tables = match (&self.table_name, &other.table_name) {
            (Some(a), Some(b)) => *a == *b,
            (None, None) => true,
            _ => false,
        };
        ids && tables && self.name == other.name && self.nullable == other.nullable
            && self.desc.same(&other.desc)
    }
}

/// A copy of a list of columns.
pub fn clone_columns(v: &Vec<ColumnCatalog>) -> (r: Vec<ColumnCatalog>)
    ensures
        views(r@) == views(v@),
{
    let mut r: Vec<ColumnCatalog> = Vec::new();
    let mut i: usize = 0;
    while i < v.len()
        invariant
            i <= v@.len(),
            r@.len() == i,
            forall|j: int| 0 <= j < i ==> r@[j]@ == v@[j]@,
        decreases v@.len() - i,
    {
        r.push(v[i].clone());
        i += 1;
    }
    assert(views(r@) =~= views(v@));
    r
}

} // verus!
