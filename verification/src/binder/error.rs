//! Why a statement is rejected.
use crate::catalog::table::{CatalogError, CatalogErrorView};
use crate::types::value::TypeError;
use vstd::prelude::*;
use vstd::string::StringExecFns;

verus! {

#[derive(Debug, PartialEq, Eq)]
pub enum BindError {
    UnsupportedStmt(String),
    InvalidTable(String),
    InvalidTableName(Vec<String>),
    InvalidColumn(String),
    AmbiguousColumn(String),
    BinaryOpTypeMismatch(String, String),
    Subquery(String),
    AggMiss(String),
    CatalogError(CatalogError),
    TypeError(TypeError),
    UnsupportedCopySource(String),
}

pub enum BindErrorView {
    UnsupportedStmt(Seq<char>),
    InvalidTable(Seq<char>),
    InvalidTableName(Seq<Seq<char>>),
    InvalidColumn(Seq<char>),
    AmbiguousColumn(Seq<char>),
    BinaryOpTypeMismatch(Seq<char>, Seq<char>),
    Subquery(Seq<char>),
    AggMiss(Seq<char>),
    CatalogError(CatalogErrorView),
    TypeError(TypeError),
    UnsupportedCopySource(Seq<char>),
}

/// The text of each part of a name.
pub open spec fn parts(s: Seq<String>) -> Seq<Seq<char>> {
    s.map_values(|x: String| x@)
}

impl View for BindError {
    type V = BindErrorView;

    open spec fn view(&self) -> BindErrorView {
        match self {
            BindError::UnsupportedStmt(s) => BindErrorView::UnsupportedStmt(s@),
            BindError::InvalidTable(s) => BindErrorView::InvalidTable(s@),
            BindError::InvalidTableName(v) => BindErrorView::InvalidTableName(parts(v@)),
            BindError::InvalidColumn(s) => BindErrorView::InvalidColumn(s@),
            BindError::AmbiguousColumn(s) => BindErrorView::AmbiguousColumn(s@),
            BindError::BinaryOpTypeMismatch(a, b) => BindErrorView::BinaryOpTypeMismatch(a@, b@),
            BindError::Subquery(s) => BindErrorView::Subquery(s@),
            BindError::AggMiss(s) => BindErrorView::AggMiss(s@),
            BindError::CatalogError(e) => BindErrorView::CatalogError(e@),
            BindError::TypeError(e) => BindErrorView::TypeError(*e),
            BindError::UnsupportedCopySource(s) => BindErrorView::UnsupportedCopySource(s@),
        }
    }
}

/// The parts of a name with a dot between them.
pub open spec fn dotted(ps: Seq<Seq<char>>) -> Seq<char>
    decreases ps.len(),
{
    if ps.len() == 0 {
        Seq::empty()
    } else if ps.len() == 1 {
        ps[0]
    } else {
        dotted(ps.drop_last()) + "."@ + ps.last()
    }
}

impl BindErrorView {
    /// What went wrong, in words that name the offending object.
    pub open spec fn text(self) -> Seq<char> {
        match self {
            BindErrorView::UnsupportedStmt(s) => "unsupported statement "@ + s,
            BindErrorView::InvalidTable(s) => "invalid table "@ + s,
            BindErrorView::InvalidTableName(ps) => "invalid table name: "@ + dotted(ps),
            BindErrorView::InvalidColumn(s) => "invalid column "@ + s,
            BindErrorView::AmbiguousColumn(s) => "ambiguous column "@ + s,
            BindErrorView::BinaryOpTypeMismatch(a, b) => "binary operator types mismatch: "@ + a
                + " != "@ + b,
            BindErrorView::Subquery(s) => "subquery error: "@ + s,
            BindErrorView::AggMiss(s) => "agg miss: "@ + s,
            BindErrorView::CatalogError(CatalogErrorView::ColumnsEmpty) =>
                "catalog error: a table must have a column"@,
            BindErrorView::CatalogError(CatalogErrorView::Duplicated(s)) => "catalog error: "@ + s
                + " duplicated"@,
            BindErrorView::TypeError(e) => "type error: "@ + e.text(),
            BindErrorView::UnsupportedCopySource(s) => "copy error: "@ + s,
        }
    }
}

/// The parts of a name with a dot between them.
pub fn join_parts(ps: &Vec<String>) -> (r: String)
    ensures
        r@ == dotted(parts(ps@)),
{
    let mut r = String::new();
    let mut i: usize = 0;
    let ghost all = parts(ps@);
    assert(all.take(0) =~= Seq::empty());
    while i < ps.len()
        invariant
            i <= ps@.len(),
            all == parts(ps@),
            r@ == dotted(all.take(i as int)),
        decreases ps@.len() - i,
    {
        assert(all.take(i + 1).drop_last() =~= all.take(i as int));
        assert(all.take(i + 1).last() == ps@[i as int]@);
        if i > 0 {
            r.append(".");
        } else {
            assert(r@ =~= Seq::empty());
            assert(Seq::<char>::empty() + ps@[0]@ =~= ps@[0]@);
        }
        r.append(ps[i].as_str());
        i += 1;
    }
    assert(all.take(i as int) =~= all);
    r
}

impl BindError {
    /// What went wrong, in words that name the offending object.
    pub fn message(&self) -> (r: String)
        ensures
            r@ == self@.text(),
    {
        match self {
            BindError::UnsupportedStmt(s) => String::from_str("unsupported statement ").concat(
                s.as_str(),
            ),
            BindError::InvalidTable(s) => String::from_str("invalid table ").concat(s.as_str()),
            BindError::InvalidTableName(ps) => String::from_str("invalid table name: ").concat(
                join_parts(ps).as_str(),
            ),
            BindError::InvalidColumn(s) => String::from_str("invalid column ").concat(s.as_str()),
            BindError::AmbiguousColumn(s) => String::from_str("ambiguous column ").concat(
                s.as_str(),
            ),
            BindError::BinaryOpTypeMismatch(a, b) => String::from_str(
                "binary operator types mismatch: ",
            ).concat(a.as_str()).concat(" != ").concat(b.as_str()),
            BindError::Subquery(s) => String::from_str("subquery error: ").concat(s.as_str()),
            BindError::AggMiss(s) => String::from_str("agg miss: ").concat(s.as_str()),
            BindError::CatalogError(CatalogError::ColumnsEmpty) => String::from_str(
                "catalog error: a table must have a column",
            ),
            BindError::CatalogError(CatalogError::Duplicated(s)) => String::from_str(
                "catalog error: ",
            ).concat(s.as_str()).concat(" duplicated"),
            BindError::TypeError(e) => String::from_str("type error: ").concat(
                e.message().as_str(),
            ),
            BindError::UnsupportedCopySource(s) => String::from_str("copy error: ").concat(
                s.as_str(),
            ),
        }
    }
}

/// `name` followed by the word that says it was given twice.
pub open spec fn duplicated(name: Seq<char>) -> Seq<char> {
    name + " duplicated"@
}

/// The text that says `name` was given twice.
pub fn duplicated_text(name: &String) -> (r: String)
    ensures
        r@ == duplicated(name@),
{
    let mut s = name.clone();
    s.append(" duplicated");
    s
}

} // verus!
