//! Predicates on one indexed column, reduced to constants.
use crate::types::value::{DataValue, ValueView};
use vstd::prelude::*;

verus! {

/// One end of a range of values.
#[derive(Debug, PartialEq, Eq)]
pub enum Bound {
    Included(DataValue),
    Excluded(DataValue),
    Unbounded,
}

pub enum BoundView {
    Included(ValueView),
    Excluded(ValueView),
    Unbounded,
}

impl View for Bound {
    type V = BoundView;

    open spec fn view(&self) -> BoundView {
        match self {
            Bound::Included(v) => BoundView::Included(v@),
            Bound::Excluded(v) => BoundView::Excluded(v@),
            Bound::Unbounded => BoundView::Unbounded,
        }
    }
}

impl Clone for Bound {
    fn clone(&self) -> (r: Self)
        ensures
            r@ == self@,
    {
        match self {
            Bound::Included(v) => Bound::Included(v.clone()),
            Bound::Excluded(v) => Bound::Excluded(v.clone()),
            Bound::Unbounded => Bound::Unbounded,
        }
    }
}

/// A predicate on the key of an index: equality with a value, or a range.
#[derive(Debug, PartialEq, Eq)]
pub enum ConstantBinary {
    Eq(DataValue),
    Scope { min: Bound, max: Bound },
}

pub enum BinaryView {
    Eq(ValueView),
    Scope { min: BoundView, max: BoundView },
}

impl View for ConstantBinary {
    type V = BinaryView;

    open spec fn view(&self) -> BinaryView {
        match self {
            ConstantBinary::Eq(v) => BinaryView::Eq(v@),
            ConstantBinary::Scope { min, max } => BinaryView::Scope { min: min@, max: max@ },
        }
    }
}

impl Clone for ConstantBinary {
    fn clone(&self) -> (r: Self)
        ensures
            r@ == self@,
    {
        match self {
            ConstantBinary::Eq(v) => ConstantBinary::Eq(v.clone()),
            ConstantBinary::Scope { min, max } => ConstantBinary::Scope {
                min: min.clone(),
                max: max.clone(),
            },
        }
    }
}

} // verus!
