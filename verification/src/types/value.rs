//! Typed values and the logical types of columns.
use vstd::prelude::*;
use vstd::string::StringExecFns;

verus! {

/// The declared type of a column or of an expression.
#[derive(Clone, Copy, Debug, PartialEq, Eq, Structural)]
pub enum LogicalType {
    SqlNull,
    Boolean,
    Integer,
    Bigint,
    Varchar,
}

/// What went wrong between a value and the type asked of it.
#[derive(Clone, Copy, Debug, PartialEq, Eq, Structural)]
pub enum TypeError {
    /// The value cannot be turned into the type.
    CastFail,
    /// The value is absent where the column forbids it.
    NotNull,
    /// The expression refers to an input that the row does not have.
    OutOfRange,
    /// The expression is one that only an executor can evaluate.
    NotEvaluable,
}

impl TypeError {
    /// What went wrong, in words.
    pub open spec fn text(self) -> Seq<char> {
        match self {
            TypeError::CastFail => "cast fail"@,
            TypeError::NotNull => "not null"@,
            TypeError::OutOfRange => "input out of range"@,
            TypeError::NotEvaluable => "expression cannot be evaluated here"@,
        }
    }

    pub fn message(&self) -> (r: String)
        ensures
            r@ == self.text(),
    {
        String::from_str(
            match self {
                TypeError::CastFail => "cast fail",
                TypeError::NotNull => "not null",
                TypeError::OutOfRange => "input out of range",
                TypeError::NotEvaluable => "expression cannot be evaluated here",
            },
        )
    }
}

/// A value of one of the logical types; `None` inside a typed variant is the
/// null of that type.
#[derive(Debug, PartialEq, Eq)]
pub enum DataValue {
    Null,
    Boolean(Option<bool>),
    Int32(Option<i32>),
    Int64(Option<i64>),
    Utf8(Option<String>),
}

/// The primary key value of a row, by which index entries find it again.
pub type TupleId = DataValue;

/// The mathematical content of a `DataValue`.
pub enum ValueView {
    Null,
    Boolean(Option<bool>),
    Int32(Option<i32>),
    Int64(Option<i64>),
    Utf8(Option<Seq<char>>),
}

impl ValueView {
    pub open spec fn logical_type(self) -> LogicalType {
        match self {
            ValueView::Null => LogicalType::SqlNull,
            ValueView::Boolean(_) => LogicalType::Boolean,
            ValueView::Int32(_) => LogicalType::Integer,
            ValueView::Int64(_) => LogicalType::Bigint,
            ValueView::Utf8(_) => LogicalType::Varchar,
        }
    }

    pub open spec fn is_null(self) -> bool {
        match self {
            ValueView::Null => true,
            ValueView::Boolean(v) => v is None,
            ValueView::Int32(v) => v is None,
            ValueView::Int64(v) => v is None,
            ValueView::Utf8(v) => v is None,
        }
    }

    /// The value as a value of type `ty`, where that loses nothing: a null
    /// becomes the null of `ty`, an integer changes width if it fits.
    pub open spec fn cast(self, ty: LogicalType) -> Result<ValueView, TypeError> {
        if self.is_null() {
            Ok(null_of(ty))
        } else if self.logical_type() == ty {
            Ok(self)
        } else {
            match (self, ty) {
                (ValueView::Int32(Some(x)), LogicalType::Bigint) => Ok(
                    ValueView::Int64(Some(x as i64)),
                ),
                (ValueView::Int64(Some(x)), LogicalType::Integer) => if i32::MIN <= x <= i32::MAX {
                    Ok(ValueView::Int32(Some(x as i32)))
                } else {
                    Err(TypeError::CastFail)
                },
                _ => Err(TypeError::CastFail),
            }
        }
    }
}

/// The null of a type.
pub open spec fn null_of(ty: LogicalType) -> ValueView {
    match ty {
        LogicalType::SqlNull => ValueView::Null,
        LogicalType::Boolean => ValueView::Boolean(None),
        LogicalType::Integer => ValueView::Int32(None),
        LogicalType::Bigint => ValueView::Int64(None),
        LogicalType::Varchar => ValueView::Utf8(None),
    }
}

impl View for DataValue {
    type V = ValueView;

    open spec fn view(&self) -> ValueView {
        match self {
            DataValue::Null => ValueView::Null,
            DataValue::Boolean(v) => ValueView::Boolean(*v),
            DataValue::Int32(v) => ValueView::Int32(*v),
            DataValue::Int64(v) => ValueView::Int64(*v),
            DataValue::Utf8(v) => ValueView::Utf8(
                match v {
                    Some(s) => Some(s@),
                    None => None,
                },
            ),
        }
    }
}

/// The views of the items of a sequence, in order.
pub open spec fn views<T: View>(s: Seq<T>) -> Seq<T::V> {
    s.map_values(|x: T| x@)
}

impl Clone for DataValue {
    fn clone(&self) -> (r: Self)
        ensures
            r@ == self@,
    {
        match self {
            DataValue::Null => DataValue::Null,
            DataValue::Boolean(v) => DataValue::Boolean(*v),
            DataValue::Int32(v) => DataValue::Int32(*v),
            DataValue::Int64(v) => DataValue::Int64(*v),
            DataValue::Utf8(v) => DataValue::Utf8(
                match v {
                    Some(s) => Some(s.clone()),
                    None => None,
                },
            ),
        }
    }
}

impl DataValue {
    /// The null of `ty`.
    pub fn none(ty: LogicalType) -> (r: DataValue)
        ensures
            r@ == null_of(ty),
    {
        match ty {
            LogicalType::SqlNull => DataValue::Null,
            LogicalType::Boolean => DataValue::Boolean(None),
            LogicalType::Integer => DataValue::Int32(None),
            LogicalType::Bigint => DataValue::Int64(None),
            LogicalType::Varchar => DataValue::Utf8(None),
        }
    }

    pub fn logical_type(&self) -> (r: LogicalType)
        ensures
            r == self@.logical_type(),
    {
        match self {
            DataValue::Null => LogicalType::SqlNull,
            DataValue::Boolean(_) => LogicalType::Boolean,
            DataValue::Int32(_) => LogicalType::Integer,
            DataValue::Int64(_) => LogicalType::Bigint,
            DataValue::Utf8(_) => LogicalType::Varchar,
        }
    }

    pub fn is_null(&self) -> (r: bool)
        ensures
            r == self@.is_null(),
    {
        match self {
            DataValue::Null => true,
            DataValue::Boolean(v) => v.is_none(),
            DataValue::Int32(v) => v.is_none(),
            DataValue::Int64(v) => v.is_none(),
            DataValue::Utf8(v) => v.is_none(),
        }
    }

    /// Whether two values have the same content.
    pub fn same(&self, other: &DataValue) -> (r: bool)
        ensures
            r == (self@ == other@),
    {
        match (self, other) {
            (DataValue::Null, DataValue::Null) => true,
            (DataValue::Boolean(a), DataValue::Boolean(b)) => match (a, b) {
                (Some(x), Some(y)) => *x == *y,
                (None, None) => true,
                _ => false,
            },
            (DataValue::Int32(a), DataValue::Int32(b)) => match (a, b) {
                (Some(x), Some(y)) => *x == *y,
                (None, None) => true,
                _ => false,
            },
            (DataValue::Int64(a), DataValue::Int64(b)) => match (a, b) {
                (Some(x), Some(y)) => *x == *y,
                (None, None) => true,
                _ => false,
            },
            (DataValue::Utf8(a), DataValue::Utf8(b)) => match (a, b) {
                (Some(x), Some(y)) => *x == *y,
                (None, None) => true,
                _ => false,
            },
            _ => false,
        }
    }

    /// Turns the value into one of type `ty`, or says why it cannot be.
    pub fn cast(&self, ty: LogicalType) -> (r: Result<DataValue, TypeError>)
        ensures
            r is Ok <==> self@.cast(ty) is Ok,
            r matches Ok(v) ==> self@.cast(ty) == Ok::<ValueView, TypeError>(v@),
            r matches Err(e) ==> self@.cast(ty) == Err::<ValueView, TypeError>(e),
    {
        if self.is_null() {
            return Ok(DataValue::none(ty));
        }
        if self.logical_type() == ty {
            return Ok(self.clone());
        }
        match (self, ty) {
            (DataValue::Int32(Some(x)), LogicalType::Bigint) => Ok(
                DataValue::Int64(Some(*x as i64)),
            ),
            (DataValue::Int64(Some(x)), LogicalType::Integer) => {
                if -2147483648 <= *x && *x <= 2147483647 {
                    Ok(DataValue::Int32(Some(*x as i32)))
                } else {
                    Err(TypeError::CastFail)
                }
            },
            _ => Err(TypeError::CastFail),
        }
    }
}

/// A copy of a list of values.
pub fn clone_values(v: &Vec<DataValue>) -> (r: Vec<DataValue>)
    ensures
        views(r@) == views(v@),
{
    let mut r: Vec<DataValue> = Vec::new();
    let mut i: usize = 0;
    while i < v.len()
        invariant
            i <= v@.len(),
            r@.len() == i,
            forall|j: int| 0 <= j < i ==> r@[j]@ == v@[j]@,
        decreases v@.len() - i,
    {
        r.push(v[i].clone());
        i += 1;
    }
    assert(views(r@) =~= views(v@));
    r
}

} // verus!
