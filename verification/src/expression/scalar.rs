//! Expressions over the columns of a row.
use crate::catalog::column::{ColumnCatalog, ColumnDesc, ColumnDescView, ColumnView};
use crate::catalog::table::{lemma_position, position};
use crate::types::tuple::{Tuple, TupleView};
use crate::types::value::{views, DataValue, LogicalType, TypeError, ValueView};
use vstd::prelude::*;
use vstd::string::StringExecFns;

verus! {

#[derive(Clone, Copy, Debug, PartialEq, Eq, Structural)]
pub enum BinaryOperator {
    Plus,
    Minus,
    Multiply,
    Divide,
    Gt,
    Lt,
    GtEq,
    LtEq,
    Eq,
    NotEq,
    And,
    Or,
}

impl BinaryOperator {
    /// Whether the operator compares or combines truth values, so that its
    /// result is a truth value.
    pub open spec fn is_logical(self) -> bool {
        !(self is Plus || self is Minus || self is Multiply || self is Divide)
    }

    pub fn yields_boolean(&self) -> (r: bool)
        ensures
            r == self.is_logical(),
    {
        match self {
            BinaryOperator::Plus
            | BinaryOperator::Minus
            | BinaryOperator::Multiply
            | BinaryOperator::Divide => false,
            _ => true,
        }
    }
}

#[derive(Clone, Copy, Debug, PartialEq, Eq, Structural)]
pub enum AggKind {
    Avg,
    Max,
    Min,
    Sum,
    Count,
}

/// An expression whose names have been resolved.
#[derive(Debug, PartialEq, Eq)]
pub enum ScalarExpression {
    Constant(DataValue),
    ColumnRef(ColumnCatalog),
    /// The `index`-th value of the row that comes in.
    InputRef { index: usize, ty: LogicalType },
    Alias { expr: Box<ScalarExpression>, alias: String },
    Binary {
        op: BinaryOperator,
        left_expr: Box<ScalarExpression>,
        right_expr: Box<ScalarExpression>,
        ty: LogicalType,
    },
    AggCall { distinct: bool, kind: AggKind, arg: Box<ScalarExpression>, ty: LogicalType },
}

pub enum ExprView {
    Constant(ValueView),
    ColumnRef(ColumnView),
    InputRef { index: usize, ty: LogicalType },
    Alias { expr: Box<ExprView>, alias: Seq<char> },
    Binary {
        op: BinaryOperator,
        left_expr: Box<ExprView>,
        right_expr: Box<ExprView>,
        ty: LogicalType,
    },
    AggCall { distinct: bool, kind: AggKind, arg: Box<ExprView>, ty: LogicalType },
}

impl ExprView {
    /// The type of the expression's values.
    pub open spec fn return_type(self) -> LogicalType
        decreases self,
    {
        match self {
            ExprView::Constant(v) => v.logical_type(),
            ExprView::ColumnRef(c) => c.desc.column_datatype,
            ExprView::InputRef { ty, .. } => ty,
            ExprView::Alias { expr, .. } => expr.return_type(),
            ExprView::Binary { ty, .. } => ty,
            ExprView::AggCall { ty, .. } => ty,
        }
    }

    /// Whether an aggregate occurs in the expression.
    pub open spec fn has_agg(self) -> bool
        decreases self,
    {
        match self {
            ExprView::AggCall { .. } => true,
            ExprView::Alias { expr, .. } => expr.has_agg(),
            ExprView::Binary { left_expr, right_expr, .. } => left_expr.has_agg()
                || right_expr.has_agg(),
            _ => false,
        }
    }

    /// The expression's value on a row. A column that the row lacks gives
    /// the null value; an input beyond the row's values is an error, and so
    /// is an operation or an aggregate, which the storage layer leaves to
    /// the executor.
    pub open spec fn eval(self, t: TupleView) -> Result<ValueView, TypeError>
        decreases self,
    {
        match self {
            ExprView::Constant(v) => Ok(v),
            ExprView::ColumnRef(c) => match position(t.columns, c.name) {
                Some(i) => if i < t.values.len() {
                    Ok(t.values[i])
                } else {
                    Ok(ValueView::Null)
                },
                None => Ok(ValueView::Null),
            },
            ExprView::InputRef { index, .. } => if index < t.values.len() {
                Ok(t.values[index as int])
            } else {
                Err(TypeError::OutOfRange)
            },
            ExprView::Alias { expr, .. } => expr.eval(t),
            _ => Err(TypeError::NotEvaluable),
        }
    }

    /// The column under which the expression's values appear in a result:
    /// the column itself for a reference, a column of the given name for an
    /// alias, and an unnamed column of the expression's type otherwise.
    pub open spec fn output_column(self) -> ColumnView {
        match self {
            ExprView::ColumnRef(c) => c,
            ExprView::Alias { expr, alias } => derived_column(alias, expr.return_type()),
            _ => derived_column("?column?"@, self.return_type()),
        }
    }
}

/// A column that belongs to no table: nullable, of the given name and type.
pub open spec fn derived_column(name: Seq<char>, ty: LogicalType) -> ColumnView {
    ColumnView {
        id: None,
        name,
        table_name: None,
        nullable: true,
        desc: ColumnDescView {
            column_datatype: ty,
            is_primary: false,
            is_unique: false,
            default: None,
        },
    }
}

impl ScalarExpression {
    /// The mathematical content of the expression.
    pub open spec fn model(&self) -> ExprView
        decreases self,
    {
        match self {
            ScalarExpression::Constant(v) => ExprView::Constant(v@),
            ScalarExpression::ColumnRef(c) => ExprView::ColumnRef(c@),
            ScalarExpression::InputRef { index, ty } => ExprView::InputRef {
                index: *index,
                ty: *ty,
            },
            ScalarExpression::Alias { expr, alias } => ExprView::Alias {
                expr: Box::new((**expr).model()),
                alias: alias@,
            },
            ScalarExpression::Binary { op, left_expr, right_expr, ty } => ExprView::Binary {
                op: *op,
                left_expr: Box::new((**left_expr).model()),
                right_expr: Box::new((**right_expr).model()),
                ty: *ty,
            },
            ScalarExpression::AggCall { distinct, kind, arg, ty } => ExprView::AggCall {
                distinct: *distinct,
                kind: *kind,
                arg: Box::new((**arg).model()),
                ty: *ty,
            },
        }
    }
}

impl View for ScalarExpression {
    type V = ExprView;

    open spec fn view(&self) -> ExprView {
        self.model()
    }
}

impl Clone for ScalarExpression {
    fn clone(&self) -> (r: Self)
        ensures
            r@ == self@,
        decreases self,
    {
        match self {
            ScalarExpression::Constant(v) => ScalarExpression::Constant(v.clone()),
            ScalarExpression::ColumnRef(c) => ScalarExpression::ColumnRef(c.clone()),
            ScalarExpression::InputRef { index, ty } => ScalarExpression::InputRef {
                index: *index,
                ty: *ty,
            },
            ScalarExpression::Alias { expr, alias } => ScalarExpression::Alias {
                expr: Box::new((&**expr).clone()),
                alias: alias.clone(),
            },
            ScalarExpression::Binary { op, left_expr, right_expr, ty } => ScalarExpression::Binary {
                op: *op,
                left_expr: Box::new((&**left_expr).clone()),
                right_expr: Box::new((&**right_expr).clone()),
                ty: *ty,
            },
            ScalarExpression::AggCall { distinct, kind, arg, ty } => ScalarExpression::AggCall {
                distinct: *distinct,
                kind: *kind,
                arg: Box::new((&**arg).clone()),
                ty: *ty,
            },
        }
    }
}

impl ScalarExpression {
    /// Whether two expressions have the same content.
    pub fn same(&self, other: &ScalarExpression) -> (r: bool)
        ensures
            r == (self@ == other@),
        decreases self,
    {
        match (self, other) {
            (ScalarExpression::Constant(a), ScalarExpression::Constant(b)) => a.same(b),
            (ScalarExpression::ColumnRef(a), ScalarExpression::ColumnRef(b)) => a.same(b),
            (
                ScalarExpression::InputRef { index: i, ty: t },
                ScalarExpression::InputRef { index: j, ty: u },
            ) => *i == *j && *t == *u,
            (
                ScalarExpression::Alias { expr: e, alias: a },
                ScalarExpression::Alias { expr: f, alias: b },
            ) => *a == *b && (&**e).same(&**f),
            (
                ScalarExpression::Binary { op: o, left_expr: l, right_expr: r, ty: t },
                ScalarExpression::Binary { op: p, left_expr: m, right_expr: s, ty: u },
            ) => *o == *p && *t == *u && (&**l).same(&**m) && (&**r).same(&**s),
            (
                ScalarExpression::AggCall { distinct: d, kind: k, arg: a, ty: t },
                ScalarExpression::AggCall { distinct: e, kind: l, arg: b, ty: u },
            ) => *d == *e && *k == *l && *t == *u && (&**a).same(&**b),
            _ => false,
        }
    }

    pub fn return_type(&self) -> (r: LogicalType)
        ensures
            r == self@.return_type(),
        decreases self,
    {
        match self {
            ScalarExpression::Constant(v) => v.logical_type(),
            ScalarExpression::ColumnRef(c) => c.desc.column_datatype,
            ScalarExpression::InputRef { ty, .. } => *ty,
            ScalarExpression::Alias { expr, .. } => (&**expr).return_type(),
            ScalarExpression::Binary { ty, .. } => *ty,
            ScalarExpression::AggCall { ty, .. } => *ty,
        }
    }

    pub fn has_agg_call(&self) -> (r: bool)
        ensures
            r == self@.has_agg(),
        decreases self,
    {
        match self {
            ScalarExpression::AggCall { .. } => true,
            ScalarExpression::Alias { expr, .. } => (&**expr).has_agg_call(),
            ScalarExpression::Binary { left_expr, right_expr, .. } => (&**left_expr).has_agg_call()
                || (&**right_expr).has_agg_call(),
            _ => false,
        }
    }

    /// The expression's value on a row.
    pub fn eval_column(&self, tuple: &Tuple) -> (r: Result<DataValue, TypeError>)
        ensures
            match r {
                Ok(v) => self@.eval(tuple@) == Ok::<ValueView, TypeError>(v@),
                Err(e) => self@.eval(tuple@) == Err::<ValueView, TypeError>(e),
            },
        decreases self,
    {
        match self {
            ScalarExpression::Constant(v) => Ok(v.clone()),
            ScalarExpression::ColumnRef(c) => {
                let mut i: usize = 0;
                while i < tuple.columns.len()
                    invariant
                        i <= tuple.columns@.len(),
                        self@ == ExprView::ColumnRef(c@),
                        forall|j: int| 0 <= j < i ==> tuple@.columns[j].name != c@.name,
                    decreases tuple.columns@.len() - i,
                {
                    if tuple.columns[i].name == c.name {
                        proof {
                            lemma_position(tuple@.columns, c@.name);
                            assert(tuple@.columns[i as int].name == c@.name);
                        }
                        if i < tuple.values.len() {
                            return Ok(tuple.values[i].clone());
                        } else {
                            return Ok(DataValue::Null);
                        }
                    }
                    i += 1;
                }
                proof {
                    lemma_position(tuple@.columns, c@.name);
                }
                Ok(DataValue::Null)
            },
            ScalarExpression::InputRef { index, .. } => {
                if *index < tuple.values.len() {
                    Ok(tuple.values[*index].clone())
                } else {
                    Err(TypeError::OutOfRange)
                }
            },
            ScalarExpression::Alias { expr, .. } => (&**expr).eval_column(tuple),
            _ => Err(TypeError::NotEvaluable),
        }
    }

    /// The column under which the expression's values appear in a result.
    pub fn output_column(&self) -> (r: ColumnCatalog)
        ensures
            r@ == self@.output_column(),
    {
        match self {
            ScalarExpression::ColumnRef(c) => c.clone(),
            ScalarExpression::Alias { expr, alias } => ColumnCatalog::new(
                alias.clone(),
                true,
                ColumnDesc::new((&**expr).return_type(), false, false, None),
            ),
            _ => ColumnCatalog::new(
                String::from_str("?column?"),
                true,
                ColumnDesc::new(self.return_type(), false, false, None),
            ),
        }
    }
}

/// A copy of a list of expressions.
pub fn clone_exprs(v: &Vec<ScalarExpression>) -> (r: Vec<ScalarExpression>)
    ensures
        views(r@) == views(v@),
{
    let mut r: Vec<ScalarExpression> = Vec::new();
    let mut i: usize = 0;
    while i < v.len()
        invariant
            i <= v@.len(),
            r@.len() == i,
            forall|j: int| 0 <= j < i ==> r@[j]@ == v@[j]@,
        decreases v@.len() - i,
    {
        r.push(v[i].clone());
        i += 1;
    }
    assert(views(r@) =~= views(v@));
    r
}

} // verus!
