//! Binding of expressions: names become columns, literals become values,
//! and the types of operands are held against each other.
use crate::binder::context::{
    alias_index, lemma_lookup_views, lookup, lookup_table, BinderContext, BoundTableView,
    ContextView,
};
use crate::binder::error::{BindError, BindErrorView};
use crate::binder::name::{lowercase, to_lowercase};
use crate::catalog::column::{ColumnCatalog, ColumnView};
use crate::catalog::table::position;
use crate::expression::scalar::{AggKind, BinaryOperator, ExprView, ScalarExpression};
use crate::parser::ast::{Expr, Value};
use crate::storage::transaction::Transaction;
use crate::types::value::{DataValue, LogicalType, ValueView};
use vstd::prelude::*;
use vstd::string::StringExecFns;

verus! {

/// The value that a literal stands for. A number is a 32-bit integer
/// where it fits, a 64-bit integer otherwise.
pub open spec fn value_of(v: Value) -> ValueView {
    match v {
        Value::Number(n) => if i32::MIN <= n <= i32::MAX {
            ValueView::Int32(Some(n as i32))
        } else {
            ValueView::Int64(Some(n))
        },
        Value::Text(s) => ValueView::Utf8(Some(s@)),
        Value::Boolean(b) => ValueView::Boolean(Some(b)),
        Value::Null => ValueView::Null,
    }
}

/// The value that a literal stands for.
pub fn literal(v: &Value) -> (r: DataValue)
    ensures
        r@ == value_of(*v),
{
    match v {
        Value::Number(n) => if -2147483648 <= *n && *n <= 2147483647 {
            DataValue::Int32(Some(*n as i32))
        } else {
            DataValue::Int64(Some(*n))
        },
        Value::Text(s) => DataValue::Utf8(Some(s.clone())),
        Value::Boolean(b) => DataValue::Boolean(Some(*b)),
        Value::Null => DataValue::Null,
    }
}

/// The name of a type, as messages give it.
pub open spec fn name_of_type(t: LogicalType) -> Seq<char> {
    match t {
        LogicalType::SqlNull => "Null"@,
        LogicalType::Boolean => "Boolean"@,
        LogicalType::Integer => "Integer"@,
        LogicalType::Bigint => "Bigint"@,
        LogicalType::Varchar => "Varchar"@,
    }
}

pub fn type_text(t: LogicalType) -> (r: String)
    ensures
        r@ == name_of_type(t),
{
    String::from_str(
        match t {
            LogicalType::SqlNull => "Null",
            LogicalType::Boolean => "Boolean",
            LogicalType::Integer => "Integer",
            LogicalType::Bigint => "Bigint",
            LogicalType::Varchar => "Varchar",
        },
    )
}

pub open spec fn is_numeric(t: LogicalType) -> bool {
    t is Integer || t is Bigint
}

/// The type in which operands of types `a` and `b` meet: their common
/// type, the other's type for a null, the wider for two integers; none
/// where they do not go together.
pub open spec fn common_type(a: LogicalType, b: LogicalType) -> Option<LogicalType> {
    if a == b {
        Some(a)
    } else if a is SqlNull {
        Some(b)
    } else if b is SqlNull {
        Some(a)
    } else if is_numeric(a) && is_numeric(b) {
        Some(LogicalType::Bigint)
    } else {
        None
    }
}

pub fn meet(a: LogicalType, b: LogicalType) -> (r: Option<LogicalType>)
    ensures
        r == common_type(a, b),
{
    if a == b {
        Some(a)
    } else if a == LogicalType::SqlNull {
        Some(b)
    } else if b == LogicalType::SqlNull {
        Some(a)
    } else if (a == LogicalType::Integer || a == LogicalType::Bigint) && (b == LogicalType::Integer
        || b == LogicalType::Bigint) {
        Some(LogicalType::Bigint)
    } else {
        None
    }
}

/// The type of `l op r`: a truth value for comparisons and connectives,
/// the operands' common type for arithmetic; none where the operands do
/// not fit the operator.
pub open spec fn binary_type(op: BinaryOperator, l: LogicalType, r: LogicalType) -> Option<
    LogicalType,
> {
    match common_type(l, r) {
        None => None,
        Some(t) => if op is And || op is Or {
            if t is Boolean || t is SqlNull {
                Some(LogicalType::Boolean)
            } else {
                None
            }
        } else if op.is_logical() {
            Some(LogicalType::Boolean)
        } else if is_numeric(t) || t is SqlNull {
            Some(t)
        } else {
            None
        },
    }
}

/// The operation on two bound operands.
pub open spec fn bound_binary(op: BinaryOperator, l: ExprView, r: ExprView) -> Result<
    ExprView,
    BindErrorView,
> {
    match binary_type(op, l.return_type(), r.return_type()) {
        Some(ty) => Ok(
            ExprView::Binary { op, left_expr: Box::new(l), right_expr: Box::new(r), ty },
        ),
        None => Err(
            BindErrorView::BinaryOpTypeMismatch(
                name_of_type(l.return_type()),
                name_of_type(r.return_type()),
            ),
        ),
    }
}

pub fn bind_binary(op: BinaryOperator, l: ScalarExpression, r: ScalarExpression) -> (res: Result<
    ScalarExpression,
    BindError,
>)
    ensures
        match bound_binary(op, l@, r@) {
            Ok(e) => res matches Ok(x) && x@ == e,
            Err(e) => res matches Err(x) && x@ == e,
        },
{
    let lt = l.return_type();
    let rt = r.return_type();
    let ty = match meet(lt, rt) {
        None => None,
        Some(t) => {
            if op == BinaryOperator::And || op == BinaryOperator::Or {
                if t == LogicalType::Boolean || t == LogicalType::SqlNull {
                    Some(LogicalType::Boolean)
                } else {
                    None
                }
            } else if op.yields_boolean() {
                Some(LogicalType::Boolean)
            } else if t == LogicalType::Integer || t == LogicalType::Bigint || t
                == LogicalType::SqlNull {
                Some(t)
            } else {
                None
            }
        },
    };
    match ty {
        Some(ty) => Ok(
            ScalarExpression::Binary { op, left_expr: Box::new(l), right_expr: Box::new(r), ty },
        ),
        None => Err(BindError::BinaryOpTypeMismatch(type_text(lt), type_text(rt))),
    }
}

/// The aggregate that a function name stands for.
pub open spec fn agg_kind(name: Seq<char>) -> Option<AggKind> {
    if name == "count"@ {
        Some(AggKind::Count)
    } else if name == "sum"@ {
        Some(AggKind::Sum)
    } else if name == "min"@ {
        Some(AggKind::Min)
    } else if name == "max"@ {
        Some(AggKind::Max)
    } else if name == "avg"@ {
        Some(AggKind::Avg)
    } else {
        None
    }
}

/// Whether a text is the given word.
pub fn is_word(s: &String, word: &str) -> (r: bool)
    ensures
        r == (s@ == word@),
{
    let w = String::from_str(word);
    *s == w
}

pub fn kind_of(name: &String) -> (r: Option<AggKind>)
    ensures
        r == agg_kind(name@),
{
    if is_word(name, "count") {
        Some(AggKind::Count)
    } else if is_word(name, "sum") {
        Some(AggKind::Sum)
    } else if is_word(name, "min") {
        Some(AggKind::Min)
    } else if is_word(name, "max") {
        Some(AggKind::Max)
    } else if is_word(name, "avg") {
        Some(AggKind::Avg)
    } else {
        None
    }
}

/// The aggregate of a bound argument: a count is an integer, any other
/// aggregate has its argument's type.
pub open spec fn bound_agg(kind: AggKind, distinct: bool, arg: ExprView) -> ExprView {
    ExprView::AggCall {
        distinct,
        kind,
        arg: Box::new(arg),
        ty: if kind is Count {
            LogicalType::Integer
        } else {
            arg.return_type()
        },
    }
}

/// What stands for the star in `count(*)`.
pub open spec fn star() -> ExprView {
    ExprView::Constant(ValueView::Utf8(Some("*"@)))
}

/// The columns of that name in the bound tables, one from each table that
/// has one, in the order in which the tables were bound.
pub open spec fn columns_named(tables: Seq<BoundTableView>, name: Seq<char>) -> Seq<ColumnView>
    decreases tables.len(),
{
    if tables.len() == 0 {
        Seq::empty()
    } else {
        let before = columns_named(tables.drop_last(), name);
        match position(tables.last().catalog.columns, name) {
            Some(i) => before.push(tables.last().catalog.columns[i]),
            None => before,
        }
    }
}

impl ContextView {
    /// What a bare name stands for: the expression it is an alias of; else
    /// the column of that name in the one bound table that has one. A name
    /// that no table has is unknown; one that several have is ambiguous.
    pub open spec fn bound_ident(self, name: Seq<char>) -> Result<ExprView, BindErrorView> {
        match lookup(self.aliases, name) {
            Some(i) => Ok(self.aliases[i].1),
            None => {
                let found = columns_named(self.bind_table, name);
                if found.len() == 0 {
                    Err(BindErrorView::InvalidColumn(name))
                } else if found.len() > 1 {
                    Err(BindErrorView::AmbiguousColumn(name))
                } else {
                    Ok(ExprView::ColumnRef(found[0]))
                }
            },
        }
    }

    /// What `table.column` stands for: the column of that name in the
    /// bound table that the statement knows as `table`.
    pub open spec fn bound_qualified(self, table: Seq<char>, column: Seq<char>) -> Result<
        ExprView,
        BindErrorView,
    > {
        match lookup_table(self.bind_table, self.real_name(table)) {
            None => Err(BindErrorView::InvalidTable(table)),
            Some(i) => match position(self.bind_table[i].catalog.columns, column) {
                None => Err(BindErrorView::InvalidColumn(column)),
                Some(j) => Ok(ExprView::ColumnRef(self.bind_table[i].catalog.columns[j])),
            },
        }
    }

    /// What an expression of a statement stands for. Names are taken in
    /// lower case.
    pub open spec fn bound_expr(self, e: Expr) -> Result<ExprView, BindErrorView>
        decreases e,
    {
        match e {
            Expr::Identifier(n) => self.bound_ident(lowercase(n@)),
            Expr::CompoundIdentifier(ps) => if ps@.len() == 1 {
                self.bound_ident(lowercase(ps@[0]@))
            } else if ps@.len() == 2 {
                self.bound_qualified(lowercase(ps@[0]@), lowercase(ps@[1]@))
            } else if ps@.len() == 0 {
                Err(BindErrorView::InvalidColumn(Seq::empty()))
            } else {
                Err(BindErrorView::InvalidColumn(lowercase(ps@[ps@.len() - 1]@)))
            },
            Expr::Value(v) => Ok(ExprView::Constant(value_of(v))),
            Expr::BinaryOp { left, op, right } => match self.bound_expr(*left) {
                Err(e) => Err(e),
                Ok(l) => match self.bound_expr(*right) {
                    Err(e) => Err(e),
                    Ok(r) => bound_binary(op, l, r),
                },
            },
            Expr::Function { name, arg, distinct } => match agg_kind(lowercase(name@)) {
                None => Err(BindErrorView::UnsupportedStmt(name@)),
                Some(kind) => match arg {
                    None => if kind is Count {
                        Ok(bound_agg(kind, distinct, star()))
                    } else {
                        Err(BindErrorView::UnsupportedStmt(name@))
                    },
                    Some(a) => match self.bound_expr(*a) {
                        Err(e) => Err(e),
                        Ok(x) => Ok(bound_agg(kind, distinct, x)),
                    },
                },
            },
            Expr::Nested(inner) => self.bound_expr(*inner),
        }
    }

}

impl<'a, T: Transaction> BinderContext<'a, T> {
    /// Binds a bare name, already in lower case.
    pub fn bind_ident(&self, name: &String) -> (r: Result<ScalarExpression, BindError>)
        ensures
            match self@.bound_ident(name@) {
                Ok(e) => r matches Ok(x) && x@ == e,
                Err(e) => r matches Err(x) && x@ == e,
            },
    {
        proof {
            lemma_lookup_views(self.aliases@, self@.aliases, name@);
        }
        match alias_index(&self.aliases, name) {
            Some(i) => Ok(self.aliases[i].1.clone()),
            None => {
                let mut found: Option<ColumnCatalog> = None;
                let mut count: usize = 0;
                let mut i: usize = 0;
                let ghost tables = self@.bind_table;
                assert(tables.take(0) =~= Seq::empty());
                while i < self.bind_table.len()
                    invariant
                        i <= self.bind_table@.len(),
                        tables == self@.bind_table,
                        count <= i,
                        count == columns_named(tables.take(i as int), name@).len(),
                        count == 0 ==> found is None,
                        count > 0 ==> (found matches Some(c) && c@ == columns_named(
                            tables.take(i as int),
                            name@,
                        )[0]),
                    decreases self.bind_table@.len() - i,
                {
                    assert(tables.take(i + 1).drop_last() =~= tables.take(i as int));
                    assert(tables.take(i + 1).last() == self.bind_table@[i as int]@);
                    match self.bind_table[i].catalog.get_column_by_name(name) {
                        Some(c) => {
                            if count == 0 {
                                found = Some(c.clone());
                            }
                            count += 1;
                        },
                        None => {},
                    }
                    i += 1;
                }
                assert(tables.take(i as int) =~= tables);
                if count > 1 {
                    return Err(BindError::AmbiguousColumn(name.clone()));
                }
                match found {
                    Some(c) => Ok(ScalarExpression::ColumnRef(c)),
                    None => Err(BindError::InvalidColumn(name.clone())),
                }
            },
        }
    }

    /// Binds `table.column`, both already in lower case.
    pub fn bind_qualified(&self, table: &String, column: &String) -> (r: Result<
        ScalarExpression,
        BindError,
    >)
        ensures
            match self@.bound_qualified(table@, column@) {
                Ok(e) => r matches Ok(x) && x@ == e,
                Err(e) => r matches Err(x) && x@ == e,
            },
    {
        let actual = self.resolve_table_name(table.clone());
        match self.bound_index(&actual) {
            None => Err(BindError::InvalidTable(table.clone())),
            Some(i) => match self.bind_table[i].catalog.get_column_by_name(column) {
                None => Err(BindError::InvalidColumn(column.clone())),
                Some(c) => Ok(ScalarExpression::ColumnRef(c.clone())),
            },
        }
    }

    /// Binds an expression of a statement.
    pub fn bind_expr(&self, e: &Expr) -> (r: Result<ScalarExpression, BindError>)
        ensures
            match self@.bound_expr(*e) {
                Ok(x) => r matches Ok(y) && y@ == x,
                Err(x) => r matches Err(y) && y@ == x,
            },
        decreases e,
    {
        match e {
            Expr::Identifier(n) => self.bind_ident(&to_lowercase(n.as_str())),
            Expr::CompoundIdentifier(ps) => {
                if ps.len() == 1 {
                    self.bind_ident(&to_lowercase(ps[0].as_str()))
                } else if ps.len() == 2 {
                    self.bind_qualified(
                        &to_lowercase(ps[0].as_str()),
                        &to_lowercase(ps[1].as_str()),
                    )
                } else if ps.len() == 0 {
                    Err(BindError::InvalidColumn(String::new()))
                } else {
                    Err(BindError::InvalidColumn(to_lowercase(ps[ps.len() - 1].as_str())))
                }
            },
            Expr::Value(v) => Ok(ScalarExpression::Constant(literal(v))),
            Expr::BinaryOp { left, op, right } => {
                let l = match self.bind_expr(&**left) {
                    Ok(x) => x,
                    Err(e) => {
                        return Err(e);
                    },
                };
                let r = match self.bind_expr(&**right) {
                    Ok(x) => x,
                    Err(e) => {
                        return Err(e);
                    },
                };
                bind_binary(*op, l, r)
            },
            Expr::Function { name, arg, distinct } => {
                let kind = match kind_of(&to_lowercase(name.as_str())) {
                    Some(k) => k,
                    None => {
                        return Err(BindError::UnsupportedStmt(name.clone()));
                    },
                };
                let bound = match arg {
                    None => {
                        if kind != AggKind::Count {
                            return Err(BindError::UnsupportedStmt(name.clone()));
                        }
                        ScalarExpression::Constant(DataValue::Utf8(Some(String::from_str("*"))))
                    },
                    Some(a) => match self.bind_expr(&**a) {
                        Ok(x) => x,
                        Err(e) => {
                            return Err(e);
                        },
                    },
                };
                let ty = if kind == AggKind::Count {
                    LogicalType::Integer
                } else {
                    bound.return_type()
                };
                Ok(
                    ScalarExpression::AggCall {
                        distinct: *distinct,
                        kind,
                        arg: Box::new(bound),
                        ty,
                    },
                )
            },
            Expr::Nested(inner) => self.bind_expr(&**inner),
        }
    }
}

} // verus!
