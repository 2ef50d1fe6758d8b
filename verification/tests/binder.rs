use kip_sql::binder::{
    lower_case_name, split_name, BindError, Binder, BinderContext, InputRefType,
    DEFAULT_SCHEMA_NAME,
};
use kip_sql::catalog::{ColumnCatalog, ColumnDesc, TableCatalog};
use kip_sql::expression::{AggKind, BinaryOperator, ScalarExpression};
use kip_sql::parser::ast::{
    Assignment, ColumnDef, ColumnOption, CopySource, CopyTarget, DataType, Expr, ObjectName,
    ObjectType, OrderByExpr,
    Query, Select, SelectItem, SetExpr, Statement, StatementKind, TableFactor, TableWithJoins,
    Value,
};
use kip_sql::planner::{JoinType, LogicalPlan, LogicalSelectPlan, Operator};
use kip_sql::storage::kip::create_table;
use kip_sql::storage::Transaction;
use kip_sql::types::{DataValue, LogicalType, TypeError};

/// The tables that a transaction knows.
struct Tables(Vec<TableCatalog>);

impl Transaction for Tables {
    fn table(&self, table_name: String) -> Option<&TableCatalog> {
        self.0.iter().find(|t| t.name == table_name)
    }
}

fn int_column(name: &str, is_primary: bool, is_unique: bool) -> ColumnCatalog {
    ColumnCatalog::new(
        name.to_string(),
        false,
        ColumnDesc::new(LogicalType::Integer, is_primary, is_unique, None),
    )
}

fn stored(name: &str, columns: Vec<ColumnCatalog>) -> TableCatalog {
    create_table(name.to_string(), columns, false, false)
        .unwrap()
        .unwrap()
        .0
}

fn build_test_catalog() -> Tables {
    Tables(vec![
        stored(
            "t1",
            vec![int_column("c1", true, false), int_column("c2", false, true)],
        ),
        stored(
            "t2",
            vec![int_column("c3", true, false), int_column("c4", false, false)],
        ),
        stored(
            "t3",
            vec![
                int_column("c1", true, false),
                ColumnCatalog::new(
                    "note".to_string(),
                    true,
                    ColumnDesc::new(LogicalType::Varchar, false, false, None),
                ),
                ColumnCatalog::new(
                    "big".to_string(),
                    true,
                    ColumnDesc::new(
                        LogicalType::Bigint,
                        false,
                        false,
                        Some(DataValue::Int64(Some(0))),
                    ),
                ),
            ],
        ),
    ])
}

fn name(parts: &[&str]) -> ObjectName {
    ObjectName(parts.iter().map(|p| p.to_string()).collect())
}

fn from(table: &str, alias: Option<&str>) -> TableWithJoins {
    TableWithJoins {
        relation: TableFactor {
            name: name(&[table]),
            alias: alias.map(|a| a.to_string()),
        },
        joins: vec![],
    }
}

fn ident(n: &str) -> Expr {
    Expr::Identifier(n.to_string())
}

fn number(n: i64) -> Expr {
    Expr::Value(Value::Number(n))
}

fn query(projection: Vec<SelectItem>, from: Vec<TableWithJoins>) -> Query {
    Query {
        body: Select {
            projection,
            from,
            selection: None,
            group_by: vec![],
        },
        order_by: vec![],
        limit: None,
        offset: None,
    }
}

fn statement(text: &str, kind: StatementKind) -> Statement {
    Statement {
        text: text.to_string(),
        kind,
    }
}

fn bind(tables: &Tables, stmt: &Statement) -> Result<LogicalPlan, BindError> {
    Binder::new(BinderContext::new(tables)).bind(stmt)
}

fn select_sql_run(tables: &Tables, text: &str, q: Query) -> Result<LogicalSelectPlan, BindError> {
    match bind(tables, &statement(text, StatementKind::Query(q)))? {
        LogicalPlan::Select(p) => Ok(p),
        other => panic!("a query must give a select plan, not {:?}", other),
    }
}

fn column_ref(tables: &Tables, table: &str, column: &str) -> ScalarExpression {
    let t = tables.table(table.to_string()).unwrap();
    ScalarExpression::ColumnRef(
        t.get_column_by_name(&column.to_string()).unwrap().clone(),
    )
}

#[test]
fn select_of_a_column_is_a_projection_over_a_scan() {
    let tables = build_test_catalog();
    let plan = select_sql_run(
        &tables,
        "SELECT c1 FROM t1",
        query(
            vec![SelectItem::UnnamedExpr(ident("c1"))],
            vec![from("t1", None)],
        ),
    )
    .unwrap();
    match &plan.operator {
        Operator::Project(p) => assert_eq!(p.columns, vec![column_ref(&tables, "t1", "c1")]),
        other => panic!("the root must be a projection, not {:?}", other),
    }
    assert_eq!(plan.children.len(), 1);
    match &plan.children[0].operator {
        Operator::Scan(s) => {
            assert_eq!(s.table_name, "t1");
            assert_eq!(
                s.columns,
                vec![column_ref(&tables, "t1", "c1"), column_ref(&tables, "t1", "c2")]
            );
            assert_eq!(s.limit, (None, None));
        }
        other => panic!("the projection must read a scan, not {:?}", other),
    }
    assert!(plan.children[0].children.is_empty());
}

#[test]
fn select_of_an_unknown_column_is_refused() {
    let tables = build_test_catalog();
    assert_eq!(
        select_sql_run(
            &tables,
            "SELECT cX FROM t1",
            query(
                vec![SelectItem::UnnamedExpr(ident("cX"))],
                vec![from("t1", None)],
            ),
        ),
        Err(BindError::InvalidColumn("cx".to_string()))
    );
}

#[test]
fn one_alias_for_two_tables_is_refused() {
    let tables = build_test_catalog();
    assert_eq!(
        select_sql_run(
            &tables,
            "SELECT c1 FROM t1 AS a, t2 AS a",
            query(
                vec![SelectItem::UnnamedExpr(ident("c1"))],
                vec![from("t1", Some("a")), from("t2", Some("a"))],
            ),
        ),
        Err(BindError::InvalidTable("a duplicated".to_string()))
    );
    assert_eq!(
        select_sql_run(
            &tables,
            "SELECT c1 FROM t1, t1",
            query(
                vec![SelectItem::UnnamedExpr(ident("c1"))],
                vec![from("t1", None), from("t1", None)],
            ),
        ),
        Err(BindError::InvalidTable("t1 duplicated".to_string()))
    );
}

#[test]
fn names_resolve_through_aliases_and_tables_in_bind_order() {
    let tables = build_test_catalog();
    assert_eq!(
        select_sql_run(
            &tables,
            "SELECT c1 FROM t1, t3",
            query(
                vec![SelectItem::UnnamedExpr(ident("c1"))],
                vec![from("t1", None), from("t3", None)],
            ),
        ),
        Err(BindError::AmbiguousColumn("c1".to_string()))
    );
    let plan = select_sql_run(
        &tables,
        "SELECT b.C1, a.c2 AS x, x FROM T1 AS A, t3 b",
        query(
            vec![
                SelectItem::UnnamedExpr(Expr::CompoundIdentifier(vec![
                    "b".to_string(),
                    "C1".to_string(),
                ])),
                SelectItem::ExprWithAlias {
                    expr: Expr::CompoundIdentifier(vec!["a".to_string(), "c2".to_string()]),
                    alias: "X".to_string(),
                },
                SelectItem::UnnamedExpr(ident("x")),
            ],
            vec![from("T1", Some("A")), from("t3", Some("b"))],
        ),
    )
    .unwrap();
    let c2 = column_ref(&tables, "t1", "c2");
    match &plan.operator {
        Operator::Project(p) => assert_eq!(
            p.columns,
            vec![
                column_ref(&tables, "t3", "c1"),
                ScalarExpression::Alias {
                    expr: Box::new(c2.clone()),
                    alias: "x".to_string()
                },
                c2,
            ]
        ),
        other => panic!("the root must be a projection, not {:?}", other),
    }
    match &plan.children[0].operator {
        Operator::Join(j) => assert_eq!(j.join_type, JoinType::Cross),
        other => panic!("two tables must be joined, not {:?}", other),
    }
    assert_eq!(plan.children[0].children.len(), 2);

    assert_eq!(
        select_sql_run(
            &tables,
            "SELECT z.c1 FROM t1",
            query(
                vec![SelectItem::UnnamedExpr(Expr::CompoundIdentifier(vec![
                    "z".to_string(),
                    "c1".to_string(),
                ]))],
                vec![from("t1", None)],
            ),
        ),
        Err(BindError::InvalidTable("z".to_string()))
    );
    assert_eq!(
        select_sql_run(
            &tables,
            "SELECT c1 AS k, c2 AS k FROM t1",
            query(
                vec![
                    SelectItem::ExprWithAlias {
                        expr: ident("c1"),
                        alias: "k".to_string(),
                    },
                    SelectItem::ExprWithAlias {
                        expr: ident("c2"),
                        alias: "k".to_string(),
                    },
                ],
                vec![from("t1", None)],
            ),
        ),
        Err(BindError::InvalidColumn("k duplicated".to_string()))
    );
    assert_eq!(
        select_sql_run(
            &tables,
            "SELECT c1 FROM nowhere",
            query(
                vec![SelectItem::UnnamedExpr(ident("c1"))],
                vec![from("nowhere", None)],
            ),
        ),
        Err(BindError::InvalidTable("nowhere".to_string()))
    );
}

#[test]
fn star_where_order_and_limit_stack_in_order() {
    let tables = build_test_catalog();
    let mut q = query(vec![SelectItem::Wildcard], vec![from("t1", None)]);
    q.body.selection = Some(Expr::BinaryOp {
        left: Box::new(ident("c1")),
        op: BinaryOperator::Gt,
        right: Box::new(Expr::Nested(Box::new(number(1)))),
    });
    q.order_by = vec![OrderByExpr {
        expr: ident("c2"),
        asc: Some(false),
    }];
    q.limit = Some(Value::Number(10));
    q.offset = Some(Value::Number(2));
    let plan = select_sql_run(&tables, "SELECT * ...", q).unwrap();
    let c1 = column_ref(&tables, "t1", "c1");
    let c2 = column_ref(&tables, "t1", "c2");
    match &plan.operator {
        Operator::Limit(l) => {
            assert_eq!(l.limit, Some(10));
            assert_eq!(l.offset, Some(2));
        }
        other => panic!("the root must be the limit, not {:?}", other),
    }
    let project = &plan.children[0];
    match &project.operator {
        Operator::Project(p) => assert_eq!(p.columns, vec![c1.clone(), c2.clone()]),
        other => panic!("expected the projection, not {:?}", other),
    }
    let sort = &project.children[0];
    match &sort.operator {
        Operator::Sort(s) => {
            assert_eq!(s.sort_fields.len(), 1);
            assert_eq!(s.sort_fields[0].expr, c2);
            assert!(!s.sort_fields[0].asc);
        }
        other => panic!("expected the sort, not {:?}", other),
    }
    let filter = &sort.children[0];
    match &filter.operator {
        Operator::Filter(f) => {
            assert!(!f.having);
            assert_eq!(
                f.predicate,
                ScalarExpression::Binary {
                    op: BinaryOperator::Gt,
                    left_expr: Box::new(c1),
                    right_expr: Box::new(ScalarExpression::Constant(DataValue::Int32(Some(1)))),
                    ty: LogicalType::Boolean,
                }
            );
        }
        other => panic!("expected the filter, not {:?}", other),
    }
    assert!(matches!(filter.children[0].operator, Operator::Scan(_)));
}

#[test]
fn operands_of_types_that_do_not_meet_are_refused() {
    let tables = build_test_catalog();
    let mut q = query(vec![SelectItem::Wildcard], vec![from("t1", None)]);
    q.body.selection = Some(Expr::BinaryOp {
        left: Box::new(ident("c1")),
        op: BinaryOperator::Eq,
        right: Box::new(Expr::Value(Value::Text("x".to_string()))),
    });
    assert_eq!(
        select_sql_run(&tables, "SELECT * FROM t1 WHERE c1 = 'x'", q),
        Err(BindError::BinaryOpTypeMismatch(
            "Integer".to_string(),
            "Varchar".to_string()
        ))
    );
    let mut q = query(vec![SelectItem::Wildcard], vec![from("t1", None)]);
    q.body.selection = Some(Expr::BinaryOp {
        left: Box::new(ident("c1")),
        op: BinaryOperator::And,
        right: Box::new(ident("c2")),
    });
    assert_eq!(
        select_sql_run(&tables, "SELECT * FROM t1 WHERE c1 AND c2", q),
        Err(BindError::BinaryOpTypeMismatch(
            "Integer".to_string(),
            "Integer".to_string()
        ))
    );
    let mut q = query(
        vec![SelectItem::UnnamedExpr(Expr::BinaryOp {
            left: Box::new(ident("c1")),
            op: BinaryOperator::Plus,
            right: Box::new(number(1 << 40)),
        })],
        vec![from("t1", None)],
    );
    q.limit = Some(Value::Number(-1));
    assert_eq!(
        select_sql_run(&tables, "SELECT c1 + 1099511627776 FROM t1 LIMIT -1", q),
        Err(BindError::InvalidColumn(
            "invalid limit expression.".to_string()
        ))
    );
}

#[test]
fn aggregates_come_first_and_group_keys_after_them() {
    let tables = build_test_catalog();
    let count = Expr::Function {
        name: "COUNT".to_string(),
        arg: Some(Box::new(ident("c1"))),
        distinct: false,
    };
    let sum = Expr::Function {
        name: "sum".to_string(),
        arg: Some(Box::new(ident("c1"))),
        distinct: true,
    };
    let mut q = query(
        vec![
            SelectItem::UnnamedExpr(ident("c2")),
            SelectItem::UnnamedExpr(count),
            SelectItem::ExprWithAlias {
                expr: sum,
                alias: "total".to_string(),
            },
        ],
        vec![from("t1", None)],
    );
    q.body.group_by = vec![ident("c2"), ident("c2")];
    let plan = select_sql_run(&tables, "SELECT c2, count(c1), sum(distinct c1) ...", q).unwrap();
    let c1 = column_ref(&tables, "t1", "c1");
    let c2 = column_ref(&tables, "t1", "c2");
    match &plan.operator {
        Operator::Project(p) => assert_eq!(
            p.columns,
            vec![
                ScalarExpression::InputRef {
                    index: 2,
                    ty: LogicalType::Integer
                },
                ScalarExpression::InputRef {
                    index: 0,
                    ty: LogicalType::Integer
                },
                ScalarExpression::Alias {
                    expr: Box::new(ScalarExpression::InputRef {
                        index: 1,
                        ty: LogicalType::Integer
                    }),
                    alias: "total".to_string()
                },
            ]
        ),
        other => panic!("the root must be a projection, not {:?}", other),
    }
    match &plan.children[0].operator {
        Operator::Aggregate(a) => {
            assert_eq!(a.groupby_exprs, vec![c2]);
            assert_eq!(
                a.agg_calls,
                vec![
                    ScalarExpression::AggCall {
                        distinct: false,
                        kind: AggKind::Count,
                        arg: Box::new(c1.clone()),
                        ty: LogicalType::Integer
                    },
                    ScalarExpression::AggCall {
                        distinct: true,
                        kind: AggKind::Sum,
                        arg: Box::new(c1),
                        ty: LogicalType::Integer
                    },
                ]
            );
        }
        other => panic!("expected the aggregation, not {:?}", other),
    }
}

#[test]
fn a_column_beside_an_aggregate_must_be_a_group_key() {
    let tables = build_test_catalog();
    let count_star = Expr::Function {
        name: "count".to_string(),
        arg: None,
        distinct: false,
    };
    let q = query(
        vec![
            SelectItem::UnnamedExpr(ident("c1")),
            SelectItem::UnnamedExpr(count_star),
        ],
        vec![from("t1", None)],
    );
    assert_eq!(
        select_sql_run(&tables, "SELECT c1, count(*) FROM t1", q),
        Err(BindError::AggMiss(
            "c1 must appear in the GROUP BY clause or be used in an aggregate function"
                .to_string()
        ))
    );
    let q = query(
        vec![SelectItem::UnnamedExpr(Expr::Function {
            name: "median".to_string(),
            arg: Some(Box::new(ident("c1"))),
            distinct: false,
        })],
        vec![from("t1", None)],
    );
    assert_eq!(
        select_sql_run(&tables, "SELECT median(c1) FROM t1", q),
        Err(BindError::UnsupportedStmt("median".to_string()))
    );
}

#[test]
fn query_over_no_table_is_refused_with_its_text() {
    let tables = build_test_catalog();
    assert_eq!(
        select_sql_run(
            &tables,
            "SELECT 1",
            query(vec![SelectItem::UnnamedExpr(number(1))], vec![])
        ),
        Err(BindError::UnsupportedStmt("SELECT 1".to_string()))
    );
}

fn column_def(name: &str, data_type: DataType, options: Vec<ColumnOption>) -> ColumnDef {
    ColumnDef {
        name: name.to_string(),
        data_type,
        options,
    }
}

#[test]
fn create_table_takes_names_in_lower_case() {
    let tables = Tables(vec![]);
    let stmt = statement(
        "CREATE TABLE IF NOT EXISTS Main.T1 (A INT PRIMARY KEY, B VARCHAR, c BIGINT UNIQUE)",
        StatementKind::CreateTable {
            name: name(&["Main", "T1"]),
            columns: vec![
                column_def(
                    "A",
                    DataType::Int,
                    vec![ColumnOption::Unique { is_primary: true }, ColumnOption::Null],
                ),
                column_def(
                    "B",
                    DataType::Varchar,
                    vec![
                        ColumnOption::Default(Value::Text("x".to_string())),
                        ColumnOption::NotNull,
                    ],
                ),
                column_def(
                    "c",
                    DataType::BigInt,
                    vec![
                        ColumnOption::Unique { is_primary: false },
                        ColumnOption::Default(Value::Number(7)),
                        ColumnOption::Null,
                    ],
                ),
            ],
            if_not_exists: true,
        },
    );
    match bind(&tables, &stmt).unwrap() {
        LogicalPlan::CreateTable(op) => {
            assert_eq!(op.table_name, "t1");
            assert!(op.if_not_exists);
            assert_eq!(
                op.columns,
                vec![
                    ColumnCatalog::new(
                        "a".to_string(),
                        false,
                        ColumnDesc::new(LogicalType::Integer, true, true, None)
                    ),
                    ColumnCatalog::new(
                        "b".to_string(),
                        false,
                        ColumnDesc::new(
                            LogicalType::Varchar,
                            false,
                            false,
                            Some(DataValue::Utf8(Some("x".to_string())))
                        )
                    ),
                    ColumnCatalog::new(
                        "c".to_string(),
                        true,
                        ColumnDesc::new(
                            LogicalType::Bigint,
                            false,
                            true,
                            Some(DataValue::Int64(Some(7)))
                        )
                    ),
                ]
            );
        }
        other => panic!("expected the creation of a table, not {:?}", other),
    }
}

#[test]
fn create_table_refuses_what_cannot_be() {
    let tables = Tables(vec![]);
    let create = |n: ObjectName, columns: Vec<ColumnDef>| {
        bind(
            &tables,
            &statement(
                "CREATE TABLE ...",
                StatementKind::CreateTable {
                    name: n,
                    columns,
                    if_not_exists: false,
                },
            ),
        )
    };
    assert_eq!(
        create(
            name(&["t"]),
            vec![
                column_def("a", DataType::Int, vec![]),
                column_def("b", DataType::Int, vec![]),
                column_def("A", DataType::Boolean, vec![]),
            ]
        ),
        Err(BindError::AmbiguousColumn("a".to_string()))
    );
    assert_eq!(
        create(name(&["X", "y", "Z"]), vec![]),
        Err(BindError::InvalidTableName(vec![
            "x".to_string(),
            "y".to_string(),
            "z".to_string()
        ]))
    );
    assert_eq!(
        create(
            name(&["t"]),
            vec![column_def(
                "a",
                DataType::Int,
                vec![ColumnOption::Default(Value::Boolean(true))]
            )]
        ),
        Err(BindError::TypeError(TypeError::CastFail))
    );
}

fn insert(
    table: &str,
    idents: &[&str],
    rows: Vec<Vec<Expr>>,
    overwrite: bool,
) -> Statement {
    statement(
        "INSERT ...",
        StatementKind::Insert {
            table_name: name(&[table]),
            idents: idents.iter().map(|i| i.to_string()).collect(),
            source: SetExpr::Values(rows),
            overwrite,
        },
    )
}

#[test]
fn insert_holds_each_literal_in_the_type_of_its_column() {
    let tables = build_test_catalog();
    let stmt = insert(
        "T3",
        &["BIG", "c1", "note"],
        vec![
            vec![number(5), number(1), Expr::Value(Value::Text("n".to_string()))],
            vec![Expr::Value(Value::Null), number(-2), Expr::Value(Value::Null)],
        ],
        true,
    );
    match bind(&tables, &stmt).unwrap() {
        LogicalPlan::Insert(op) => {
            assert_eq!(op.table, "t3");
            assert_eq!(op.col_idxs, vec![2, 0, 1]);
            assert!(op.is_overwrite);
            assert_eq!(
                op.cols,
                vec![
                    vec![
                        DataValue::Int64(Some(5)),
                        DataValue::Int32(Some(1)),
                        DataValue::Utf8(Some("n".to_string()))
                    ],
                    vec![
                        DataValue::Int64(None),
                        DataValue::Int32(Some(-2)),
                        DataValue::Utf8(None)
                    ],
                ]
            );
        }
        other => panic!("expected an insertion, not {:?}", other),
    }
    match bind(&tables, &insert("t1", &[], vec![vec![number(0), number(1)]], false)).unwrap() {
        LogicalPlan::Insert(op) => {
            assert_eq!(op.col_idxs, vec![0, 1]);
            assert!(!op.is_overwrite);
        }
        other => panic!("expected an insertion, not {:?}", other),
    }
}

#[test]
fn insert_refuses_what_does_not_fit_the_table() {
    let tables = build_test_catalog();
    assert_eq!(
        bind(&tables, &insert("nowhere", &[], vec![], false)),
        Err(BindError::InvalidTable("nowhere".to_string()))
    );
    assert_eq!(
        bind(&tables, &insert("t1", &["c9"], vec![], false)),
        Err(BindError::InvalidColumn("c9".to_string()))
    );
    assert_eq!(
        bind(&tables, &insert("t1", &["c1"], vec![vec![number(1)]], false)),
        Err(BindError::InvalidColumn("c2".to_string()))
    );
    assert_eq!(
        bind(&tables, &insert("t1", &[], vec![vec![number(1)]], false)),
        Err(BindError::InvalidColumn(
            "values do not match columns".to_string()
        ))
    );
    assert_eq!(
        bind(
            &tables,
            &insert("t1", &[], vec![vec![number(1), number(1 << 33)]], false)
        ),
        Err(BindError::TypeError(TypeError::CastFail))
    );
    assert_eq!(
        bind(
            &tables,
            &insert(
                "t1",
                &[],
                vec![vec![number(1), Expr::Value(Value::Null)]],
                false
            )
        ),
        Err(BindError::TypeError(TypeError::NotNull))
    );
    assert_eq!(
        bind(
            &tables,
            &insert("t1", &[], vec![vec![number(1), ident("c1")]], false)
        ),
        Err(BindError::UnsupportedStmt("INSERT ...".to_string()))
    );
}

#[test]
fn statements_that_name_a_table_need_the_table() {
    let tables = build_test_catalog();
    let drop = |table: &str, if_exists: bool| {
        bind(
            &tables,
            &statement(
                "DROP TABLE ...",
                StatementKind::Drop {
                    object_type: ObjectType::Table,
                    names: vec![name(&[table])],
                    if_exists,
                },
            ),
        )
    };
    match drop("T1", false).unwrap() {
        LogicalPlan::DropTable(op) => {
            assert_eq!(op.table_name, "t1");
            assert!(!op.if_exists);
        }
        other => panic!("expected a drop, not {:?}", other),
    }
    assert_eq!(
        drop("gone", false),
        Err(BindError::InvalidTable("gone".to_string()))
    );
    assert!(matches!(drop("gone", true), Ok(LogicalPlan::DropTable(_))));

    let truncate = |table: &str| {
        bind(
            &tables,
            &statement(
                "TRUNCATE ...",
                StatementKind::Truncate {
                    table_name: name(&[table]),
                },
            ),
        )
    };
    match truncate("t2").unwrap() {
        LogicalPlan::Truncate(op) => assert_eq!(op.table_name, "t2"),
        other => panic!("expected a truncation, not {:?}", other),
    }
    assert_eq!(
        truncate("gone"),
        Err(BindError::InvalidTable("gone".to_string()))
    );

    assert_eq!(
        bind(&tables, &statement("SHOW TABLES", StatementKind::ShowTables)),
        Ok(LogicalPlan::ShowTables)
    );

    let copy = |table: &str| {
        bind(
            &tables,
            &statement(
                "COPY ...",
                StatementKind::Copy {
                    source: CopySource::Table {
                        table_name: name(&[table]),
                    },
                    to: true,
                    target: CopyTarget::File {
                        filename: "out.csv".to_string(),
                    },
                    options: vec![("format".to_string(), "csv".to_string())],
                },
            ),
        )
    };
    match copy("t2").unwrap() {
        LogicalPlan::Copy(op) => {
            assert_eq!(op.table_name, "t2");
            assert!(op.to);
            assert_eq!(op.target, "out.csv");
            assert_eq!(op.options, vec![("format".to_string(), "csv".to_string())]);
            assert_eq!(op.columns, tables.0[1].columns);
        }
        other => panic!("expected a copy, not {:?}", other),
    }
    assert_eq!(
        copy("gone"),
        Err(BindError::InvalidTable("gone".to_string()))
    );
    assert_eq!(
        bind(
            &tables,
            &statement(
                "COPY (SELECT 1) TO 'f'",
                StatementKind::Copy {
                    source: CopySource::Query,
                    to: true,
                    target: CopyTarget::File {
                        filename: "f".to_string(),
                    },
                    options: vec![],
                },
            ),
        ),
        Err(BindError::UnsupportedCopySource(
            "bad copy source".to_string()
        ))
    );
    assert_eq!(
        bind(
            &tables,
            &statement(
                "COPY t1 TO STDOUT",
                StatementKind::Copy {
                    source: CopySource::Table {
                        table_name: name(&["t1"]),
                    },
                    to: true,
                    target: CopyTarget::Other,
                    options: vec![],
                },
            ),
        ),
        Err(BindError::UnsupportedCopySource(
            "bad copy target".to_string()
        ))
    );
}

#[test]
fn shapes_that_the_binder_does_not_take_are_refused_with_their_text() {
    let tables = build_test_catalog();
    let refused = |text: &str, kind: StatementKind| {
        assert_eq!(
            bind(&tables, &statement(text, kind)),
            Err(BindError::UnsupportedStmt(text.to_string()))
        );
    };
    refused("EXPLAIN SELECT 1", StatementKind::Other);
    refused(
        "DROP VIEW v",
        StatementKind::Drop {
            object_type: ObjectType::View,
            names: vec![name(&["v"])],
            if_exists: false,
        },
    );
    refused(
        "DROP TABLE",
        StatementKind::Drop {
            object_type: ObjectType::Table,
            names: vec![],
            if_exists: false,
        },
    );
    refused(
        "INSERT INTO t1 SELECT * FROM t2",
        StatementKind::Insert {
            table_name: name(&["t1"]),
            idents: vec![],
            source: SetExpr::Other,
            overwrite: false,
        },
    );
    let joined = TableWithJoins {
        relation: TableFactor {
            name: name(&["t1"]),
            alias: None,
        },
        joins: vec![TableFactor {
            name: name(&["t2"]),
            alias: None,
        }],
    };
    refused(
        "UPDATE t1 JOIN t2 SET c1 = 1",
        StatementKind::Update {
            table: TableWithJoins {
                relation: TableFactor {
                    name: name(&["t1"]),
                    alias: None,
                },
                joins: vec![TableFactor {
                    name: name(&["t2"]),
                    alias: None,
                }],
            },
            assignments: vec![],
            selection: None,
        },
    );
    refused(
        "DELETE FROM t1 JOIN t2",
        StatementKind::Delete {
            from: vec![joined],
            selection: None,
        },
    );
    refused(
        "DELETE FROM t1, t2",
        StatementKind::Delete {
            from: vec![from("t1", None), from("t2", None)],
            selection: None,
        },
    );
}

#[test]
fn update_and_delete_read_one_table_through_an_optional_filter() {
    let tables = build_test_catalog();
    let predicate = Expr::BinaryOp {
        left: Box::new(ident("c1")),
        op: BinaryOperator::Eq,
        right: Box::new(number(3)),
    };
    let stmt = statement(
        "UPDATE t1 SET c2 = 9 WHERE c1 = 3",
        StatementKind::Update {
            table: from("t1", None),
            assignments: vec![Assignment {
                id: vec!["t1".to_string(), "C2".to_string()],
                value: number(9),
            }],
            selection: Some(predicate),
        },
    );
    match bind(&tables, &stmt).unwrap() {
        LogicalPlan::Update(op) => {
            assert_eq!(op.table_name, "t1");
            assert_eq!(op.columns, vec![tables.0[0].columns[1].clone()]);
            assert_eq!(
                op.values,
                vec![ScalarExpression::Constant(DataValue::Int32(Some(9)))]
            );
            assert!(matches!(op.input.operator, Operator::Filter(_)));
            assert!(matches!(op.input.children[0].operator, Operator::Scan(_)));
        }
        other => panic!("expected an update, not {:?}", other),
    }
    let stmt = statement(
        "DELETE FROM t2",
        StatementKind::Delete {
            from: vec![from("t2", None)],
            selection: None,
        },
    );
    match bind(&tables, &stmt).unwrap() {
        LogicalPlan::Delete(op) => {
            assert_eq!(op.table_name, "t2");
            match &op.input.operator {
                Operator::Scan(s) => assert_eq!(s.table_name, "t2"),
                other => panic!("expected a scan, not {:?}", other),
            }
        }
        other => panic!("expected a deletion, not {:?}", other),
    }
    let stmt = statement(
        "UPDATE t1 SET nope = 1",
        StatementKind::Update {
            table: from("t1", None),
            assignments: vec![Assignment {
                id: vec!["nope".to_string()],
                value: number(1),
            }],
            selection: None,
        },
    );
    assert_eq!(
        bind(&tables, &stmt),
        Err(BindError::InvalidColumn("nope".to_string()))
    );
}

#[test]
fn names_are_folded_and_split() {
    assert_eq!(
        lower_case_name(&name(&["Main", "TÄBLE"])),
        name(&["main", "täble"])
    );
    assert_eq!(lower_case_name(&name(&[])), name(&[]));
    let one = name(&["t1"]);
    assert_eq!(split_name(&one), Ok((DEFAULT_SCHEMA_NAME, "t1")));
    let two = name(&["s", "t1"]);
    assert_eq!(split_name(&two), Ok(("s", "t1")));
    let three = name(&["a", "b", "c"]);
    assert_eq!(
        split_name(&three),
        Err(BindError::InvalidTableName(vec![
            "a".to_string(),
            "b".to_string(),
            "c".to_string()
        ]))
    );
    assert_eq!(
        split_name(&name(&[])),
        Err(BindError::InvalidTableName(vec![]))
    );
}

#[test]
fn context_gives_each_name_once() {
    let tables = build_test_catalog();
    let mut context = BinderContext::new(&tables);
    let one = ScalarExpression::Constant(DataValue::Int32(Some(1)));
    let two = ScalarExpression::Constant(DataValue::Int32(Some(2)));
    assert_eq!(context.add_alias("x".to_string(), one.clone()), Ok(()));
    assert_eq!(
        context.add_alias("x".to_string(), two.clone()),
        Err(BindError::InvalidColumn("x duplicated".to_string()))
    );
    assert_eq!(context.bind_ident(&"x".to_string()), Ok(one.clone()));

    assert_eq!(
        context.add_table_alias("a".to_string(), "t1".to_string()),
        Ok(())
    );
    assert_eq!(
        context.add_table_alias("a".to_string(), "t2".to_string()),
        Err(BindError::InvalidTable("a duplicated".to_string()))
    );
    assert_eq!(context.table("a".to_string()), Some(&tables.0[0]));
    assert_eq!(context.table("t2".to_string()), Some(&tables.0[1]));
    assert_eq!(context.table("b".to_string()), None);

    assert_eq!(
        context.add_bind_table("t1".to_string(), tables.0[0].clone(), None),
        Ok(())
    );
    assert_eq!(
        context.add_bind_table("t1".to_string(), tables.0[1].clone(), Some(JoinType::Inner)),
        Err(BindError::InvalidTable("t1 duplicated".to_string()))
    );
    assert_eq!(context.bind_table.len(), 1);
    assert_eq!(context.bind_table[0].catalog, tables.0[0]);
}

#[test]
fn input_references_count_aggregates_before_group_keys() {
    let tables = build_test_catalog();
    let mut context = BinderContext::new(&tables);
    assert_eq!(context.input_ref_index(InputRefType::AggCall), 0);
    assert_eq!(context.input_ref_index(InputRefType::GroupBy), 0);
    let key = ScalarExpression::Constant(DataValue::Int32(Some(1)));
    let other = ScalarExpression::Constant(DataValue::Int32(Some(2)));
    context.agg_calls.push(other.clone());
    context.agg_calls.push(other.clone());
    context.group_by_exprs.push(key.clone());
    assert_eq!(context.input_ref_index(InputRefType::AggCall), 2);
    assert_eq!(context.input_ref_index(InputRefType::GroupBy), 3);
    assert!(context.has_agg_call(&key));
    assert!(!context.has_agg_call(&other));
}

#[test]
fn errors_say_what_went_wrong() {
    assert_eq!(
        BindError::InvalidTable("t9".to_string()).message(),
        "invalid table t9"
    );
    assert_eq!(
        BindError::InvalidTableName(vec!["a".to_string(), "b".to_string(), "c".to_string()])
            .message(),
        "invalid table name: a.b.c"
    );
    assert_eq!(
        BindError::InvalidTableName(vec![]).message(),
        "invalid table name: "
    );
    assert_eq!(
        BindError::BinaryOpTypeMismatch("Integer".to_string(), "Varchar".to_string()).message(),
        "binary operator types mismatch: Integer != Varchar"
    );
    assert_eq!(
        BindError::UnsupportedStmt("EXPLAIN x".to_string()).message(),
        "unsupported statement EXPLAIN x"
    );
    assert_eq!(
        BindError::TypeError(TypeError::CastFail).message(),
        "type error: cast fail"
    );
    assert_eq!(
        BindError::AggMiss("c1 must appear".to_string()).message(),
        "agg miss: c1 must appear"
    );
    assert_eq!(
        BindError::CatalogError(kip_sql::catalog::CatalogError::ColumnsEmpty).message(),
        "catalog error: a table must have a column"
    );
    assert_eq!(
        BindError::CatalogError(kip_sql::catalog::CatalogError::Duplicated("x".to_string()))
            .message(),
        "catalog error: x duplicated"
    );
    assert_eq!(
        kip_sql::storage::StorageError::DuplicatePrimaryKey.message(),
        "The same primary key data already exists"
    );
    assert_eq!(
        kip_sql::storage::StorageError::Type(TypeError::OutOfRange).message(),
        "type error: input out of range"
    );
}

#[test]
fn binding_starts_from_no_aggregates() {
    let tables = build_test_catalog();
    let mut context = BinderContext::new(&tables);
    context
        .agg_calls
        .push(ScalarExpression::Constant(DataValue::Null));
    context
        .group_by_exprs
        .push(ScalarExpression::Constant(DataValue::Null));
    let stmt = statement(
        "SELECT c1 FROM t1",
        StatementKind::Query(query(
            vec![SelectItem::UnnamedExpr(ident("c1"))],
            vec![from("t1", None)],
        )),
    );
    match Binder::new(context).bind(&stmt).unwrap() {
        LogicalPlan::Select(p) => {
            assert!(matches!(p.operator, Operator::Project(_)));
            assert!(matches!(p.children[0].operator, Operator::Scan(_)));
        }
        other => panic!("expected a query plan, not {:?}", other),
    }
}
