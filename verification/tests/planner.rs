use kip_sql::catalog::{ColumnCatalog, ColumnDesc};
use kip_sql::execution::{PhysicalOperator, PhysicalPlanBuilder, PlanError, PlanKind};
use kip_sql::expression::ScalarExpression;
use kip_sql::planner::{
    CreateTableOperator, FilterOperator, InsertOperator, LimitOperator, LogicalPlan,
    LogicalSelectPlan, Operator, ProjectOperator, ScanOperator,
};
use kip_sql::types::{DataValue, LogicalType};

fn scan(table: &str) -> LogicalSelectPlan {
    LogicalSelectPlan {
        operator: Operator::Scan(ScanOperator {
            table_name: table.to_string(),
            columns: vec![],
            limit: (None, None),
        }),
        children: vec![],
    }
}

#[test]
fn projection_over_scan_numbers_the_child_first() {
    let plan = LogicalPlan::Select(LogicalSelectPlan {
        operator: Operator::Project(ProjectOperator { columns: vec![] }),
        children: vec![scan("t1")],
    });
    let mut builder = PhysicalPlanBuilder::new();
    let physical = builder.build_plan(&plan).unwrap();
    match physical {
        PhysicalOperator::Projection(p) => {
            assert_eq!(p.plan_id, 1);
            match *p.input {
                PhysicalOperator::TableScan(s) => {
                    assert_eq!(s.plan_id, 0);
                    assert_eq!(s.base.table_name, "t1");
                }
                _ => panic!("the projection must read a scan"),
            }
        }
        _ => panic!("the root must be a projection"),
    }
    assert_eq!(builder.plan_id, 2);
}

#[test]
fn filter_has_no_physical_plan() {
    let plan = LogicalPlan::Select(LogicalSelectPlan {
        operator: Operator::Filter(FilterOperator {
            predicate: ScalarExpression::Constant(DataValue::Boolean(Some(true))),
            having: false,
        }),
        children: vec![scan("t1")],
    });
    let mut builder = PhysicalPlanBuilder::new();
    assert_eq!(
        builder.build_plan(&plan),
        Err(PlanError::Unsupported(PlanKind::Filter))
    );
    assert_eq!(
        PlanError::Unsupported(PlanKind::Filter).message(),
        "Unsupported physical plan: Filter"
    );
}

#[test]
fn projection_without_child_is_refused() {
    let plan = LogicalPlan::Select(LogicalSelectPlan {
        operator: Operator::Project(ProjectOperator { columns: vec![] }),
        children: vec![],
    });
    let mut builder = PhysicalPlanBuilder::new();
    assert_eq!(builder.build_plan(&plan), Err(PlanError::MissingChild));
}

#[test]
fn nested_projections_are_numbered_from_the_bottom_up() {
    let inner = LogicalSelectPlan {
        operator: Operator::Project(ProjectOperator { columns: vec![] }),
        children: vec![scan("t1"), scan("ignored")],
    };
    let plan = LogicalPlan::Select(LogicalSelectPlan {
        operator: Operator::Project(ProjectOperator {
            columns: vec![ScalarExpression::Constant(DataValue::Null)],
        }),
        children: vec![inner],
    });
    let mut builder = PhysicalPlanBuilder { plan_id: 40 };
    let mut ids = vec![];
    let mut node = builder.build_plan(&plan).unwrap();
    loop {
        match node {
            PhysicalOperator::Projection(p) => {
                ids.push(p.plan_id);
                node = *p.input;
            }
            PhysicalOperator::TableScan(s) => {
                ids.push(s.plan_id);
                break;
            }
            other => panic!("unexpected operator {:?}", other),
        }
    }
    assert_eq!(ids, vec![42, 41, 40]);
    assert_eq!(builder.plan_id, 43);
}

#[test]
fn a_refused_plan_takes_no_number() {
    let plan = LogicalPlan::Select(LogicalSelectPlan {
        operator: Operator::Project(ProjectOperator { columns: vec![] }),
        children: vec![LogicalSelectPlan {
            operator: Operator::Limit(LimitOperator {
                offset: None,
                limit: Some(1),
            }),
            children: vec![scan("t1")],
        }],
    });
    let mut builder = PhysicalPlanBuilder { plan_id: 7 };
    assert_eq!(
        builder.build_plan(&plan),
        Err(PlanError::Unsupported(PlanKind::Limit))
    );
    assert_eq!(builder.plan_id, 7);
    assert_eq!(
        builder.build_plan(&LogicalPlan::ShowTables),
        Err(PlanError::Unsupported(PlanKind::ShowTables))
    );
    assert_eq!(
        PlanError::MissingChild.message(),
        "Invalid physical plan: no child"
    );
}

#[test]
fn a_refused_plan_is_refused_at_the_last_number_too() {
    let refused = LogicalPlan::Select(LogicalSelectPlan {
        operator: Operator::Project(ProjectOperator { columns: vec![] }),
        children: vec![],
    });
    let mut builder = PhysicalPlanBuilder { plan_id: u32::MAX };
    assert_eq!(builder.build_plan(&refused), Err(PlanError::MissingChild));
    assert_eq!(builder.plan_id, u32::MAX);

    let mut builder = PhysicalPlanBuilder {
        plan_id: u32::MAX - 1,
    };
    match builder.build_plan(&LogicalPlan::Select(scan("t1"))).unwrap() {
        PhysicalOperator::TableScan(s) => assert_eq!(s.plan_id, u32::MAX - 1),
        other => panic!("unexpected operator {:?}", other),
    }
    assert_eq!(builder.plan_id, u32::MAX);
    assert_eq!(
        builder.build_plan(&LogicalPlan::Select(LogicalSelectPlan {
            operator: Operator::Filter(FilterOperator {
                predicate: ScalarExpression::Constant(DataValue::Null),
                having: true,
            }),
            children: vec![scan("t1")],
        })),
        Err(PlanError::Unsupported(PlanKind::Filter))
    );
    assert_eq!(builder.plan_id, u32::MAX);
}

#[test]
fn creation_and_insertion_keep_what_the_plan_says() {
    let columns = vec![ColumnCatalog::new(
        "a".to_string(),
        false,
        ColumnDesc::new(LogicalType::Integer, true, true, None),
    )];
    let mut builder = PhysicalPlanBuilder::new();
    match builder
        .build_plan(&LogicalPlan::CreateTable(CreateTableOperator {
            table_name: "t1".to_string(),
            columns: columns.clone(),
            if_not_exists: true,
        }))
        .unwrap()
    {
        PhysicalOperator::CreateTable(op) => {
            assert_eq!(op.table_name, "t1");
            assert_eq!(op.columns, columns);
        }
        other => panic!("unexpected operator {:?}", other),
    }
    let rows = vec![
        vec![DataValue::Int32(Some(1))],
        vec![DataValue::Utf8(Some("x".to_string()))],
        vec![],
    ];
    match builder
        .build_plan(&LogicalPlan::Insert(InsertOperator {
            table: "t1".to_string(),
            col_idxs: vec![3, 1],
            cols: rows.clone(),
            is_overwrite: false,
        }))
        .unwrap()
    {
        PhysicalOperator::Insert(op) => {
            assert_eq!(op.table_name, "t1");
            assert_eq!(op.col_idxs, vec![3, 1]);
            assert_eq!(op.cols, rows);
        }
        other => panic!("unexpected operator {:?}", other),
    }
    assert_eq!(builder.plan_id, 0);
}
