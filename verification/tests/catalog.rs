use kip_sql::catalog::{CatalogError, ColumnCatalog, ColumnDesc, IndexMeta, TableCatalog};
use kip_sql::types::{DataValue, LogicalType, TypeError};

fn column(name: &str, is_primary: bool, is_unique: bool) -> ColumnCatalog {
    ColumnCatalog::new(
        name.to_string(),
        true,
        ColumnDesc::new(LogicalType::Integer, is_primary, is_unique, None),
    )
}

#[test]
fn new_table_numbers_its_columns_in_order() {
    let table = TableCatalog::new(
        "t".to_string(),
        vec![column("x", false, false), column("y", true, false)],
    )
    .unwrap();
    assert_eq!(table.columns[0].id, Some(0));
    assert_eq!(table.columns[1].id, Some(1));
    assert_eq!(table.columns[1].table_name, Some("t".to_string()));
    assert!(table.indexes.is_empty());
    assert_eq!(table.get_column_id_by_name(&"y".to_string()), Some(1));
    assert_eq!(table.get_column_id_by_name(&"z".to_string()), None);
    assert!(table.contains_column(&"x".to_string()));
    assert_eq!(table.get_column_by_name(&"y".to_string()), Some(&table.columns[1]));
    assert_eq!(table.all_columns(), table.columns);
}

#[test]
fn columns_of_one_name_are_refused() {
    assert_eq!(
        TableCatalog::new(
            "t".to_string(),
            vec![column("x", false, false), column("y", false, false), column("x", true, false)],
        ),
        Err(CatalogError::Duplicated("x".to_string()))
    );
}

#[test]
fn indexes_are_numbered_as_they_are_added() {
    let mut table = TableCatalog::new("t".to_string(), vec![column("x", true, false)]).unwrap();
    let meta = |id: u32, name: &str| IndexMeta {
        id,
        column_ids: vec![0],
        name: name.to_string(),
        is_unique: true,
        is_primary: false,
    };
    assert_eq!(table.add_index_meta(meta(9, "first")), 0);
    assert_eq!(table.add_index_meta(meta(9, "second")), 1);
    assert_eq!(table.indexes, vec![meta(0, "first"), meta(1, "second")]);

    let rebuilt = TableCatalog::new_with_indexes(
        "t".to_string(),
        vec![column("x", true, false)],
        vec![meta(5, "a"), meta(2, "b")],
    )
    .unwrap();
    assert_eq!(rebuilt.indexes, vec![meta(5, "a"), meta(2, "b")]);
    assert_eq!(rebuilt.columns[0].id, Some(0));
}

#[test]
fn a_table_must_have_a_column() {
    assert_eq!(
        TableCatalog::new("t".to_string(), vec![]),
        Err(CatalogError::ColumnsEmpty)
    );
    assert_eq!(
        TableCatalog::new_with_indexes("t".to_string(), vec![], vec![]),
        Err(CatalogError::ColumnsEmpty)
    );
}

#[test]
fn values_change_type_where_nothing_is_lost() {
    let wide = DataValue::Int64(Some(7));
    assert_eq!(wide.cast(LogicalType::Integer), Ok(DataValue::Int32(Some(7))));
    assert_eq!(
        DataValue::Int64(Some(1 << 31)).cast(LogicalType::Integer),
        Err(TypeError::CastFail)
    );
    assert_eq!(
        DataValue::Int64(Some(-(1 << 31))).cast(LogicalType::Integer),
        Ok(DataValue::Int32(Some(i32::MIN)))
    );
    assert_eq!(
        DataValue::Int32(Some(-3)).cast(LogicalType::Bigint),
        Ok(DataValue::Int64(Some(-3)))
    );
    assert_eq!(
        DataValue::Null.cast(LogicalType::Varchar),
        Ok(DataValue::Utf8(None))
    );
    assert_eq!(
        DataValue::Int32(None).cast(LogicalType::Boolean),
        Ok(DataValue::Boolean(None))
    );
    assert_eq!(
        DataValue::Boolean(Some(true)).cast(LogicalType::Integer),
        Err(TypeError::CastFail)
    );
    assert_eq!(
        DataValue::Utf8(Some("1".to_string())).cast(LogicalType::Varchar),
        Ok(DataValue::Utf8(Some("1".to_string())))
    );
    assert!(DataValue::Utf8(None).is_null());
    assert!(!DataValue::Boolean(Some(false)).is_null());
    assert_eq!(DataValue::Int64(None).logical_type(), LogicalType::Bigint);
    assert!(DataValue::Utf8(Some("a".to_string())).same(&DataValue::Utf8(Some("a".to_string()))));
    assert!(!DataValue::Int32(Some(1)).same(&DataValue::Int64(Some(1))));
}
