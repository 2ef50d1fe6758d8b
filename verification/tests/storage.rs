use kip_sql::catalog::{ColumnCatalog, ColumnDesc, IndexMeta, TableCatalog};
use kip_sql::expression::{Bound, ConstantBinary, ScalarExpression};
use kip_sql::storage::index_iter::read_by_index;
use kip_sql::storage::iter::read;
use kip_sql::storage::kip;
use kip_sql::storage::{
    Entry, IndexAction, IndexEvent, IndexIter, KeyBound, KipIter, StorageError, TableCodec,
    WriteOp,
};
use kip_sql::types::{DataValue, Index, LogicalType, Tuple};
use std::collections::{BTreeMap, VecDeque};
use std::ops::Bound as RangeBound;

/// An ordered store in memory. A removed key stays as a key without a
/// payload, as it does in the write set of a transaction.
struct MemStore {
    map: BTreeMap<Vec<u8>, Option<Vec<u8>>>,
}

impl MemStore {
    fn new() -> Self {
        MemStore {
            map: BTreeMap::new(),
        }
    }

    fn get(&self, key: &[u8]) -> Option<Vec<u8>> {
        self.map.get(key).cloned().flatten()
    }

    fn apply(&mut self, op: WriteOp) -> Result<(), String> {
        match op {
            WriteOp::Put { key, value } => {
                self.map.insert(key, Some(value));
                Ok(())
            }
            WriteOp::Remove { key } => {
                if self.get(&key).is_none() {
                    return Err("Key not found".to_string());
                }
                self.map.insert(key, None);
                Ok(())
            }
        }
    }

    fn apply_all(&mut self, ops: Vec<WriteOp>) -> Result<(), String> {
        for op in ops {
            self.apply(op)?;
        }
        Ok(())
    }

    fn range(&self, min: RangeBound<Vec<u8>>, max: RangeBound<Vec<u8>>) -> Vec<Entry> {
        self.map
            .range((min, max))
            .map(|(k, v)| Entry {
                key: k.clone(),
                value: v.clone(),
            })
            .collect()
    }

    fn scan(&self, bound: (Vec<u8>, Vec<u8>)) -> Vec<Entry> {
        self.range(RangeBound::Included(bound.0), RangeBound::Included(bound.1))
    }

    fn live_keys(&self) -> Vec<Vec<u8>> {
        self.map
            .iter()
            .filter(|(_, v)| v.is_some())
            .map(|(k, _)| k.clone())
            .collect()
    }
}

fn create_table(
    store: &mut MemStore,
    name: &str,
    columns: Vec<ColumnCatalog>,
    if_not_exists: bool,
) -> Result<(), StorageError> {
    let exists = store
        .get(&TableCodec::encode_root_table_key(name))
        .is_some();
    match kip::create_table(name.to_string(), columns, if_not_exists, exists)? {
        Some((_, writes)) => store.apply_all(writes).unwrap(),
        None => {}
    }
    Ok(())
}

fn table(store: &MemStore, name: &str) -> Option<TableCatalog> {
    let columns = store.scan(TableCodec::columns_bound(name));
    let metas = store.scan(TableCodec::index_meta_bound(name));
    kip::table(name.to_string(), &columns, &metas)
}

fn show_tables(store: &MemStore) -> Result<Vec<String>, StorageError> {
    kip::show_tables(&store.scan(TableCodec::root_table_bound()))
}

fn append(
    store: &mut MemStore,
    table_name: &str,
    tuple: &Tuple,
    is_overwrite: bool,
) -> Result<(), StorageError> {
    let exists = match &tuple.id {
        Some(id) => store
            .get(&TableCodec::encode_tuple_key(table_name, id))
            .is_some(),
        None => false,
    };
    let op = kip::append(table_name, tuple, is_overwrite, exists)?;
    store.apply(op).unwrap();
    Ok(())
}

fn add_index(
    store: &mut MemStore,
    table_name: &str,
    index: Index,
    tuple_ids: Vec<DataValue>,
    is_unique: bool,
) -> Result<(), StorageError> {
    let stored = store.get(&TableCodec::encode_index_key(table_name, &index));
    assert!(!tuple_ids.is_empty());
    assert!(stored.is_none() || is_unique);
    match kip::add_index(table_name, &index, &tuple_ids, is_unique, stored.as_ref())? {
        Some(op) => store.apply(op).unwrap(),
        None => {}
    }
    Ok(())
}

fn drop_table(store: &mut MemStore, name: &str) -> Result<(), String> {
    let writes = kip::drop_table(
        name,
        &store.scan(TableCodec::tuple_bound(name)),
        &store.scan(TableCodec::all_index_bound(name)),
        &store.scan(TableCodec::columns_bound(name)),
        &store.scan(TableCodec::index_meta_bound(name)),
    );
    store.apply_all(writes)
}

fn open(
    store: &MemStore,
    name: &str,
    bounds: (Option<usize>, Option<usize>),
    projections: Vec<ScalarExpression>,
) -> Result<KipIter, StorageError> {
    let catalog = table(store, name);
    let entries = if catalog.is_some() {
        store.scan(TableCodec::tuple_bound(name))
    } else {
        vec![]
    };
    read(catalog.as_ref(), bounds, projections, entries)
}

/// A cursor that an index drives, with the scan that is open for it.
struct IndexCursor {
    state: IndexIter,
    scan: VecDeque<Entry>,
}

impl IndexCursor {
    fn next_tuple(&mut self, store: &MemStore) -> Result<Option<Tuple>, StorageError> {
        let mut event = IndexEvent::Start;
        loop {
            match self.state.step(event)? {
                IndexAction::Get(key) => event = IndexEvent::Value(store.get(&key)),
                IndexAction::Open { min, max } => {
                    let low = match min {
                        KeyBound::Included(k) => RangeBound::Included(k),
                        KeyBound::Excluded(k) => RangeBound::Excluded(k),
                    };
                    let high = match max {
                        KeyBound::Included(k) => RangeBound::Included(k),
                        KeyBound::Excluded(k) => RangeBound::Excluded(k),
                    };
                    self.scan = store.range(low, high).into();
                    event = IndexEvent::Opened;
                }
                IndexAction::Next => event = IndexEvent::Entry(self.scan.pop_front()),
                IndexAction::Yield(tuple) => return Ok(Some(tuple)),
                IndexAction::Done => return Ok(None),
            }
        }
    }
}

fn open_by_index(
    store: &MemStore,
    name: &str,
    bounds: (Option<usize>, Option<usize>),
    projections: Vec<ScalarExpression>,
    index_meta: IndexMeta,
    binaries: Vec<ConstantBinary>,
) -> Result<IndexCursor, StorageError> {
    let catalog = table(store, name);
    Ok(IndexCursor {
        state: read_by_index(catalog.as_ref(), bounds, projections, index_meta, binaries)?,
        scan: VecDeque::new(),
    })
}

/// Writes a row and its index entries, as an executor does for an
/// insertion.
fn insert(store: &mut MemStore, name: &str, values: Vec<DataValue>) -> Result<(), StorageError> {
    let catalog = table(store, name).ok_or(StorageError::TableNotFound)?;
    let columns = catalog.all_columns();
    let primary = columns.iter().position(|c| c.desc.is_primary);
    let id = primary.map(|i| values[i].clone());
    let tuple = Tuple {
        id: id.clone(),
        columns,
        values: values.clone(),
    };
    append(store, name, &tuple, false)?;
    for meta in catalog.indexes.iter() {
        let column_values = meta
            .column_ids
            .iter()
            .map(|c| values[*c as usize].clone())
            .collect();
        add_index(
            store,
            name,
            Index::new(meta.id, column_values),
            vec![id.clone().unwrap()],
            meta.is_unique,
        )?;
    }
    Ok(())
}

fn int_column(name: &str, is_primary: bool, is_unique: bool) -> ColumnCatalog {
    ColumnCatalog::new(
        name.to_string(),
        false,
        ColumnDesc::new(LogicalType::Integer, is_primary, is_unique, None),
    )
}

fn all_refs(catalog: &TableCatalog) -> Vec<ScalarExpression> {
    catalog
        .all_columns()
        .into_iter()
        .map(ScalarExpression::ColumnRef)
        .collect()
}

fn num(v: i32) -> DataValue {
    DataValue::Int32(Some(v))
}

fn t1_with_rows(unique_b: bool, rows: &[Vec<i32>]) -> MemStore {
    let mut store = MemStore::new();
    let mut columns = vec![int_column("a", true, false)];
    if unique_b {
        columns.push(int_column("b", false, true));
    }
    create_table(&mut store, "t1", columns, false).unwrap();
    for row in rows {
        insert(&mut store, "t1", row.iter().map(|v| num(*v)).collect()).unwrap();
    }
    store
}

#[test]
fn test_in_kipdb_storage_works_with_data() {
    let mut store = MemStore::new();
    let columns = vec![
        ColumnCatalog::new(
            "c1".to_string(),
            false,
            ColumnDesc::new(LogicalType::Integer, true, false, None),
        ),
        ColumnCatalog::new(
            "c2".to_string(),
            false,
            ColumnDesc::new(LogicalType::Boolean, false, false, None),
        ),
    ];
    create_table(&mut store, "test", columns.clone(), false).unwrap();

    let table_catalog = table(&store, "test");
    assert!(table_catalog.is_some());
    assert!(table_catalog
        .unwrap()
        .get_column_id_by_name(&"c1".to_string())
        .is_some());

    append(
        &mut store,
        "test",
        &Tuple {
            id: Some(DataValue::Int32(Some(1))),
            columns: columns.clone(),
            values: vec![
                DataValue::Int32(Some(1)),
                DataValue::Boolean(Some(true)),
            ],
        },
        false,
    )
    .unwrap();
    append(
        &mut store,
        "test",
        &Tuple {
            id: Some(DataValue::Int32(Some(2))),
            columns: columns.clone(),
            values: vec![
                DataValue::Int32(Some(2)),
                DataValue::Boolean(Some(false)),
            ],
        },
        false,
    )
    .unwrap();

    let mut iter = open(
        &store,
        "test",
        (Some(1), Some(1)),
        vec![ScalarExpression::ColumnRef(columns[0].clone())],
    )
    .unwrap();

    let option_1 = iter.next_tuple().unwrap();
    assert_eq!(option_1.unwrap().id, Some(DataValue::Int32(Some(2))));

    let option_2 = iter.next_tuple().unwrap();
    assert_eq!(option_2, None);
}

#[test]
fn test_index_iter_pk() {
    let store = t1_with_rows(false, &[vec![0], vec![1], vec![2], vec![3], vec![4]]);
    let catalog = table(&store, "t1").unwrap();
    let projections = all_refs(&catalog);
    let tuple_ids = vec![
        DataValue::Int32(Some(0)),
        DataValue::Int32(Some(2)),
        DataValue::Int32(Some(3)),
        DataValue::Int32(Some(4)),
    ];
    let mut iter = open_by_index(
        &store,
        "t1",
        (Some(0), None),
        projections,
        IndexMeta {
            id: 0,
            column_ids: vec![0],
            name: "pk_a".to_string(),
            is_unique: false,
            is_primary: true,
        },
        vec![
            ConstantBinary::Eq(DataValue::Int32(Some(0))),
            ConstantBinary::Scope {
                min: Bound::Included(DataValue::Int32(Some(2))),
                max: Bound::Included(DataValue::Int32(Some(4))),
            },
        ],
    )
    .unwrap();
    let mut result = Vec::new();

    while let Some(tuple) = iter.next_tuple(&store).unwrap() {
        result.push(tuple.id.unwrap());
    }

    assert_eq!(result, tuple_ids);
}

#[test]
fn test_read_by_index() {
    let store = t1_with_rows(true, &[vec![0, 0], vec![1, 1], vec![2, 2]]);
    let catalog = table(&store, "t1").unwrap();
    let projections = all_refs(&catalog);
    let mut iter = open_by_index(
        &store,
        "t1",
        (Some(0), Some(1)),
        projections,
        catalog.indexes[0].clone(),
        vec![ConstantBinary::Scope {
            min: Bound::Excluded(DataValue::Int32(Some(0))),
            max: Bound::Unbounded,
        }],
    )
    .unwrap();

    while let Some(tuple) = iter.next_tuple(&store).unwrap() {
        assert_eq!(tuple.id, Some(DataValue::Int32(Some(1))));
        assert_eq!(
            tuple.values,
            vec![DataValue::Int32(Some(1)), DataValue::Int32(Some(1))]
        );
    }
}

#[test]
fn read_by_primary_index_with_a_limit_yields_one_row() {
    let store = t1_with_rows(true, &[vec![0, 0], vec![1, 1], vec![2, 2]]);
    let catalog = table(&store, "t1").unwrap();
    let mut iter = open_by_index(
        &store,
        "t1",
        (Some(0), Some(1)),
        all_refs(&catalog),
        catalog.indexes[0].clone(),
        vec![ConstantBinary::Scope {
            min: Bound::Excluded(DataValue::Int32(Some(0))),
            max: Bound::Unbounded,
        }],
    )
    .unwrap();
    let first = iter.next_tuple(&store).unwrap().unwrap();
    assert_eq!(first.id, Some(num(1)));
    assert_eq!(first.values, vec![num(1), num(1)]);
    assert_eq!(iter.next_tuple(&store).unwrap(), None);
}

#[test]
fn read_by_unique_index_resolves_rows_through_the_index() {
    let store = t1_with_rows(true, &[vec![0, 0], vec![1, 1], vec![2, 2]]);
    let catalog = table(&store, "t1").unwrap();
    assert_eq!(catalog.indexes[1].name, "uk_b");
    let mut iter = open_by_index(
        &store,
        "t1",
        (Some(0), Some(1)),
        all_refs(&catalog),
        catalog.indexes[1].clone(),
        vec![ConstantBinary::Scope {
            min: Bound::Excluded(DataValue::Int32(Some(0))),
            max: Bound::Unbounded,
        }],
    )
    .unwrap();
    let first = iter.next_tuple(&store).unwrap().unwrap();
    assert_eq!(first.id, Some(num(1)));
    assert_eq!(first.values, vec![num(1), num(1)]);
    assert_eq!(iter.next_tuple(&store).unwrap(), None);
}

#[test]
fn index_cursor_counts_offset_in_rows_handed_out() {
    let store = t1_with_rows(true, &[vec![0, 10], vec![1, 11], vec![2, 12], vec![3, 13]]);
    let catalog = table(&store, "t1").unwrap();
    let mut iter = open_by_index(
        &store,
        "t1",
        (Some(1), Some(2)),
        all_refs(&catalog),
        catalog.indexes[1].clone(),
        vec![
            ConstantBinary::Eq(num(13)),
            ConstantBinary::Eq(num(99)),
            ConstantBinary::Scope {
                min: Bound::Unbounded,
                max: Bound::Excluded(num(12)),
            },
        ],
    )
    .unwrap();
    let mut ids = vec![];
    while let Some(tuple) = iter.next_tuple(&store).unwrap() {
        ids.push(tuple.id.unwrap());
    }
    assert_eq!(ids, vec![num(0), num(1)]);
}

#[test]
fn index_cursor_orders_negative_keys_before_positive() {
    let store = t1_with_rows(false, &[vec![5], vec![-3], vec![0], vec![-70000], vec![70000]]);
    let catalog = table(&store, "t1").unwrap();
    let mut iter = open_by_index(
        &store,
        "t1",
        (None, None),
        all_refs(&catalog),
        catalog.indexes[0].clone(),
        vec![ConstantBinary::Scope {
            min: Bound::Included(num(-70000)),
            max: Bound::Excluded(num(70000)),
        }],
    )
    .unwrap();
    let mut ids = vec![];
    while let Some(tuple) = iter.next_tuple(&store).unwrap() {
        ids.push(tuple.id.unwrap());
    }
    assert_eq!(ids, vec![num(-70000), num(-3), num(0), num(5)]);
}

#[test]
fn created_table_is_listed_once_with_its_columns_in_order() {
    let mut store = MemStore::new();
    let columns = vec![int_column("a", true, false), int_column("b", false, false)];
    create_table(&mut store, "t1", columns.clone(), false).unwrap();
    assert_eq!(show_tables(&store).unwrap(), vec!["t1".to_string()]);
    let catalog = table(&store, "t1").unwrap();
    assert_eq!(catalog.name, "t1");
    let names: Vec<String> = catalog.columns.iter().map(|c| c.name.clone()).collect();
    assert_eq!(names, vec!["a".to_string(), "b".to_string()]);
    assert_eq!(catalog.columns[0].id, Some(0));
    assert_eq!(catalog.columns[1].id, Some(1));
    assert_eq!(catalog.columns[0].desc, columns[0].desc);
    assert_eq!(catalog.columns[1].table_name, Some("t1".to_string()));
    assert_eq!(
        catalog.indexes,
        vec![IndexMeta {
            id: 0,
            column_ids: vec![0],
            name: "pk_a".to_string(),
            is_unique: true,
            is_primary: true,
        }]
    );
}

#[test]
fn new_table_has_one_key_per_catalog_object() {
    let mut store = MemStore::new();
    create_table(
        &mut store,
        "t",
        vec![int_column("c1", true, false), int_column("c2", false, false)],
        false,
    )
    .unwrap();
    let keys = store.live_keys();
    assert_eq!(keys.len(), 4);
    assert_eq!(store.scan(TableCodec::root_table_bound()).len(), 1);
    assert_eq!(store.scan(TableCodec::columns_bound("t")).len(), 2);
    assert_eq!(store.scan(TableCodec::index_meta_bound("t")).len(), 1);
    assert_eq!(store.scan(TableCodec::tuple_bound("t")).len(), 0);
    assert_eq!(store.scan(TableCodec::all_index_bound("t")).len(), 0);

    insert(&mut store, "t", vec![num(7), num(8)]).unwrap();
    assert_eq!(store.scan(TableCodec::tuple_bound("t")).len(), 1);
    assert_eq!(store.scan(TableCodec::all_index_bound("t")).len(), 1);
    assert_eq!(store.scan(TableCodec::index_bound("t", 0)).len(), 1);
    assert_eq!(store.scan(TableCodec::index_bound("t", 1)).len(), 0);
}

#[test]
fn creating_a_table_twice_is_refused_unless_allowed() {
    let mut store = MemStore::new();
    create_table(&mut store, "t1", vec![int_column("a", true, false)], false).unwrap();
    assert_eq!(
        create_table(&mut store, "t1", vec![int_column("z", true, false)], false),
        Err(StorageError::TableExists)
    );
    assert_eq!(
        create_table(&mut store, "t1", vec![int_column("z", true, false)], true),
        Ok(())
    );
    assert_eq!(table(&store, "t1").unwrap().columns[0].name, "a");
    let before = store.live_keys();
    assert_eq!(
        create_table(
            &mut store,
            "t2",
            vec![int_column("a", true, false), int_column("a", false, false)],
            false
        ),
        Err(StorageError::DuplicateColumn)
    );
    assert_eq!(store.live_keys(), before);
    assert!(table(&store, "t2").is_none());
}

#[test]
fn a_table_without_columns_is_refused_and_nothing_is_written() {
    let mut store = MemStore::new();
    assert_eq!(
        create_table(&mut store, "t1", vec![], false),
        Err(StorageError::ColumnsEmpty)
    );
    assert_eq!(
        create_table(&mut store, "t1", vec![], true),
        Err(StorageError::ColumnsEmpty)
    );
    assert!(store.live_keys().is_empty());
    assert_eq!(show_tables(&store).unwrap(), Vec::<String>::new());
    assert!(table(&store, "t1").is_none());
    assert_eq!(
        kip::create_table("t1".to_string(), vec![], false, true),
        Err(StorageError::TableExists)
    );
    assert_eq!(kip::create_table("t1".to_string(), vec![], true, true), Ok(None));
    assert_eq!(
        StorageError::ColumnsEmpty.message(),
        "A table must have a column"
    );
}

#[test]
fn full_scan_yields_rows_in_key_order() {
    let store = t1_with_rows(false, &[vec![3], vec![0], vec![4], vec![1], vec![2]]);
    let catalog = table(&store, "t1").unwrap();
    let mut iter = open(&store, "t1", (None, None), all_refs(&catalog)).unwrap();
    let mut ids = vec![];
    while let Some(tuple) = iter.next_tuple().unwrap() {
        ids.push(tuple.id.unwrap());
    }
    assert_eq!(ids, vec![num(0), num(1), num(2), num(3), num(4)]);
}

#[test]
fn scan_skips_offset_entries_and_stops_at_limit() {
    let mut store = t1_with_rows(false, &[vec![0], vec![1], vec![2], vec![3], vec![4]]);
    store.apply(kip::delete("t1", &num(1))).unwrap();
    let catalog = table(&store, "t1").unwrap();

    // The removed row still takes a place among the entries passed over.
    let mut iter = open(&store, "t1", (Some(2), Some(2)), all_refs(&catalog)).unwrap();
    let mut ids = vec![];
    while let Some(tuple) = iter.next_tuple().unwrap() {
        ids.push(tuple.id.unwrap());
    }
    assert_eq!(ids, vec![num(2), num(3)]);

    let mut none = open(&store, "t1", (None, Some(0)), all_refs(&catalog)).unwrap();
    assert_eq!(none.next_tuple().unwrap(), None);

    let mut past = open(&store, "t1", (Some(9), None), all_refs(&catalog)).unwrap();
    assert_eq!(past.next_tuple().unwrap(), None);
}

#[test]
fn deleted_row_is_not_scanned() {
    let mut store = t1_with_rows(false, &[vec![0], vec![1]]);
    store.apply(kip::delete("t1", &num(0))).unwrap();
    let catalog = table(&store, "t1").unwrap();
    let mut iter = open(&store, "t1", (None, None), all_refs(&catalog)).unwrap();
    let mut ids = vec![];
    while let Some(tuple) = iter.next_tuple().unwrap() {
        ids.push(tuple.id.unwrap());
    }
    assert_eq!(ids, vec![num(1)]);
}

#[test]
fn unique_index_refuses_a_second_row_under_one_key() {
    let mut store = MemStore::new();
    create_table(
        &mut store,
        "t1",
        vec![int_column("a", true, false), int_column("b", false, true)],
        false,
    )
    .unwrap();
    let key = || Index::new(1, vec![num(5)]);
    assert_eq!(add_index(&mut store, "t1", key(), vec![num(1)], true), Ok(()));
    assert_eq!(
        add_index(&mut store, "t1", key(), vec![num(2)], true),
        Err(StorageError::DuplicateUniqueValue)
    );
    assert_eq!(add_index(&mut store, "t1", key(), vec![num(1)], true), Ok(()));
    assert_eq!(
        TableCodec::decode_index(&store.get(&TableCodec::encode_index_key("t1", &key())).unwrap()),
        Ok(vec![num(1)])
    );

    store.apply(kip::del_index("t1", &key())).unwrap();
    assert_eq!(add_index(&mut store, "t1", key(), vec![num(2)], true), Ok(()));
}

#[test]
fn duplicate_primary_key_is_refused_unless_overwriting() {
    let mut store = t1_with_rows(true, &[vec![0, 0]]);
    let catalog = table(&store, "t1").unwrap();
    let again = Tuple {
        id: Some(num(0)),
        columns: catalog.all_columns(),
        values: vec![num(0), num(9)],
    };
    assert_eq!(
        append(&mut store, "t1", &again, false),
        Err(StorageError::DuplicatePrimaryKey)
    );
    assert_eq!(append(&mut store, "t1", &again, true), Ok(()));
    let mut iter = open(&store, "t1", (None, None), all_refs(&catalog)).unwrap();
    assert_eq!(iter.next_tuple().unwrap().unwrap().values, vec![num(0), num(9)]);
}

#[test]
fn row_that_breaks_its_invariant_is_not_written() {
    let store = t1_with_rows(true, &[]);
    let catalog = table(&store, "t1").unwrap();
    let wrong_type = Tuple {
        id: Some(num(0)),
        columns: catalog.all_columns(),
        values: vec![num(0), DataValue::Boolean(Some(true))],
    };
    let encode = StorageError::Codec(kip_sql::storage::CodecError::EncodeError);
    assert_eq!(kip::append("t1", &wrong_type, false, false), Err(encode));
    let wrong_id = Tuple {
        id: Some(num(1)),
        columns: catalog.all_columns(),
        values: vec![num(0), num(0)],
    };
    assert_eq!(kip::append("t1", &wrong_id, false, false), Err(encode));
    let no_id = Tuple {
        id: None,
        columns: catalog.all_columns(),
        values: vec![num(0), num(0)],
    };
    assert_eq!(kip::append("t1", &no_id, false, false), Err(encode));
}

#[test]
fn dropped_table_is_gone() {
    let mut store = t1_with_rows(true, &[vec![0, 0], vec![1, 1]]);
    create_table(&mut store, "t10", vec![int_column("a", true, false)], false).unwrap();
    insert(&mut store, "t10", vec![num(5)]).unwrap();

    drop_table(&mut store, "t1").unwrap();
    assert_eq!(show_tables(&store).unwrap(), vec!["t10".to_string()]);
    assert!(table(&store, "t1").is_none());
    assert!(matches!(
        open(&store, "t1", (None, None), vec![]),
        Err(StorageError::TableNotFound)
    ));
    assert!(matches!(
        open_by_index(
            &store,
            "t1",
            (None, None),
            vec![],
            IndexMeta {
                id: 0,
                column_ids: vec![0],
                name: "pk_a".to_string(),
                is_unique: true,
                is_primary: true,
            },
            vec![]
        ),
        Err(StorageError::TableNotFound)
    ));

    // The other table keeps all that is its own.
    let other = table(&store, "t10").unwrap();
    let mut iter = open(&store, "t10", (None, None), all_refs(&other)).unwrap();
    assert_eq!(iter.next_tuple().unwrap().unwrap().id, Some(num(5)));
    assert_eq!(store.live_keys().len(), 5);

    drop_table(&mut store, "t10").unwrap();
    assert_eq!(show_tables(&store).unwrap(), Vec::<String>::new());
    assert!(store.live_keys().is_empty());
}

#[test]
fn drop_removes_rows_then_index_entries_then_descriptions_then_the_directory_entry() {
    let store = t1_with_rows(true, &[vec![0, 0]]);
    let writes = kip::drop_table(
        "t1",
        &store.scan(TableCodec::tuple_bound("t1")),
        &store.scan(TableCodec::all_index_bound("t1")),
        &store.scan(TableCodec::columns_bound("t1")),
        &store.scan(TableCodec::index_meta_bound("t1")),
    );
    let keys: Vec<Vec<u8>> = writes
        .into_iter()
        .map(|w| match w {
            WriteOp::Remove { key } => key,
            WriteOp::Put { .. } => panic!("a drop writes nothing"),
        })
        .collect();
    let families: Vec<u8> = keys.iter().map(|k| k[0]).collect();
    assert_eq!(families, vec![4, 5, 5, 2, 2, 3, 3, 1]);
    assert_eq!(keys[7], TableCodec::encode_root_table_key("t1"));
}

#[test]
fn table_is_absent_where_a_description_cannot_be_read() {
    let mut store = t1_with_rows(false, &[]);
    let (key, _) = TableCodec::encode_column(
        "t1",
        &ColumnCatalog {
            id: Some(0),
            ..int_column("a", true, false)
        },
    )
    .unwrap();
    store
        .apply(WriteOp::Put {
            key,
            value: vec![9, 9, 9],
        })
        .unwrap();
    assert!(table(&store, "t1").is_none());
    assert!(table(&MemStore::new(), "t1").is_none());
}

#[test]
fn table_is_absent_where_an_index_description_cannot_be_read() {
    let mut store = t1_with_rows(true, &[]);
    assert_eq!(table(&store, "t1").unwrap().indexes.len(), 2);
    let (key, _) = TableCodec::encode_index_meta("t1", &table(&store, "t1").unwrap().indexes[0]);
    store
        .apply(WriteOp::Put {
            key,
            value: vec![0, 0, 0],
        })
        .unwrap();
    assert!(table(&store, "t1").is_none());
    assert!(matches!(
        open(&store, "t1", (None, None), vec![]),
        Err(StorageError::TableNotFound)
    ));
    assert_eq!(
        kip::index_meta_collect(&store.scan(TableCodec::index_meta_bound("t1"))),
        None
    );
}

#[test]
fn indexes_keep_the_numbers_they_are_stored_with() {
    let mut store = t1_with_rows(true, &[]);
    let catalog = table(&store, "t1").unwrap();
    let first = catalog.indexes[0].clone();
    // The first index goes; the second keeps its number.
    store
        .apply(WriteOp::Remove {
            key: TableCodec::encode_index_meta("t1", &first).0,
        })
        .unwrap();
    let read_back = table(&store, "t1").unwrap();
    assert_eq!(read_back.indexes, vec![catalog.indexes[1].clone()]);
    assert_eq!(read_back.indexes[0].id, 1);
    assert_eq!(read_back.indexes[0].name, "uk_b");
}

#[test]
fn show_tables_fails_on_a_name_that_is_no_text() {
    let mut store = MemStore::new();
    store
        .apply(WriteOp::Put {
            key: TableCodec::encode_root_table_key("x"),
            value: vec![0xff, 0xfe],
        })
        .unwrap();
    assert_eq!(
        show_tables(&store),
        Err(StorageError::Codec(kip_sql::storage::CodecError::DecodeError))
    );
}

#[test]
fn projection_takes_columns_by_name_and_aliases() {
    let store = t1_with_rows(true, &[vec![1, 2]]);
    let catalog = table(&store, "t1").unwrap();
    let b = ScalarExpression::ColumnRef(catalog.columns[1].clone());
    let projections = vec![
        ScalarExpression::Alias {
            expr: Box::new(b.clone()),
            alias: "x".to_string(),
        },
        ScalarExpression::Constant(DataValue::Utf8(Some("k".to_string()))),
        ScalarExpression::InputRef {
            index: 0,
            ty: LogicalType::Integer,
        },
        ScalarExpression::ColumnRef(int_column("missing", false, false)),
    ];
    let mut iter = open(&store, "t1", (None, None), projections).unwrap();
    let tuple = iter.next_tuple().unwrap().unwrap();
    assert_eq!(tuple.id, Some(num(1)));
    assert_eq!(
        tuple.values,
        vec![
            num(2),
            DataValue::Utf8(Some("k".to_string())),
            num(1),
            DataValue::Null
        ]
    );
    let names: Vec<String> = tuple.columns.iter().map(|c| c.name.clone()).collect();
    assert_eq!(names, vec!["x", "?column?", "?column?", "missing"]);

    let mut bad = open(
        &store,
        "t1",
        (None, None),
        vec![ScalarExpression::InputRef {
            index: 2,
            ty: LogicalType::Integer,
        }],
    )
    .unwrap();
    assert_eq!(
        bad.next_tuple(),
        Err(StorageError::Type(kip_sql::types::TypeError::OutOfRange))
    );
}

#[test]
fn index_cursor_passes_over_what_is_gone() {
    let mut store = t1_with_rows(true, &[vec![0, 10], vec![1, 11], vec![2, 12]]);
    // The row goes, its index entry stays behind.
    store.apply(kip::delete("t1", &num(1))).unwrap();
    // The index entry goes, the row stays behind.
    store
        .apply(kip::del_index("t1", &Index::new(1, vec![num(12)])))
        .unwrap();
    let catalog = table(&store, "t1").unwrap();
    let mut by_unique = open_by_index(
        &store,
        "t1",
        (None, None),
        all_refs(&catalog),
        catalog.indexes[1].clone(),
        vec![
            ConstantBinary::Eq(num(11)),
            ConstantBinary::Scope {
                min: Bound::Unbounded,
                max: Bound::Unbounded,
            },
        ],
    )
    .unwrap();
    let mut ids = vec![];
    while let Some(tuple) = by_unique.next_tuple(&store).unwrap() {
        ids.push(tuple.id.unwrap());
    }
    assert_eq!(ids, vec![num(0)]);

    let mut by_primary = open_by_index(
        &store,
        "t1",
        (None, None),
        all_refs(&catalog),
        catalog.indexes[0].clone(),
        vec![
            ConstantBinary::Eq(num(1)),
            ConstantBinary::Scope {
                min: Bound::Unbounded,
                max: Bound::Unbounded,
            },
            ConstantBinary::Eq(num(2)),
        ],
    )
    .unwrap();
    let mut ids = vec![];
    while let Some(tuple) = by_primary.next_tuple(&store).unwrap() {
        ids.push(tuple.id.unwrap());
    }
    assert_eq!(ids, vec![num(0), num(2), num(2)]);
}

#[test]
fn index_cursor_says_what_it_wants_step_by_step() {
    let store = t1_with_rows(true, &[vec![7, 70]]);
    let catalog = table(&store, "t1").unwrap();
    let mut state = read_by_index(
        Some(&catalog),
        (None, Some(1)),
        all_refs(&catalog),
        catalog.indexes[1].clone(),
        vec![
            ConstantBinary::Eq(num(70)),
            ConstantBinary::Scope {
                min: Bound::Excluded(num(1)),
                max: Bound::Included(num(2)),
            },
        ],
    )
    .unwrap();
    let index_key = TableCodec::encode_index_key("t1", &Index::new(1, vec![num(70)]));
    let tuple_key = TableCodec::encode_tuple_key("t1", &num(7));
    assert_eq!(
        state.step(IndexEvent::Start),
        Ok(IndexAction::Get(index_key.clone()))
    );
    assert_eq!(
        state.step(IndexEvent::Value(store.get(&index_key))),
        Ok(IndexAction::Get(tuple_key.clone()))
    );
    match state.step(IndexEvent::Value(store.get(&tuple_key))).unwrap() {
        IndexAction::Yield(tuple) => assert_eq!(tuple.values, vec![num(7), num(70)]),
        other => panic!("expected a row, not {:?}", other),
    }
    assert_eq!(state.limit, Some(0));
    assert_eq!(state.step(IndexEvent::Start), Ok(IndexAction::Done));

    let mut ranged = read_by_index(
        Some(&catalog),
        (None, None),
        vec![],
        catalog.indexes[1].clone(),
        vec![ConstantBinary::Scope {
            min: Bound::Excluded(num(1)),
            max: Bound::Included(num(2)),
        }],
    )
    .unwrap();
    let key = |v: i32| TableCodec::encode_index_key("t1", &Index::new(1, vec![num(v)]));
    assert_eq!(
        ranged.step(IndexEvent::Start),
        Ok(IndexAction::Open {
            min: KeyBound::Excluded(key(1)),
            max: KeyBound::Included(key(2)),
        })
    );
    assert_eq!(ranged.step(IndexEvent::Opened), Ok(IndexAction::Next));
    assert_eq!(
        ranged.step(IndexEvent::Entry(Some(Entry {
            key: key(2),
            value: None
        }))),
        Ok(IndexAction::Next)
    );
    assert_eq!(
        ranged.step(IndexEvent::Entry(Some(Entry {
            key: key(2),
            value: Some(vec![1, 2, 3])
        }))),
        Err(StorageError::Codec(kip_sql::storage::CodecError::DecodeError))
    );
    let mut whole = read_by_index(
        Some(&catalog),
        (None, None),
        vec![],
        catalog.indexes[0].clone(),
        vec![ConstantBinary::Scope {
            min: Bound::Unbounded,
            max: Bound::Unbounded,
        }],
    )
    .unwrap();
    let (low, high) = TableCodec::tuple_bound("t1");
    assert_eq!(
        whole.step(IndexEvent::Start),
        Ok(IndexAction::Open {
            min: KeyBound::Included(low),
            max: KeyBound::Included(high),
        })
    );
    assert_eq!(whole.step(IndexEvent::Opened), Ok(IndexAction::Next));
    assert_eq!(whole.step(IndexEvent::Entry(None)), Ok(IndexAction::Done));
}

#[test]
fn scan_stops_at_a_row_that_cannot_be_read() {
    let mut store = t1_with_rows(false, &[vec![0], vec![1], vec![2]]);
    store
        .apply(WriteOp::Put {
            key: TableCodec::encode_tuple_key("t1", &num(1)),
            value: vec![9],
        })
        .unwrap();
    let catalog = table(&store, "t1").unwrap();
    let mut iter = open(&store, "t1", (None, Some(2)), all_refs(&catalog)).unwrap();
    assert_eq!(iter.next_tuple().unwrap().unwrap().id, Some(num(0)));
    assert_eq!(
        iter.next_tuple(),
        Err(StorageError::Codec(kip_sql::storage::CodecError::DecodeError))
    );
    // The row that could not be read is behind the cursor, and did not
    // count against the limit.
    assert_eq!(iter.limit, Some(1));
    assert_eq!(iter.next_tuple().unwrap().unwrap().id, Some(num(2)));
    assert_eq!(iter.next_tuple().unwrap(), None);
}

#[test]
fn computed_expressions_are_left_to_the_executor() {
    let store = t1_with_rows(true, &[vec![1, 2]]);
    let catalog = table(&store, "t1").unwrap();
    let a = ScalarExpression::ColumnRef(catalog.columns[0].clone());
    let sum = ScalarExpression::Binary {
        op: kip_sql::expression::BinaryOperator::Plus,
        left_expr: Box::new(a.clone()),
        right_expr: Box::new(a),
        ty: LogicalType::Integer,
    };
    let mut iter = open(&store, "t1", (None, None), vec![sum]).unwrap();
    assert_eq!(
        iter.next_tuple(),
        Err(StorageError::Type(kip_sql::types::TypeError::NotEvaluable))
    );
}
