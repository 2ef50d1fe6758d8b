use kip_sql::catalog::{ColumnCatalog, ColumnDesc, IndexMeta};
use kip_sql::storage::order::bytes_lt;
use kip_sql::storage::{CodecError, TableCodec};
use kip_sql::types::{DataValue, Index, LogicalType, Tuple};

fn num(v: i32) -> DataValue {
    DataValue::Int32(Some(v))
}

fn column(id: u32, name: &str, ty: LogicalType, is_primary: bool) -> ColumnCatalog {
    ColumnCatalog {
        id: Some(id),
        name: name.to_string(),
        table_name: Some("t1".to_string()),
        nullable: !is_primary,
        desc: ColumnDesc::new(ty, is_primary, false, None),
    }
}

fn within(key: &[u8], bound: &(Vec<u8>, Vec<u8>)) -> bool {
    !bytes_lt(key, &bound.0) && !bytes_lt(&bound.1, key)
}

#[test]
fn keys_have_the_documented_layout() {
    let name = [0u8, 0, 0, 0, 0, 0, 0, 2, b't', b'1'];
    assert_eq!(
        TableCodec::encode_root_table_key("t1"),
        vec![1, 0, b't', b'1']
    );
    assert_eq!(
        TableCodec::encode_root_table("t1"),
        (vec![1, 0, b't', b'1'], vec![b't', b'1'])
    );
    let mut tuple_key = vec![4u8];
    tuple_key.extend_from_slice(&name);
    tuple_key.extend_from_slice(&[0, 2, 1, 0x80, 0, 0, 1]);
    assert_eq!(TableCodec::encode_tuple_key("t1", &num(1)), tuple_key);

    let mut index_key = vec![5u8];
    index_key.extend_from_slice(&name);
    index_key.extend_from_slice(&[0, 0, 0, 0, 7, 0, 2, 1, 0x7f, 0xff, 0xff, 0xff, 1, 1, 1]);
    assert_eq!(
        TableCodec::encode_index_key(
            "t1",
            &Index::new(7, vec![num(-1), DataValue::Boolean(Some(true))])
        ),
        index_key
    );

    let (column_key, _) =
        TableCodec::encode_column("t1", &column(258, "a", LogicalType::Integer, true)).unwrap();
    let mut expected = vec![2u8];
    expected.extend_from_slice(&name);
    expected.extend_from_slice(&[0, 0, 0, 1, 2]);
    assert_eq!(column_key, expected);
}

#[test]
fn bounds_have_the_documented_layout() {
    let name = [0u8, 0, 0, 0, 0, 0, 0, 2, b't', b'1'];
    let with = |tag: u8, last: &[u8]| {
        let mut k = vec![tag];
        k.extend_from_slice(&name);
        k.extend_from_slice(last);
        k
    };
    assert_eq!(TableCodec::root_table_bound(), (vec![1, 0], vec![1, 1]));
    assert_eq!(
        TableCodec::columns_bound("t1"),
        (with(2, &[0]), with(2, &[1]))
    );
    assert_eq!(
        TableCodec::index_meta_bound("t1"),
        (with(3, &[0]), with(3, &[1]))
    );
    assert_eq!(TableCodec::tuple_bound("t1"), (with(4, &[0]), with(4, &[1])));
    assert_eq!(
        TableCodec::all_index_bound("t1"),
        (with(5, &[0]), with(5, &[1]))
    );
    assert_eq!(
        TableCodec::index_bound("t1", 3),
        (with(5, &[0, 0, 0, 0, 3, 0]), with(5, &[0, 0, 0, 0, 3, 1]))
    );
}

#[test]
fn every_key_lies_in_the_range_of_its_family_only() {
    let row = Tuple {
        id: Some(num(3)),
        columns: vec![column(0, "a", LogicalType::Integer, true)],
        values: vec![num(3)],
    };
    let meta = IndexMeta {
        id: 0,
        column_ids: vec![0],
        name: "pk_a".to_string(),
        is_unique: true,
        is_primary: true,
    };
    for table in ["t1", "a", "aa", ""] {
        let keys = [
            TableCodec::encode_root_table_key(table),
            TableCodec::encode_column(table, &column(0, "a", LogicalType::Integer, true))
                .unwrap()
                .0,
            TableCodec::encode_index_meta(table, &meta).0,
            TableCodec::encode_tuple(table, &row).unwrap().0,
            TableCodec::encode_index_key(table, &Index::new(0, vec![num(3)])),
        ];
        for other in ["t1", "t10", "a", "aa", "", "\u{0}"] {
            let bounds = [
                TableCodec::root_table_bound(),
                TableCodec::columns_bound(other),
                TableCodec::index_meta_bound(other),
                TableCodec::tuple_bound(other),
                TableCodec::all_index_bound(other),
            ];
            for (family, key) in keys.iter().enumerate() {
                for (range, bound) in bounds.iter().enumerate() {
                    let expected = family == range && (family == 0 || table == other);
                    assert_eq!(
                        within(key, bound),
                        expected,
                        "key of family {} of {:?} against range {} of {:?}",
                        family,
                        table,
                        range,
                        other
                    );
                }
            }
        }
        let index_key = &keys[4];
        assert!(within(index_key, &TableCodec::index_bound(table, 0)));
        assert!(!within(index_key, &TableCodec::index_bound(table, 1)));
    }
}

#[test]
fn integers_are_written_so_that_keys_order_as_numbers() {
    let values = [i32::MIN, -70000, -256, -1, 0, 1, 255, 256, 70000, i32::MAX];
    for w in values.windows(2) {
        let a = TableCodec::encode_tuple_key("t", &num(w[0]));
        let b = TableCodec::encode_tuple_key("t", &num(w[1]));
        assert!(bytes_lt(&a, &b), "{} before {}", w[0], w[1]);
        assert!(a < b);
    }
    let wide = [i64::MIN, -4294967297, -1, 0, 4294967296, i64::MAX];
    for w in wide.windows(2) {
        let a = TableCodec::encode_tuple_key("t", &DataValue::Int64(Some(w[0])));
        let b = TableCodec::encode_tuple_key("t", &DataValue::Int64(Some(w[1])));
        assert!(bytes_lt(&a, &b), "{} before {}", w[0], w[1]);
    }
    let key = |v: DataValue| TableCodec::encode_tuple_key("", &v)[10..].to_vec();
    assert_eq!(key(num(i32::MIN)), vec![2, 1, 0, 0, 0, 0]);
    assert_eq!(key(num(i32::MAX)), vec![2, 1, 0xff, 0xff, 0xff, 0xff]);
    assert_eq!(
        key(DataValue::Int64(Some(-2))),
        vec![3, 1, 0x7f, 0xff, 0xff, 0xff, 0xff, 0xff, 0xff, 0xfe]
    );
    assert_eq!(key(DataValue::Int32(None)), vec![2, 0]);
    assert_eq!(key(DataValue::Null), vec![0]);
    assert_eq!(
        key(DataValue::Utf8(Some("é".to_string()))),
        vec![4, 1, 0, 0, 0, 0, 0, 0, 0, 2, 0xc3, 0xa9]
    );
}

#[test]
fn no_text_is_the_beginning_of_another() {
    let a = TableCodec::encode_tuple_key("t", &DataValue::Utf8(Some("a".to_string())));
    let aa = TableCodec::encode_tuple_key("t", &DataValue::Utf8(Some("aa".to_string())));
    assert!(!aa.starts_with(&a));
    assert!(bytes_lt(&a, &aa));
}

#[test]
fn bytes_are_ordered_place_by_place() {
    assert!(bytes_lt(&[], &[0]));
    assert!(bytes_lt(&[1, 2], &[1, 2, 0]));
    assert!(bytes_lt(&[1, 2, 255], &[1, 3]));
    assert!(!bytes_lt(&[1, 3], &[1, 2, 255]));
    assert!(!bytes_lt(&[7], &[7]));
    assert!(!bytes_lt(&[], &[]));
}

#[test]
fn column_round_trip() {
    let columns = [
        column(0, "a", LogicalType::Integer, true),
        ColumnCatalog::new(
            "name with é".to_string(),
            true,
            ColumnDesc::new(
                LogicalType::Varchar,
                false,
                true,
                Some(DataValue::Utf8(Some("none".to_string()))),
            ),
        ),
        ColumnCatalog {
            id: Some(u32::MAX),
            name: String::new(),
            table_name: Some(String::new()),
            nullable: false,
            desc: ColumnDesc::new(
                LogicalType::Bigint,
                false,
                false,
                Some(DataValue::Int64(Some(i64::MIN))),
            ),
        },
        ColumnCatalog::new(
            "flag".to_string(),
            true,
            ColumnDesc::new(LogicalType::Boolean, false, false, Some(DataValue::Boolean(None))),
        ),
        ColumnCatalog::new(
            "nothing".to_string(),
            true,
            ColumnDesc::new(LogicalType::SqlNull, false, false, Some(DataValue::Null)),
        ),
    ];
    for c in columns.iter() {
        let bytes = kip_sql::storage::catalog_codec::write_column(c);
        assert_eq!(TableCodec::decode_column(&bytes).as_ref(), Ok(c));
    }
    let (_, value) = TableCodec::encode_column("t1", &columns[0]).unwrap();
    assert_eq!(
        value,
        vec![
            1, 0, 0, 0, 0, // number
            0, 0, 0, 0, 0, 0, 0, 1, b'a', // name
            1, 0, 0, 0, 0, 0, 0, 0, 2, b't', b'1', // table
            0, 2, 1, 0, // may be null, type, primary, unique
            0  // no default
        ]
    );
    assert_eq!(
        TableCodec::encode_column("t1", &ColumnCatalog::new(
            "a".to_string(),
            true,
            ColumnDesc::new(LogicalType::Integer, false, false, None)
        )),
        Err(CodecError::EncodeError)
    );
}

#[test]
fn index_meta_round_trip() {
    let meta = IndexMeta {
        id: 3,
        column_ids: vec![0, 258],
        name: "uk_b".to_string(),
        is_unique: true,
        is_primary: false,
    };
    let (key, value) = TableCodec::encode_index_meta("t1", &meta);
    assert_eq!(&key[..1], &[3]);
    assert_eq!(&key[key.len() - 5..], &[0, 0, 0, 0, 3]);
    assert_eq!(
        value,
        vec![
            0, 0, 0, 3, // number
            0, 0, 0, 0, 0, 0, 0, 2, // count of columns
            0, 0, 0, 0, 0, 0, 1, 2, // columns
            0, 0, 0, 0, 0, 0, 0, 4, b'u', b'k', b'_', b'b', // name
            1, 0 // unique, primary
        ]
    );
    assert_eq!(TableCodec::decode_index_meta(&value), Ok(meta));
}

#[test]
fn tuple_round_trip() {
    let columns = vec![
        column(0, "a", LogicalType::Integer, true),
        column(1, "b", LogicalType::Varchar, false),
        column(2, "c", LogicalType::Boolean, false),
        column(3, "d", LogicalType::Bigint, false),
    ];
    let tuple = Tuple {
        id: Some(num(-5)),
        columns: columns.clone(),
        values: vec![
            num(-5),
            DataValue::Utf8(Some("x\u{0}y".to_string())),
            DataValue::Boolean(None),
            DataValue::Int64(Some(1 << 40)),
        ],
    };
    let (key, value) = TableCodec::encode_tuple("t1", &tuple).unwrap();
    assert_eq!(key, TableCodec::encode_tuple_key("t1", &num(-5)));
    assert_eq!(TableCodec::decode_tuple(columns.clone(), &value), Ok(tuple));

    // Trailing bytes, missing bytes and values of another type are refused.
    let mut longer = value.clone();
    longer.push(0);
    assert_eq!(
        TableCodec::decode_tuple(columns.clone(), &longer),
        Err(CodecError::DecodeError)
    );
    assert_eq!(
        TableCodec::decode_tuple(columns.clone(), &value[..value.len() - 1]),
        Err(CodecError::DecodeError)
    );
    assert_eq!(
        TableCodec::decode_tuple(columns[..3].to_vec(), &value),
        Err(CodecError::DecodeError)
    );
    let mut swapped = columns.clone();
    swapped.swap(2, 3);
    assert_eq!(
        TableCodec::decode_tuple(swapped, &value),
        Err(CodecError::DecodeError)
    );
}

#[test]
fn index_entry_round_trip() {
    let ids = vec![num(1), DataValue::Utf8(Some("k".to_string())), DataValue::Null];
    let (key, value) = TableCodec::encode_index("t1", &Index::new(1, vec![num(9)]), &ids);
    assert_eq!(key, TableCodec::encode_index_key("t1", &Index::new(1, vec![num(9)])));
    assert_eq!(&value[..8], &[0, 0, 0, 0, 0, 0, 0, 3]);
    assert_eq!(TableCodec::decode_index(&value), Ok(ids));
    assert_eq!(TableCodec::decode_index(&value[..7]), Err(CodecError::DecodeError));
    assert_eq!(
        TableCodec::decode_index(&[0, 0, 0, 0, 0, 0, 0, 1]),
        Err(CodecError::DecodeError)
    );
    assert_eq!(
        TableCodec::decode_index(&[0xff, 0xff, 0xff, 0xff, 0xff, 0xff, 0xff, 0xff, 0]),
        Err(CodecError::DecodeError)
    );
    assert_eq!(TableCodec::decode_index(&[0, 0, 0, 0, 0, 0, 0, 0]), Ok(vec![]));
}

#[test]
fn table_name_round_trip() {
    for name in ["t1", "", "с кириллицей", "\u{10ffff}"] {
        let (_, value) = TableCodec::encode_root_table(name);
        assert_eq!(value, name.as_bytes());
        assert_eq!(TableCodec::decode_root_table(&value), Ok(name.to_string()));
    }
    assert_eq!(
        TableCodec::decode_root_table(&[b'a', 0x80]),
        Err(CodecError::DecodeError)
    );
    assert_eq!(
        TableCodec::decode_root_table(&[0xed, 0xa0, 0x80]),
        Err(CodecError::DecodeError)
    );
}

#[test]
fn malformed_payloads_are_refused() {
    assert_eq!(TableCodec::decode_column(&[]), Err(CodecError::DecodeError));
    assert_eq!(TableCodec::decode_column(&[2]), Err(CodecError::DecodeError));
    assert_eq!(
        TableCodec::decode_index_meta(&[0, 0, 0, 0]),
        Err(CodecError::DecodeError)
    );
    let c = column(0, "a", LogicalType::Integer, true);
    let bytes = kip_sql::storage::catalog_codec::write_column(&c);
    for cut in 0..bytes.len() {
        assert_eq!(
            TableCodec::decode_column(&bytes[..cut]),
            Err(CodecError::DecodeError),
            "cut at {}",
            cut
        );
    }
    let mut flag = bytes.clone();
    let at = bytes.len() - 5;
    flag[at] = 2;
    assert_eq!(TableCodec::decode_column(&flag), Err(CodecError::DecodeError));
}
